//! Values kept under text keys.

use crate::sorting;
use crate::sorting::{sort, Ranked};
use crate::text;
use crate::text::{comes_before, same};
use crate::views;
use vstd::prelude::*;

verus! {

broadcast use crate::views::group_views;

/// A value under each of some keys, no key twice.
#[derive(Debug)]
pub struct Table<T> {
    entries: Vec<(String, T)>,
}

/// Whether no key occurs twice.
spec fn keys_differ<T>(entries: Seq<(String, T)>) -> bool {
    forall|i: int, j: int| 0 <= i < j < entries.len() ==> (#[trigger] entries[i]).0@ != (#[trigger] entries[j]).0@
}

/// Whether a key stands at a position.
spec fn stands_at<T>(entries: Seq<(String, T)>, key: Seq<char>, i: int) -> bool {
    0 <= i < entries.len() && entries[i].0@ == key
}

spec fn holds<T>(entries: Seq<(String, T)>, key: Seq<char>) -> bool {
    exists|i: int| #[trigger] stands_at(entries, key, i)
}

spec fn held<T: View>(entries: Seq<(String, T)>, key: Seq<char>) -> T::V {
    entries[choose|i: int| #[trigger] stands_at(entries, key, i)].1@
}

spec fn contents<T: View>(entries: Seq<(String, T)>) -> Map<Seq<char>, T::V> {
    Map::new(|key: Seq<char>| holds(entries, key), |key: Seq<char>| held(entries, key))
}

impl<T: View> View for Table<T> {
    type V = Map<Seq<char>, T::V>;

    closed spec fn view(&self) -> Map<Seq<char>, T::V> {
        contents(self.entries@)
    }
}

impl<T> Table<T> {
    #[verifier::type_invariant]
    spec fn well_formed(self) -> bool {
        keys_differ(self.entries@)
    }
}

proof fn held_is_there<T: View>(entries: Seq<(String, T)>, i: int)
    requires
        keys_differ(entries),
        0 <= i < entries.len(),
    ensures
        contents(entries).contains_key(entries[i].0@),
        contents(entries)[entries[i].0@] == entries[i].1@,
{
    let key = entries[i].0@;
    assert(stands_at(entries, key, i));
    let k = choose|k: int| #[trigger] stands_at(entries, key, k);
    assert(k == i);
}

proof fn pushing_inserts<T: View>(entries: Seq<(String, T)>, key: String, value: T)
    requires
        keys_differ(entries),
        !holds(entries, key@),
    ensures
        keys_differ(entries.push((key, value))),
        contents(entries.push((key, value))) == contents(entries).insert(key@, value@),
{
    let after = entries.push((key, value));
    assert forall|i: int, j: int| 0 <= i < j < after.len() implies (#[trigger] after[i]).0@ != (
    #[trigger] after[j]).0@ by {
        if j == entries.len() {
            assert(after[j].0@ == key@);
            if entries[i].0@ == key@ {
                assert(stands_at(entries, key@, i));
            }
        }
    }
    let a = contents(after);
    let b = contents(entries).insert(key@, value@);
    assert(a =~= b) by {
        assert forall|k: Seq<char>| a.contains_key(k) == b.contains_key(k) by {
            if holds(after, k) {
                let i = choose|i: int| #[trigger] stands_at(after, k, i);
                if i < entries.len() {
                    assert(stands_at(entries, k, i));
                } else {
                    assert(k == key@);
                }
            }
            if k == key@ {
                assert(stands_at(after, k, entries.len() as int));
            } else if holds(entries, k) {
                let i = choose|i: int| #[trigger] stands_at(entries, k, i);
                assert(stands_at(after, k, i));
            }
        }
        assert forall|k: Seq<char>| a.contains_key(k) implies a[k] == b[k] by {
            let i = choose|i: int| #[trigger] stands_at(after, k, i);
            held_is_there(after, i);
            if i < entries.len() {
                held_is_there(entries, i);
                assert(stands_at(entries, k, i));
            }
        }
    }
}

proof fn removing_removes<T: View>(entries: Seq<(String, T)>, at: int)
    requires
        keys_differ(entries),
        0 <= at < entries.len(),
    ensures
        keys_differ(entries.remove(at)),
        contents(entries.remove(at)) == contents(entries).remove(entries[at].0@),
        contents(entries).contains_key(entries[at].0@),
        contents(entries)[entries[at].0@] == entries[at].1@,
{
    let after = entries.remove(at);
    let key = entries[at].0@;
    held_is_there(entries, at);
    assert forall|i: int, j: int| 0 <= i < j < after.len() implies (#[trigger] after[i]).0@ != (
    #[trigger] after[j]).0@ by {
        let k = if i < at { i } else { i + 1 };
        let l = if j < at { j } else { j + 1 };
        assert(after[i] == entries[k]);
        assert(after[j] == entries[l]);
    }
    let a = contents(after);
    let b = contents(entries).remove(key);
    assert(a =~= b) by {
        assert forall|k: Seq<char>| a.contains_key(k) == b.contains_key(k) by {
            if holds(after, k) {
                let i = choose|i: int| #[trigger] stands_at(after, k, i);
                let l = if i < at { i } else { i + 1 };
                assert(after[i] == entries[l]);
                assert(stands_at(entries, k, l));
                assert(k != key);
            }
            if holds(entries, k) && k != key {
                let i = choose|i: int| #[trigger] stands_at(entries, k, i);
                let l = if i < at { i } else { i - 1 };
                assert(after[l] == entries[i]);
                assert(stands_at(after, k, l));
            }
        }
        assert forall|k: Seq<char>| a.contains_key(k) implies a[k] == b[k] by {
            let i = choose|i: int| #[trigger] stands_at(after, k, i);
            let l = if i < at { i } else { i + 1 };
            assert(after[i] == entries[l]);
            held_is_there(after, i);
            held_is_there(entries, l);
        }
    }
}

impl Ranked for String {
    open spec fn before(a: Seq<char>, b: Seq<char>) -> bool {
        text::before(a, b)
    }

    fn comes_before(&self, other: &Self) -> (r: bool) {
        comes_before(self.as_str(), other.as_str())
    }
}

/// Whether texts stand in order, none twice.
pub open spec fn rising(keys: Seq<Seq<char>>) -> bool {
    forall|i: int, j: int| 0 <= i < j < keys.len() ==> text::before(#[trigger] keys[i], #[trigger] keys[j])
}

/// Whether `keys` are the keys of a map, in order.
pub open spec fn keys_of<V>(m: Map<Seq<char>, V>, keys: Seq<Seq<char>>) -> bool {
    &&& rising(keys)
    &&& forall|i: int| 0 <= i < keys.len() ==> m.contains_key(#[trigger] keys[i])
    &&& forall|k: Seq<char>| m.contains_key(k) ==> keys.contains(k)
}

proof fn sorting_keys(keys: Seq<Seq<char>>)
    requires
        keys.no_duplicates(),
    ensures
        rising(sorting::sorted::<String>(keys)),
        forall|k: Seq<char>| keys.contains(k) == sorting::sorted::<String>(keys).contains(k),
{
    let s = sorting::sorted::<String>(keys);
    assert(sorting::is_order::<String>()) by {
        assert forall|a: Seq<char>| !#[trigger] String::before(a, a) by {
            text::texts_are_ordered(a, a, a);
        }
        assert forall|a: Seq<char>, b: Seq<char>, c: Seq<char>|
            #[trigger] String::before(a, b) && #[trigger] String::before(b, c) implies String::before(a, c) by {
            text::texts_are_ordered(a, b, c);
        }
        assert forall|a: Seq<char>, b: Seq<char>, c: Seq<char>|
            !#[trigger] String::before(b, a) && !#[trigger] String::before(c, b) implies !String::before(c, a) by {
            text::texts_are_ordered(a, b, c);
            text::texts_are_ordered(b, c, a);
            text::texts_are_ordered(c, a, b);
        }
    }
    sorting::sorting_orders::<String>(keys);
    sorting::sorting_keeps_items::<String>(keys);
    keys.to_multiset_ensures();
    s.to_multiset_ensures();
    keys.lemma_multiset_has_no_duplicates();
    s.lemma_multiset_has_no_duplicates_conv();
    assert forall|i: int, j: int| 0 <= i < j < s.len() implies text::before(#[trigger] s[i], #[trigger] s[j]) by {
        assert(!String::before(s[j], s[i]));
        text::texts_are_ordered(s[i], s[j], s[i]);
    }
    assert forall|k: Seq<char>| keys.contains(k) == s.contains(k) by {
        assert(keys.contains(k) <==> keys.to_multiset().count(k) > 0);
        assert(s.contains(k) <==> s.to_multiset().count(k) > 0);
    }
}

impl<T: View> Table<T> {
    pub fn new() -> (r: Table<T>)
        ensures
            r@ == Map::<Seq<char>, T::V>::empty(),
    {
        let r = Table { entries: Vec::new() };
        assert(r@ =~= Map::<Seq<char>, T::V>::empty());
        r
    }

    fn position(&self, key: &str) -> (r: Option<usize>)
        ensures
            match r {
                Some(i) => i < self.entries@.len() && self.entries@[i as int].0@ == key@,
                None => !holds(self.entries@, key@),
            },
    {
        for i in 0..self.entries.len()
            invariant
                forall|j: int| 0 <= j < i ==> (#[trigger] self.entries@[j]).0@ != key@,
        {
            if same(self.entries[i].0.as_str(), key) {
                return Some(i);
            }
        }
        None
    }

    /// The value under a key.
    pub fn get(&self, key: &str) -> (r: Option<&T>)
        ensures
            match r {
                Some(v) => self@.contains_key(key@) && self@[key@] == v@,
                None => !self@.contains_key(key@),
            },
    {
        proof {
            use_type_invariant(self);
        }
        match self.position(key) {
            Some(i) => {
                proof {
                    held_is_there(self.entries@, i as int);
                }
                Some(&self.entries[i].1)
            },
            None => None,
        }
    }

    /// Take the value under a key out.
    pub fn take(&mut self, key: &str) -> (r: Option<T>)
        ensures
            final(self)@ == old(self)@.remove(key@),
            match r {
                Some(v) => old(self)@.contains_key(key@) && old(self)@[key@] == v@,
                None => !old(self)@.contains_key(key@),
            },
    {
        proof {
            use_type_invariant(&*self);
        }
        match self.position(key) {
            Some(i) => {
                proof {
                    removing_removes(self.entries@, i as int);
                }
                let mut entries: Vec<(String, T)> = Vec::new();
                std::mem::swap(&mut entries, &mut self.entries);
                let (_, value) = entries.remove(i);
                self.entries = entries;
                Some(value)
            },
            None => {
                assert(self@.remove(key@) =~= self@);
                None
            },
        }
    }

    /// Keep a value under a key, in place of what was there.
    pub fn put(&mut self, key: &str, value: T)
        ensures
            final(self)@ == old(self)@.insert(key@, value@),
    {
        let before = self.take(key);
        proof {
            use_type_invariant(&*self);
            assert(!self@.contains_key(key@));
        }
        let mut entries: Vec<(String, T)> = Vec::new();
        std::mem::swap(&mut entries, &mut self.entries);
        let name = key.to_owned();
        proof {
            pushing_inserts(entries@, name, value);
        }
        entries.push((name, value));
        self.entries = entries;
        assert(old(self)@.remove(key@).insert(key@, value@) =~= old(self)@.insert(key@, value@));
    }

    pub fn clear(&mut self)
        ensures
            final(self)@ == Map::<Seq<char>, T::V>::empty(),
    {
        self.entries = Vec::new();
        assert(self@ =~= Map::<Seq<char>, T::V>::empty());
    }

    /// The keys, in order.
    pub fn keys(&self) -> (r: Vec<String>)
        ensures
            keys_of(self@, views::of(r@)),
    {
        proof {
            use_type_invariant(self);
        }
        let mut keys: Vec<String> = Vec::new();
        for i in 0..self.entries.len()
            invariant
                keys@.len() == i,
                forall|j: int| 0 <= j < i ==> (#[trigger] keys@[j])@ == self.entries@[j].0@,
        {
            keys.push(self.entries[i].0.clone());
        }
        let ghost all = views::of(keys@);
        proof {
            assert(all.no_duplicates()) by {
                assert forall|i: int, j: int| 0 <= i < all.len() && 0 <= j < all.len() && i != j implies all[i]
                    != all[j] by {
                    assert(all[i] == self.entries@[i].0@);
                    assert(all[j] == self.entries@[j].0@);
                }
            }
            sorting_keys(all);
            assert forall|k: Seq<char>| self@.contains_key(k) implies all.contains(k) by {
                let i = choose|i: int| #[trigger] stands_at(self.entries@, k, i);
                assert(all[i] == k);
            }
            assert forall|k: Seq<char>| all.contains(k) implies self@.contains_key(k) by {
                let i = choose|i: int| 0 <= i < all.len() && all[i] == k;
                assert(keys@[i]@ == self.entries@[i].0@);
                held_is_there(self.entries@, i);
            }
            let s = sorting::sorted::<String>(all);
            assert forall|i: int| 0 <= i < s.len() implies self@.contains_key(#[trigger] s[i]) by {
                assert(s.contains(s[i]));
                assert(all.contains(s[i]));
            }
            assert forall|k: Seq<char>| self@.contains_key(k) implies s.contains(k) by {
                assert(all.contains(k));
            }
            assert(keys_of(self@, s));
        }
        sort(keys)
    }
}

} // verus!
