//! Stable sorting.

use crate::views;
use vstd::prelude::*;

verus! {

broadcast use crate::views::group_views;

/// Values with an order between them.
pub trait Ranked: View + Sized {
    spec fn before(a: Self::V, b: Self::V) -> bool;

    fn comes_before(&self, other: &Self) -> (r: bool)
        ensures
            r == Self::before(self@, other@),
    ;
}

impl<'a, T: Ranked> Ranked for &'a T {
    open spec fn before(a: T::V, b: T::V) -> bool {
        T::before(a, b)
    }

    fn comes_before(&self, other: &Self) -> (r: bool) {
        T::comes_before(*self, *other)
    }
}

/// The first position from `i` on whose item `x` comes before; the end where there
/// is none.
pub open spec fn place<T: Ranked>(s: Seq<T::V>, x: T::V, i: int) -> int
    decreases s.len() - i,
{
    if i < 0 || i >= s.len() {
        s.len() as int
    } else if T::before(x, s[i]) {
        i
    } else {
        place::<T>(s, x, i + 1)
    }
}

/// The first `n` items in order, equal ones as they came.
pub open spec fn sorted_to<T: Ranked>(s: Seq<T::V>, n: int) -> Seq<T::V>
    decreases n,
{
    if n <= 0 {
        Seq::empty()
    } else {
        let rest = sorted_to::<T>(s, n - 1);
        rest.insert(place::<T>(rest, s[n - 1], 0), s[n - 1])
    }
}

/// The items in order, equal ones as they came.
pub open spec fn sorted<T: Ranked>(s: Seq<T::V>) -> Seq<T::V> {
    sorted_to::<T>(s, s.len() as int)
}

pub proof fn place_is_inside<T: Ranked>(s: Seq<T::V>, x: T::V, i: int)
    requires
        0 <= i <= s.len(),
    ensures
        i <= place::<T>(s, x, i) <= s.len(),
        forall|j: int| i <= j < place::<T>(s, x, i) ==> !T::before(x, #[trigger] s[j]),
        place::<T>(s, x, i) < s.len() ==> T::before(x, s[place::<T>(s, x, i)]),
    decreases s.len() - i,
{
    if i < s.len() && !T::before(x, s[i]) {
        place_is_inside::<T>(s, x, i + 1);
    }
}

/// Put the items in order, equal ones as they came.
pub fn sort<T: Ranked>(items: Vec<T>) -> (r: Vec<T>)
    ensures
        views::of(r@) == sorted::<T>(views::of(items@)),
{
    let ghost all = views::of(items@);
    let mut rest = items;
    let mut out: Vec<T> = Vec::new();
    let ghost mut done: int = 0;
    while rest.len() > 0
        invariant
            0 <= done <= all.len(),
            views::of(rest@) == all.skip(done),
            views::of(out@) == sorted_to::<T>(all, done),
        decreases rest@.len(),
    {
        assert(views::of(rest@).len() == rest@.len());
        assert(views::of(rest@)[0] == all[done]);
        let ghost before = views::of(rest@);
        let x = rest.remove(0);
        assert(views::of(rest@) =~= before.skip(1));
        assert(before.skip(1) =~= all.skip(done + 1));
        let ghost sofar = views::of(out@);
        let mut i: usize = 0;
        while i < out.len() && !x.comes_before(&out[i])
            invariant
                i <= out@.len(),
                sofar == views::of(out@),
                place::<T>(sofar, x@, 0) == place::<T>(sofar, x@, i as int),
            decreases out@.len() - i,
        {
            assert(sofar[i as int] == out@[i as int]@);
            i = i + 1;
        }
        assert(i < out@.len() ==> sofar[i as int] == out@[i as int]@);
        let ghost value = x@;
        out.insert(i, x);
        assert(views::of(out@) =~= sofar.insert(i as int, value));
        proof {
            done = done + 1;
        }
    }
    assert(views::of(rest@).len() == 0);
    assert(done == all.len());
    out
}

proof fn place_of_references<'a, T: Ranked>(s: Seq<T::V>, x: T::V, i: int)
    ensures
        place::<&'a T>(s, x, i) == place::<T>(s, x, i),
    decreases s.len() - i,
{
    if 0 <= i && i < s.len() {
        place_of_references::<T>(s, x, i + 1);
    }
}

proof fn sorting_references<'a, T: Ranked>(s: Seq<T::V>, n: int)
    ensures
        sorted_to::<&'a T>(s, n) == sorted_to::<T>(s, n),
    decreases n,
{
    if n > 0 {
        sorting_references::<T>(s, n - 1);
        place_of_references::<T>(sorted_to::<T>(s, n - 1), s[n - 1], 0);
    }
}

/// Put references to items in the order of the items, equal ones as they came.
pub fn sort_refs<'a, T: Ranked>(items: Vec<&'a T>) -> (r: Vec<&'a T>)
    ensures
        views::of(r@) == sorted::<T>(views::of(items@)),
{
    proof {
        sorting_references::<T>(views::of(items@), items@.len() as int);
    }
    sort(items)
}

pub proof fn inserting_adds_one<V>(s: Seq<V>, i: int, x: V)
    requires
        0 <= i <= s.len(),
    ensures
        s.insert(i, x).to_multiset() == s.to_multiset().insert(x),
{
    s.to_multiset_ensures();
    s.insert(i, x).to_multiset_ensures();
    let front = s.take(i);
    let back = s.skip(i);
    assert(s =~= front + back);
    assert(s.insert(i, x) =~= front.push(x) + back);
    vstd::seq_lib::lemma_multiset_commutative(front, back);
    vstd::seq_lib::lemma_multiset_commutative(front.push(x), back);
    front.to_multiset_ensures();
    assert(front.push(x).to_multiset() == front.to_multiset().insert(x));
    assert(s.insert(i, x).to_multiset() =~= s.to_multiset().insert(x));
}

proof fn sorting_keeps_the_first<T: Ranked>(s: Seq<T::V>, n: int)
    requires
        0 <= n <= s.len(),
    ensures
        sorted_to::<T>(s, n).to_multiset() == s.take(n).to_multiset(),
    decreases n,
{
    if n > 0 {
        sorting_keeps_the_first::<T>(s, n - 1);
        let rest = sorted_to::<T>(s, n - 1);
        place_is_inside::<T>(rest, s[n - 1], 0);
        inserting_adds_one(rest, place::<T>(rest, s[n - 1], 0), s[n - 1]);
        assert(s.take(n) =~= s.take(n - 1).push(s[n - 1]));
        s.take(n - 1).to_multiset_ensures();
    } else {
        assert(s.take(0) =~= Seq::empty());
    }
}

/// Sorting keeps every item as often as it was there.
pub proof fn sorting_keeps_items<T: Ranked>(s: Seq<T::V>)
    ensures
        sorted::<T>(s).to_multiset() == s.to_multiset(),
        sorted::<T>(s).len() == s.len(),
{
    sorting_keeps_the_first::<T>(s, s.len() as int);
    assert(s.take(s.len() as int) =~= s);
    s.to_multiset_ensures();
    sorted::<T>(s).to_multiset_ensures();
}

/// Whether an order is one that sorting can follow: nothing comes before itself,
/// what comes before an earlier value comes before a later one, and so does what
/// does not come after an earlier one.
pub open spec fn is_order<T: Ranked>() -> bool {
    &&& forall|a: T::V| !#[trigger] T::before(a, a)
    &&& forall|a: T::V, b: T::V, c: T::V|
        #[trigger] T::before(a, b) && #[trigger] T::before(b, c) ==> T::before(a, c)
    &&& forall|a: T::V, b: T::V, c: T::V|
        !#[trigger] T::before(b, a) && !#[trigger] T::before(c, b) ==> !T::before(c, a)
}

proof fn sorting_orders_the_first<T: Ranked>(s: Seq<T::V>, n: int)
    requires
        0 <= n <= s.len(),
        is_order::<T>(),
    ensures
        forall|i: int, j: int|
            0 <= i < j < sorted_to::<T>(s, n).len() ==> !T::before(
                #[trigger] sorted_to::<T>(s, n)[j],
                #[trigger] sorted_to::<T>(s, n)[i],
            ),
    decreases n,
{
    if n > 0 {
        sorting_orders_the_first::<T>(s, n - 1);
        let rest = sorted_to::<T>(s, n - 1);
        let x = s[n - 1];
        let p = place::<T>(rest, x, 0);
        place_is_inside::<T>(rest, x, 0);
        let all = rest.insert(p, x);
        assert forall|i: int, j: int| 0 <= i < j < all.len() implies !T::before(
            #[trigger] all[j],
            #[trigger] all[i],
        ) by {
            if i == p {
                assert(all[j] == rest[j - 1]);
                assert(all[i] == x);
                if T::before(all[j], x) {
                    assert(T::before(x, rest[p]));
                    assert(T::before(rest[j - 1], rest[p]));
                    if j - 1 != p {
                        assert(!T::before(rest[j - 1], rest[p]));
                    }
                }
            } else if j == p {
                assert(all[i] == rest[i]);
            } else {
                let k = if i < p { i } else { i - 1 };
                let l = if j < p { j } else { j - 1 };
                assert(all[i] == rest[k]);
                assert(all[j] == rest[l]);
            }
        }
    }
}

/// Sorting puts no item after one that it comes before.
pub proof fn sorting_orders<T: Ranked>(s: Seq<T::V>)
    requires
        is_order::<T>(),
    ensures
        forall|i: int, j: int|
            0 <= i < j < sorted::<T>(s).len() ==> !T::before(
                #[trigger] sorted::<T>(s)[j],
                #[trigger] sorted::<T>(s)[i],
            ),
{
    sorting_orders_the_first::<T>(s, s.len() as int);
}

} // verus!
