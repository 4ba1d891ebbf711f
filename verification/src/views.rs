//! Sequences of values, each seen through its view.

use vstd::prelude::*;

verus! {

/// Every item of `s`, seen through its view.
pub open spec fn of<T: View>(s: Seq<T>) -> Seq<T::V> {
    Seq::new(s.len(), |i: int| s[i]@)
}

/// What an optional value says.
pub open spec fn opt<T: View>(o: Option<T>) -> Option<T::V> {
    match o {
        Some(x) => Some(x@),
        None => None,
    }
}

/// What an optional reference says.
pub open spec fn opt_ref<T: View>(o: Option<&T>) -> Option<T::V> {
    match o {
        Some(x) => Some(x@),
        None => None,
    }
}

/// What an optional text says.
pub open spec fn opt_str(o: Option<&str>) -> Option<Seq<char>> {
    match o {
        Some(x) => Some(x@),
        None => None,
    }
}

pub broadcast proof fn views_push<T: View>(s: Seq<T>, x: T)
    ensures
        #[trigger] of(s.push(x)) == of(s).push(x@),
{
    assert(of(s.push(x)) =~= of(s).push(x@));
}

pub broadcast proof fn views_empty<T: View>(s: Seq<T>)
    requires
        s.len() == 0,
    ensures
        #[trigger] of(s) == Seq::<T::V>::empty(),
{
    assert(of(s) =~= Seq::<T::V>::empty());
}

pub broadcast proof fn views_take<T: View>(s: Seq<T>, n: int)
    requires
        0 <= n <= s.len(),
    ensures
        #[trigger] of(s.take(n)) == of(s).take(n),
{
    assert(of(s.take(n)) =~= of(s).take(n));
}

pub broadcast proof fn views_add<T: View>(s: Seq<T>, t: Seq<T>)
    ensures
        #[trigger] of(s + t) == of(s) + of(t),
{
    assert(of(s + t) =~= of(s) + of(t));
}

/// Taking one item more adds that item at the end.
pub broadcast proof fn take_one_more<T>(s: Seq<T>, n: int)
    requires
        0 <= n < s.len(),
    ensures
        #[trigger] s.take(n + 1) == s.take(n).push(s[n]),
        s.take(n + 1).drop_last() == s.take(n),
        s.take(n + 1).last() == s[n],
{
    assert(s.take(n + 1) =~= s.take(n).push(s[n]));
    assert(s.take(n + 1).drop_last() =~= s.take(n));
}

pub broadcast proof fn take_all<T>(s: Seq<T>, n: int)
    requires
        n == s.len(),
    ensures
        #[trigger] s.take(n) == s,
{
    assert(s.take(n) =~= s);
}

pub broadcast group group_views {
    views_push,
    views_empty,
    views_take,
    views_add,
}

} // verus!
