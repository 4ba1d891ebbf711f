//! What the operations are for, said of all inputs at once: how what comes out relates
//! to what went in, in the words of lists and fields rather than of the steps taken.

pub mod accounts;
pub mod anthropic_in;
pub mod anthropic_out;
pub mod anthropic_stream;
pub mod choosing;
pub mod documents;
pub mod endings;
pub mod faults;
pub mod gateway;
pub mod gemini;
pub mod images;
pub mod openai_answers;
pub mod openai_in;
pub mod openai_out;
pub mod openai_stream;
pub mod planning;
pub mod repairing;
pub mod responses_in;
pub mod responses_out;
pub mod responses_stream;
pub mod serving;
pub mod streams_told;
pub mod upstreams;
pub mod words;

use vstd::prelude::*;

verus! {

/// Whether `r` is the first in a list of which something holds; none where there is
/// no such one.
pub open spec fn is_first<A>(s: Seq<A>, p: spec_fn(A) -> bool, r: Option<A>) -> bool {
    match r {
        Some(x) => exists|k: int|
            0 <= k < s.len() && #[trigger] s[k] == x && p(x) && forall|j: int| 0 <= j < k ==> !p(#[trigger] s[j]),
        None => forall|j: int| 0 <= j < s.len() ==> !p(#[trigger] s[j]),
    }
}

/// The items of a list of which something holds, in order.
pub open spec fn those<A>(s: Seq<A>, p: spec_fn(A) -> bool) -> Seq<A> {
    s.filter_map(keeper(p))
}

pub open spec fn keeper<A>(p: spec_fn(A) -> bool) -> spec_fn(A) -> Option<A> {
    |x: A|
        if p(x) {
            Some(x)
        } else {
            None
        }
}

/// Those of a list are in it, and it holds of them.
pub proof fn those_are_there<A>(s: Seq<A>, p: spec_fn(A) -> bool, x: A)
    ensures
        those(s, p).contains(x) <==> s.contains(x) && p(x),
    decreases s.len(),
{
    reveal(Seq::filter_map);
    if s.len() > 0 {
        those_are_there(s.drop_last(), p, x);
        let front = those(s.drop_last(), p);
        assert(s.contains(x) <==> s.drop_last().contains(x) || s.last() == x) by {
            if s.contains(x) {
                let k = choose|k: int| 0 <= k < s.len() && s[k] == x;
                if k < s.len() - 1 {
                    assert(s.drop_last()[k] == x);
                }
            }
            if s.drop_last().contains(x) {
                let k = choose|k: int| 0 <= k < s.len() - 1 && s.drop_last()[k] == x;
                assert(s[k] == x);
            }
        }
        if p(s.last()) {
            let all = front.push(s.last());
            assert(those(s, p) == all);
            assert(all.contains(x) <==> front.contains(x) || s.last() == x) by {
                assert(all[all.len() - 1] == s.last());
                if front.contains(x) {
                    let k = choose|k: int| 0 <= k < front.len() && front[k] == x;
                    assert(all[k] == x);
                }
            }
        }
    }
}

/// What is kept of two lists is kept of them together.
pub(crate) proof fn keeping_joins<A, B>(a: Seq<A>, b: Seq<A>, f: spec_fn(A) -> Option<B>)
    ensures
        (a + b).filter_map(f) == a.filter_map(f) + b.filter_map(f),
    decreases b.len(),
{
    if b.len() == 0 {
        assert(a + b =~= a);
        assert(a.filter_map(f) + b.filter_map(f) =~= a.filter_map(f));
    } else {
        keeping_joins(a, b.drop_last(), f);
        assert((a + b).drop_last() =~= a + b.drop_last());
        assert((a + b).filter_map(f) =~= a.filter_map(f) + b.filter_map(f));
    }
}

/// What two lists unfold to is what they unfold to together.
pub(crate) proof fn unfolding_joins<A, B>(a: Seq<A>, b: Seq<A>, f: spec_fn(A) -> Seq<B>)
    ensures
        (a + b).flat_map(f) == a.flat_map(f) + b.flat_map(f),
{
    assert((a + b).map_values(f) =~= a.map_values(f) + b.map_values(f));
    vstd::seq_lib::lemma_flatten_concat(a.map_values(f), b.map_values(f));
}

pub(crate) proof fn one_unfolds<A, B>(x: A, f: spec_fn(A) -> Seq<B>)
    ensures
        Seq::empty().push(x).flat_map(f) == f(x),
        Seq::<A>::empty().flat_map(f) == Seq::<B>::empty(),
{
    let none = Seq::<A>::empty();
    assert(none.map_values(f) =~= Seq::empty());
    none.lemma_flat_map_push(f, x);
    assert(none.flat_map(f) + f(x) =~= f(x));
}

pub(crate) proof fn unfolding_takes<A, B>(s: Seq<A>, i: int, f: spec_fn(A) -> Seq<B>)
    requires
        0 <= i < s.len(),
    ensures
        s.take(i + 1).flat_map(f) == s.take(i).flat_map(f) + f(s[i]),
{
    s.lemma_flat_map_take_append(f, i);
}

pub(crate) proof fn keeping_takes<A, B>(s: Seq<A>, i: int, f: spec_fn(A) -> Option<B>)
    requires
        0 <= i < s.len(),
    ensures
        s.take(i + 1).filter_map(f) == match f(s[i]) {
            Some(x) => s.take(i).filter_map(f).push(x),
            None => s.take(i).filter_map(f),
        },
{
    s.lemma_filter_map_take_succ(f, i);
    assert(s.take(i + 1).filter_map(f) =~= match f(s[i]) {
        Some(x) => s.take(i).filter_map(f).push(x),
        None => s.take(i).filter_map(f),
    });
}

/// What is kept from the `i`th on is what is kept of it, and then of the rest.
pub(crate) proof fn keeping_first<A, B>(s: Seq<A>, i: int, f: spec_fn(A) -> Option<B>)
    requires
        0 <= i < s.len(),
    ensures
        s.skip(i).filter_map(f) == (match f(s[i]) {
            Some(x) => Seq::empty().push(x),
            None => Seq::empty(),
        }) + s.skip(i + 1).filter_map(f),
{
    let one = Seq::empty().push(s[i]);
    assert(s.skip(i) =~= one + s.skip(i + 1));
    keeping_joins(one, s.skip(i + 1), f);
    reveal_with_fuel(Seq::filter_map, 2);
    assert(one.drop_last() =~= Seq::empty());
    assert(one.filter_map(f) =~= match f(s[i]) {
        Some(x) => Seq::empty().push(x),
        None => Seq::empty(),
    });
}

/// What the `i`th unfolds to, and then the rest.
pub(crate) proof fn unfolding_first<A, B>(s: Seq<A>, i: int, f: spec_fn(A) -> Seq<B>)
    requires
        0 <= i < s.len(),
    ensures
        s.skip(i).flat_map(f) == f(s[i]) + s.skip(i + 1).flat_map(f),
{
    let one = Seq::empty().push(s[i]);
    assert(s.skip(i) =~= one + s.skip(i + 1));
    unfolding_joins(one, s.skip(i + 1), f);
    one_unfolds(s[i], f);
}

pub(crate) proof fn nothing_is_left<A, B>(s: Seq<A>, f: spec_fn(A) -> Option<B>, g: spec_fn(A) -> Seq<B>)
    ensures
        s.skip(s.len() as int).filter_map(f) == Seq::<B>::empty(),
        s.skip(s.len() as int).flat_map(g) == Seq::<B>::empty(),
{
    let none = s.skip(s.len() as int);
    assert(none =~= Seq::empty());
    assert(none.map_values(g) =~= Seq::empty());
}

} // verus!
