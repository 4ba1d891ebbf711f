//! What reading gives back of what was written.

pub mod anthropic;
pub mod anthropic_streams;
pub mod gemini;
pub mod openai;
pub mod openai_requests;
pub mod openai_streams;
pub mod responses;

use crate::ir::EventV;
use crate::json;
use crate::json::{Build, Tree};
use crate::protocol;
use crate::protocol::sse::FrameV;
use crate::text;
use vstd::prelude::*;

verus! {

/// A field set where there is a value for it.
#[verifier::opaque]
pub open spec fn with_some(m: Seq<(Seq<char>, Tree)>, key: Seq<char>, v: Option<Tree>) -> Seq<(Seq<char>, Tree)> {
    match v {
        Some(v) => json::put(m, key, v),
        None => m,
    }
}

/// What a field shows after one was set where there was a value for it.
pub broadcast proof fn some_shows(m: Seq<(Seq<char>, Tree)>, key: Seq<char>, v: Option<Tree>, other: Seq<char>)
    ensures
        #[trigger] json::field(with_some(m, key, v), other) == if other == key && v is Some {
            v
        } else {
            json::field(m, other)
        },
{
    reveal(with_some);
    if let Some(t) = v {
        json::set_is_found(m, key, t, other);
    }
}

/// The value, where it is written.
pub open spec fn when(c: bool, t: Tree) -> Option<Tree> {
    if c {
        Some(t)
    } else {
        None
    }
}

/// A whole number, where there is one.
pub open spec fn whole(n: Option<u32>) -> Option<Tree> {
    match n {
        Some(n) => Some(json::num(n as int)),
        None => None,
    }
}

/// A number with a fraction, where there is one.
pub open spec fn fraction(f: Option<json::Float>) -> Option<Tree> {
    match f {
        Some(f) => Some(Tree::Float(f)),
        None => None,
    }
}

/// A frame whose payload is read as the document that was written.
pub open spec fn legible(f: FrameV) -> bool {
    &&& text::trimmed(f.data).len() > 0
    &&& text::trimmed(f.data) != "[DONE]"@
    &&& forall|t: Tree|
        f.data == #[trigger] json::rendered(t) ==> json::parsed(f.data) == Ok::<Tree, Seq<char>>(json::canonical(t))
}

pub open spec fn all_legible(frames: Seq<FrameV>) -> bool {
    forall|i: int| 0 <= i < frames.len() ==> legible(#[trigger] frames[i])
}

/// The fields are read as they were written.
pub open spec fn settled(m: Seq<(Seq<char>, Tree)>) -> bool {
    json::canonical(Tree::Obj(m)) == Tree::Obj(m)
}

/// One field more.
pub(crate) proof fn grows(m: Seq<(Seq<char>, Tree)>, key: Seq<char>, v: Tree)
    requires
        settled(m),
        json::canonical(v) == v,
        json::field(m, key) is None,
    ensures
        settled(m.with(key, v)),
        m.with(key, v) == m.push((key, v)),
{
    json::new_fields_stay(m, key, v);
}

pub(crate) proof fn nothing_is_settled()
    ensures
        settled(json::fs()),
{
    reveal_with_fuel(json::canonical_fields, 1);
    assert(json::canonical_fields(json::fs(), 0) =~= json::fs());
}

/// A list of texts is read as it was written.
pub(crate) proof fn texts_come_back(s: Seq<Seq<char>>, i: int)
    requires
        0 <= i <= s.len(),
    ensures
        protocol::openai::texts(json::text_list(s)->Arr_0, i, s.take(i)) == s,
    decreases s.len() - i,
{
    if i < s.len() {
        assert(s.take(i).push(s[i]) =~= s.take(i + 1));
        texts_come_back(s, i + 1);
    } else {
        assert(s.take(i) =~= s);
    }
}

/// The words that events tell, one after the other.
pub open spec fn words(es: Seq<EventV>) -> Seq<char>
    decreases es.len(),
{
    if es.len() == 0 {
        Seq::empty()
    } else {
        match es.last() {
            EventV::TextDelta { text, .. } => words(es.drop_last()) + text,
            _ => words(es.drop_last()),
        }
    }
}

/// The reasoning that events tell, one after the other.
pub open spec fn thoughts(es: Seq<EventV>) -> Seq<char>
    decreases es.len(),
{
    if es.len() == 0 {
        Seq::empty()
    } else {
        match es.last() {
            EventV::ThinkingDelta { text, .. } => thoughts(es.drop_last()) + text,
            _ => thoughts(es.drop_last()),
        }
    }
}

/// What two lists of events tell is what they tell together.
pub(crate) proof fn tellings_join(a: Seq<EventV>, b: Seq<EventV>)
    ensures
        words(a + b) == words(a) + words(b),
        thoughts(a + b) == thoughts(a) + thoughts(b),
    decreases b.len(),
{
    if b.len() == 0 {
        assert(a + b =~= a);
        assert(words(a) + words(b) =~= words(a));
        assert(thoughts(a) + thoughts(b) =~= thoughts(a));
    } else {
        tellings_join(a, b.drop_last());
        assert((a + b).drop_last() =~= a + b.drop_last());
        assert((a + b).last() == b.last());
        assert(words(a + b) =~= words(a) + words(b));
        assert(thoughts(a + b) =~= thoughts(a) + thoughts(b));
    }
}

/// What one event more tells.
pub(crate) proof fn one_telling_more(es: Seq<EventV>, ev: EventV)
    ensures
        words(es.push(ev)) == match ev {
            EventV::TextDelta { text, .. } => words(es) + text,
            _ => words(es),
        },
        thoughts(es.push(ev)) == match ev {
            EventV::ThinkingDelta { text, .. } => thoughts(es) + text,
            _ => thoughts(es),
        },
{
    assert(es.push(ev).drop_last() =~= es);
}

} // verus!
