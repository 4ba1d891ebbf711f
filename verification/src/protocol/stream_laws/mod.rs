//! What holds of whole streams, whatever events they are made of.

pub mod anthropic;
pub mod openai;
pub mod responses;

use crate::ir::EventV;
use crate::json;
use crate::json::{Lookup, Tree};
use crate::protocol::sse::FrameV;
use vstd::prelude::*;

verus! {

/// How many of the frames have that event name.
pub open spec fn count(frames: Seq<FrameV>, name: Seq<char>) -> nat
    decreases frames.len(),
{
    if frames.len() == 0 {
        0
    } else {
        count(frames.drop_last(), name) + if frames.last().event == Some(name) {
            1nat
        } else {
            0
        }
    }
}

pub(crate) broadcast proof fn count_one_more(frames: Seq<FrameV>, f: FrameV, name: Seq<char>)
    ensures
        #[trigger] count(frames.push(f), name) == count(frames, name) + if f.event == Some(name) {
            1nat
        } else {
            0
        },
{
    assert(frames.push(f).drop_last() =~= frames);
}

pub(crate) proof fn count_both(a: Seq<FrameV>, b: Seq<FrameV>, name: Seq<char>)
    ensures
        count(a + b, name) == count(a, name) + count(b, name),
    decreases b.len(),
{
    if b.len() == 0 {
        assert(a + b =~= a);
    } else {
        count_both(a, b.drop_last(), name);
        assert((a + b).drop_last() =~= a + b.drop_last());
    }
}

pub(crate) proof fn count_alike(frames: Seq<FrameV>, event: Seq<char>, name: Seq<char>)
    requires
        forall|i: int| 0 <= i < frames.len() ==> (#[trigger] frames[i]).event == Some(event),
    ensures
        count(frames, name) == if event == name {
            frames.len()
        } else {
            0
        },
    decreases frames.len(),
{
    if frames.len() > 0 {
        let most = frames.drop_last();
        assert forall|i: int| 0 <= i < most.len() implies (#[trigger] most[i]).event == Some(event) by {
            assert(most[i] == frames[i]);
        }
        count_alike(most, event, name);
        assert(frames.last() == frames[frames.len() - 1]);
    }
}

/// A frame as the document that it holds.
pub struct Note {
    pub name: Seq<char>,
    pub doc: Tree,
}

/// The frame with that document. Where it is legible, it is read as the document.
pub open spec fn frame_of(n: Note) -> FrameV {
    FrameV { event: Some(n.name), data: json::rendered(n.doc) }
}

pub open spec fn frames_of(notes: Seq<Note>) -> Seq<FrameV> {
    Seq::new(notes.len(), |i: int| frame_of(notes[i]))
}

/// Whether the document names that index under `key`.
pub open spec fn is_about(n: Note, name: Seq<char>, key: Seq<char>, index: u32) -> bool {
    n.name == name && n.doc.at(key) == Some(json::num(index as int))
}

/// How many frames of that name are about that index.
pub open spec fn about(notes: Seq<Note>, name: Seq<char>, key: Seq<char>, index: u32) -> nat
    decreases notes.len(),
{
    if notes.len() == 0 {
        0
    } else {
        about(notes.drop_last(), name, key, index) + if is_about(notes.last(), name, key, index) {
            1nat
        } else {
            0
        }
    }
}

pub(crate) proof fn about_one_more(notes: Seq<Note>, n: Note, name: Seq<char>, key: Seq<char>, index: u32)
    ensures
        about(notes.push(n), name, key, index) == about(notes, name, key, index) + if is_about(
            n,
            name,
            key,
            index,
        ) {
            1nat
        } else {
            0
        },
{
    assert(notes.push(n).drop_last() =~= notes);
}

pub(crate) proof fn noted_one_more(notes: Seq<Note>, n: Note)
    ensures
        frames_of(notes.push(n)) == frames_of(notes).push(frame_of(n)),
{
    assert(frames_of(notes.push(n)) =~= frames_of(notes).push(frame_of(n)));
}

pub(crate) proof fn about_both(a: Seq<Note>, b: Seq<Note>, name: Seq<char>, key: Seq<char>, index: u32)
    ensures
        about(a + b, name, key, index) == about(a, name, key, index) + about(b, name, key, index),
    decreases b.len(),
{
    if b.len() == 0 {
        assert(a + b =~= a);
    } else {
        about_both(a, b.drop_last(), name, key, index);
        assert((a + b).drop_last() =~= a + b.drop_last());
    }
}

pub(crate) proof fn noted_both(a: Seq<Note>, b: Seq<Note>)
    ensures
        frames_of(a + b) == frames_of(a) + frames_of(b),
{
    assert(frames_of(a + b) =~= frames_of(a) + frames_of(b));
}

/// A stop comes last, if at all.
pub open spec fn stops_last(es: Seq<EventV>) -> bool {
    forall|n: int| 0 <= n < es.len() - 1 ==> !(#[trigger] es[n] is Stop)
}

pub(crate) proof fn most_stops_last(es: Seq<EventV>)
    requires
        stops_last(es),
        es.len() > 0,
    ensures
        stops_last(es.drop_last()),
        es.drop_last().len() > 0 ==> !(es.drop_last().last() is Stop),
{
    let most = es.drop_last();
    assert forall|n: int| 0 <= n < most.len() - 1 implies !(#[trigger] most[n] is Stop) by {
        assert(most[n] == es[n]);
    }
    if most.len() > 0 {
        assert(most.last() == es[most.len() - 1]);
    }
}

} // verus!
