//! What holds of whole Anthropic streams.

use crate::ir::EventV;
use crate::json;
use crate::json::{Build, Lookup, Tree};
use crate::protocol::anthropic;
use crate::protocol::anthropic::{EncoderV, OpenKind, Written};
use crate::protocol::round_trips::anthropic_streams;
use crate::protocol::sse::FrameV;
use crate::protocol::stream_laws;
use crate::protocol::stream_laws::Note;
use vstd::prelude::*;

verus! {

proof fn anthropic_names()
    ensures
        "message_start"@ != "content_block_start"@,
        "message_start"@ != "content_block_stop"@,
        "message_start"@ != "content_block_delta"@,
        "message_start"@ != "message_delta"@,
        "message_start"@ != "message_stop"@,
        "message_start"@ != "ping"@,
        "content_block_start"@ != "content_block_stop"@,
        "content_block_start"@ != "content_block_delta"@,
        "content_block_start"@ != "message_delta"@,
        "content_block_start"@ != "message_stop"@,
        "content_block_start"@ != "ping"@,
        "content_block_stop"@ != "content_block_delta"@,
        "content_block_stop"@ != "message_delta"@,
        "content_block_stop"@ != "message_stop"@,
        "content_block_stop"@ != "ping"@,
        "message_stop"@ != "content_block_delta"@,
        "message_stop"@ != "message_delta"@,
        "message_stop"@ != "ping"@,
{
    reveal_strlit("message_start");
    reveal_strlit("content_block_start");
    reveal_strlit("content_block_stop");
    reveal_strlit("content_block_delta");
    reveal_strlit("message_delta");
    reveal_strlit("message_stop");
    reveal_strlit("ping");
    assert("message_start"@.len() == 13 && "message_start"@[8] == 's');
    assert("message_delta"@.len() == 13 && "message_delta"@[8] == 'd');
    assert("content_block_start"@.len() == 19 && "content_block_start"@[14] == 's');
    assert("content_block_delta"@.len() == 19 && "content_block_delta"@[14] == 'd');
    assert("content_block_stop"@.len() == 18);
    assert("message_stop"@.len() == 12);
    assert("ping"@.len() == 4);
}

/// What was put out so far fits where the encoder stands.
pub open spec fn anthropic_fits(w: Written) -> bool {
    &&& stream_laws::count(w.out, "message_start"@) == if w.e.started {
        1nat
    } else {
        0
    }
    &&& stream_laws::count(w.out, "content_block_start"@) == stream_laws::count(w.out, "content_block_stop"@)
        + w.e.open.len()
}

/// One event more, behind what was put out before.
proof fn anthropic_event_fits(before: Written, ev: EventV)
    requires
        anthropic_fits(before),
    ensures
        ({
            let x = anthropic::encoded_event(before.e, ev);
            let w = Written { e: x.e, out: before.out + x.out };
            &&& anthropic_fits(w)
            &&& stream_laws::count(w.out, "message_stop"@) == stream_laws::count(before.out, "message_stop"@)
                + if ev is Stop {
                1nat
            } else {
                0
            }
            &&& x.e.finished == (before.e.finished || ev is Stop)
            &&& ev is Stop ==> x.e.open.len() == 0 && x.out.len() > 0 && x.out.last().event == Some("message_stop"@)
        }),
{
    broadcast use stream_laws::count_one_more;

    anthropic_names();
    let x = anthropic::encoded_event(before.e, ev);
    stream_laws::count_both(before.out, x.out, "message_start"@);
    stream_laws::count_both(before.out, x.out, "content_block_start"@);
    stream_laws::count_both(before.out, x.out, "content_block_stop"@);
    stream_laws::count_both(before.out, x.out, "message_stop"@);
    anthropic_frames_fit(before.e, ev);
}

/// What an event adds to the counts.
proof fn anthropic_frames_fit(e: EncoderV, ev: EventV)
    ensures
        ({
            let x = anthropic::encoded_event(e, ev);
            &&& stream_laws::count(x.out, "message_start"@) + if e.started {
                1nat
            } else {
                0
            } == if x.e.started {
                1nat
            } else {
                0
            }
            &&& stream_laws::count(x.out, "content_block_start"@) + e.open.len() == stream_laws::count(
                x.out,
                "content_block_stop"@,
            ) + x.e.open.len()
            &&& stream_laws::count(x.out, "message_stop"@) == if ev is Stop {
                1nat
            } else {
                0
            }
            &&& x.e.finished == (e.finished || ev is Stop)
            &&& ev is Stop ==> x.e.open.len() == 0 && x.out.len() > 0 && x.out.last().event == Some("message_stop"@)
        }),
{
    broadcast use stream_laws::count_one_more;

    anthropic_names();
    let none = Seq::<FrameV>::empty();
    assert(stream_laws::count(none, "message_start"@) == 0);
    assert(stream_laws::count(none, "content_block_start"@) == 0);
    assert(stream_laws::count(none, "content_block_stop"@) == 0);
    assert(stream_laws::count(none, "message_stop"@) == 0);
    match ev {
        EventV::TextDelta { index, .. } => {
            anthropic::open_at_bounds(e.open, index, 0);
        },
        EventV::ThinkingDelta { index, .. } => {
            anthropic::open_at_bounds(e.open, index, 0);
        },
        EventV::ThinkingSignature { index, .. } => {
            anthropic::open_at_bounds(e.open, index, 0);
        },
        EventV::ToolUseStart { index, .. } => {
            anthropic::open_at_bounds(e.open, index, 0);
        },
        EventV::BlockStop { index } => {
            anthropic::open_at_bounds(e.open, index, 0);
        },
        EventV::Stop { .. } => {
            let w = Written { e, out: none }.ensure_started();
            let stops = Seq::new(w.e.open.len(), |i: int| anthropic::stop_frame(w.e.open[i].0));
            stream_laws::count_both(w.out, stops, "message_start"@);
            stream_laws::count_both(w.out, stops, "content_block_start"@);
            stream_laws::count_both(w.out, stops, "content_block_stop"@);
            stream_laws::count_both(w.out, stops, "message_stop"@);
            stream_laws::count_alike(stops, "content_block_stop"@, "message_start"@);
            stream_laws::count_alike(stops, "content_block_stop"@, "content_block_start"@);
            stream_laws::count_alike(stops, "content_block_stop"@, "content_block_stop"@);
            stream_laws::count_alike(stops, "content_block_stop"@, "message_stop"@);
        },
        _ => {},
    }
}

proof fn anthropic_counts_fit(model: Seq<char>, id: Seq<char>, es: Seq<EventV>)
    ensures
        anthropic_fits(anthropic_streams::written(anthropic::fresh_encoder(model, id), es)),
    decreases es.len(),
{
    if es.len() > 0 {
        let e = anthropic::fresh_encoder(model, id);
        anthropic_counts_fit(model, id, es.drop_last());
        anthropic_event_fits(anthropic_streams::written(e, es.drop_last()), es.last());
    }
}

proof fn anthropic_stops(model: Seq<char>, id: Seq<char>, es: Seq<EventV>)
    requires
        stream_laws::stops_last(es),
    ensures
        ({
            let w = anthropic_streams::written(anthropic::fresh_encoder(model, id), es);
            let stopped = es.len() > 0 && es.last() is Stop;
            &&& w.e.finished == stopped
            &&& stream_laws::count(w.out, "message_stop"@) == if stopped {
                1nat
            } else {
                0
            }
            &&& stopped ==> w.e.open.len() == 0 && w.e.started && w.out.len() > 0 && w.out.last().event == Some(
                "message_stop"@,
            )
        }),
    decreases es.len(),
{
    if es.len() > 0 {
        let e = anthropic::fresh_encoder(model, id);
        stream_laws::most_stops_last(es);
        anthropic_stops(model, id, es.drop_last());
        anthropic_counts_fit(model, id, es.drop_last());
        anthropic_event_fits(anthropic_streams::written(e, es.drop_last()), es.last());
    }
}

// ------------------------------------------------------------------ each block

/// Whether that block is open.
pub open spec fn has_open(open: Seq<(u32, OpenKind)>, index: u32) -> bool {
    exists|j: int| 0 <= j < open.len() && (#[trigger] open[j]).0 == index
}

/// How often a block of that index was started.
pub open spec fn started(notes: Seq<Note>, index: u32) -> nat {
    stream_laws::about(notes, "content_block_start"@, "index"@, index)
}

/// How often a block of that index was stopped.
pub open spec fn stopped(notes: Seq<Note>, index: u32) -> nat {
    stream_laws::about(notes, "content_block_stop"@, "index"@, index)
}

spec fn one_if(b: bool) -> nat {
    if b {
        1
    } else {
        0
    }
}

/// The block was stopped as often as it was started, but for once if it is open.
pub open spec fn block_fits(open: Seq<(u32, OpenKind)>, notes: Seq<Note>, index: u32) -> bool {
    started(notes, index) == stopped(notes, index) + if has_open(open, index) {
        1nat
    } else {
        0
    }
}

/// The same of what one event adds, where `before` was open ahead of it.
spec fn step_fits(before: Seq<(u32, OpenKind)>, after: Seq<(u32, OpenKind)>, notes: Seq<Note>, index: u32) -> bool {
    started(notes, index) + one_if(has_open(before, index)) == stopped(notes, index) + one_if(has_open(after, index))
}

spec fn stop_note(index: u32) -> Note {
    Note {
        name: "content_block_stop"@,
        doc: Tree::Obj(anthropic::type_only("content_block_stop"@).with("index"@, json::num(index as int))),
    }
}

spec fn start_note(index: u32, block: Tree) -> Note {
    Note { name: "content_block_start"@, doc: anthropic::start_data(index, block) }
}

proof fn notes_are_about(index: u32, block: Tree)
    ensures
        stream_laws::frame_of(stop_note(index)) == anthropic::stop_frame(index),
        stream_laws::frame_of(start_note(index, block)) == anthropic::named_frame(
            "content_block_start"@,
            anthropic::start_data(index, block),
        ),
        stop_note(index).doc.at("index"@) == Some(json::num(index as int)),
        start_note(index, block).doc.at("index"@) == Some(json::num(index as int)),
{
    reveal_strlit("type");
    reveal_strlit("index");
    assert("type"@.len() == 4 && "index"@.len() == 5);
    reveal_with_fuel(json::find_from, 4);
}

/// What a frame adds to the counts.
proof fn counts_grow(notes: Seq<Note>, n: Note, index: u32)
    ensures
        n.name != "content_block_start"@ ==> started(notes.push(n), index) == started(notes, index),
        n.name != "content_block_stop"@ ==> stopped(notes.push(n), index) == stopped(notes, index),
        forall|i: u32, b: Tree|
            n == #[trigger] start_note(i, b) ==> started(notes.push(n), index) == started(notes, index) + one_if(
                i == index,
            ),
        forall|i: u32|
            n == #[trigger] stop_note(i) ==> stopped(notes.push(n), index) == stopped(notes, index) + one_if(
                i == index,
            ),
{
    stream_laws::about_one_more(notes, n, "content_block_start"@, "index"@, index);
    stream_laws::about_one_more(notes, n, "content_block_stop"@, "index"@, index);
    assert forall|i: u32, b: Tree| n == #[trigger] start_note(i, b) implies started(notes.push(n), index) == started(
        notes,
        index,
    ) + one_if(i == index) by {
        notes_are_about(i, b);
    }
    assert forall|i: u32| n == #[trigger] stop_note(i) implies stopped(notes.push(n), index) == stopped(notes, index)
        + one_if(i == index) by {
        notes_are_about(i, Tree::Null);
    }
}

proof fn removal_closes(open: Seq<(u32, OpenKind)>, at: int, index: u32)
    requires
        anthropic::open_once(open),
        0 <= at < open.len(),
    ensures
        has_open(open.remove(at), index) == (has_open(open, index) && index != open[at].0),
        has_open(open, open[at].0),
        anthropic::open_once(open.remove(at)),
{
    let less = open.remove(at);
    if has_open(less, index) {
        let j = choose|j: int| 0 <= j < less.len() && (#[trigger] less[j]).0 == index;
        let l = if j < at {
            j
        } else {
            j + 1
        };
        assert(open[l] == less[j]);
    }
    if has_open(open, index) && index != open[at].0 {
        let j = choose|j: int| 0 <= j < open.len() && (#[trigger] open[j]).0 == index;
        let l = if j < at {
            j
        } else {
            j - 1
        };
        assert(less[l] == open[j]);
    }
}

proof fn addition_opens(open: Seq<(u32, OpenKind)>, n: (u32, OpenKind), index: u32)
    requires
        anthropic::open_once(open),
        !has_open(open, n.0),
    ensures
        has_open(open.push(n), index) == (has_open(open, index) || index == n.0),
        anthropic::open_once(open.push(n)),
{
    let more = open.push(n);
    assert(more[open.len() as int] == n);
    if has_open(open, index) {
        let j = choose|j: int| 0 <= j < open.len() && (#[trigger] open[j]).0 == index;
        assert(more[j] == open[j]);
    }
    if has_open(more, index) && index != n.0 {
        let j = choose|j: int| 0 <= j < more.len() && (#[trigger] more[j]).0 == index;
        assert(open[j] == more[j]);
    }
}

proof fn position_tells(open: Seq<(u32, OpenKind)>, index: u32)
    ensures
        has_open(open, index) == (0 <= anthropic::open_at(open, index, 0) < open.len()),
        has_open(open, index) ==> open[anthropic::open_at(open, index, 0)].0 == index,
{
    anthropic::open_at_bounds(open, index, 0);
    if has_open(open, index) {
        let j = choose|j: int| 0 <= j < open.len() && (#[trigger] open[j]).0 == index;
        assert(open[j].0 == index);
    }
}

/// What was put out, and how it fits what was open `before` and what is open now.
spec fn noted(w: Written, notes: Seq<Note>, before: Seq<(u32, OpenKind)>) -> bool {
    &&& w.out == stream_laws::frames_of(notes)
    &&& anthropic::open_once(w.e.open)
    &&& w.e.open.len() > 0 ==> w.e.started
    &&& forall|i: u32| #[trigger] step_fits(before, w.e.open, notes, i)
}

proof fn nothing_is_noted(e: EncoderV)
    requires
        anthropic::open_once(e.open),
        e.open.len() > 0 ==> e.started,
    ensures
        noted(Written { e, out: Seq::empty() }, Seq::empty(), e.open),
{
    assert(stream_laws::frames_of(Seq::empty()) =~= Seq::empty());
}

/// A frame that neither starts nor stops a block.
proof fn other_is_noted(w: Written, notes: Seq<Note>, before: Seq<(u32, OpenKind)>, name: Seq<char>, doc: Tree)
    requires
        noted(w, notes, before),
        name != "content_block_start"@,
        name != "content_block_stop"@,
    ensures
        noted(w.emit(anthropic::named_frame(name, doc)), notes.push(Note { name, doc }), before),
{
    let n = Note { name, doc };
    stream_laws::noted_one_more(notes, n);
    assert forall|i: u32| #[trigger] step_fits(before, w.e.open, notes.push(n), i) by {
        assert(step_fits(before, w.e.open, notes, i));
        counts_grow(notes, n, i);
    }
}

proof fn begin_is_noted(w: Written, notes: Seq<Note>, before: Seq<(u32, OpenKind)>) -> (r: Seq<Note>)
    requires
        noted(w, notes, before),
    ensures
        noted(w.ensure_started(), r, before),
        w.ensure_started().e.open == w.e.open,
        w.ensure_started().e.started,
{
    if w.e.started {
        notes
    } else {
        anthropic_names();
        let x = Written { e: EncoderV { started: true, ..w.e }, ..w };
        let f = w.ensure_started().out.last();
        let doc = choose|doc: Tree| f == #[trigger] anthropic::named_frame("message_start"@, doc);
        assert(w.ensure_started() == x.emit(f));
        other_is_noted(x, notes, before, "message_start"@, doc);
        notes.push(Note { name: "message_start"@, doc })
    }
}

/// An open block is stopped.
proof fn stop_is_noted(w: Written, notes: Seq<Note>, before: Seq<(u32, OpenKind)>, at: int)
    requires
        noted(w, notes, before),
        0 <= at < w.e.open.len(),
    ensures
        ({
            let x = Written { e: EncoderV { open: w.e.open.remove(at), ..w.e }, ..w };
            noted(x.emit(anthropic::stop_frame(w.e.open[at].0)), notes.push(stop_note(w.e.open[at].0)), before)
        }),
{
    anthropic_names();
    let n = stop_note(w.e.open[at].0);
    let open = w.e.open.remove(at);
    notes_are_about(w.e.open[at].0, Tree::Null);
    stream_laws::noted_one_more(notes, n);
    removal_closes(w.e.open, at, 0);
    assert forall|i: u32| #[trigger] step_fits(before, open, notes.push(n), i) by {
        assert(step_fits(before, w.e.open, notes, i));
        counts_grow(notes, n, i);
        removal_closes(w.e.open, at, i);
    }
}

/// A block is started.
proof fn start_is_noted(
    w: Written,
    notes: Seq<Note>,
    before: Seq<(u32, OpenKind)>,
    index: u32,
    kind: OpenKind,
    block: Tree,
)
    requires
        noted(w, notes, before),
        w.e.started,
        !has_open(w.e.open, index),
    ensures
        ({
            let x = Written { e: EncoderV { open: w.e.open.push((index, kind)), ..w.e }, ..w };
            noted(
                x.emit(anthropic::named_frame("content_block_start"@, anthropic::start_data(index, block))),
                notes.push(start_note(index, block)),
                before,
            )
        }),
{
    anthropic_names();
    let n = start_note(index, block);
    let open = w.e.open.push((index, kind));
    notes_are_about(index, block);
    stream_laws::noted_one_more(notes, n);
    addition_opens(w.e.open, (index, kind), 0);
    assert forall|i: u32| #[trigger] step_fits(before, open, notes.push(n), i) by {
        assert(step_fits(before, w.e.open, notes, i));
        counts_grow(notes, n, i);
        addition_opens(w.e.open, (index, kind), i);
    }
}

proof fn block_is_noted(
    w: Written,
    notes: Seq<Note>,
    before: Seq<(u32, OpenKind)>,
    index: u32,
    kind: OpenKind,
    block: Tree,
) -> (r: Seq<Note>)
    requires
        noted(w, notes, before),
    ensures
        noted(w.ensure_block(index, kind, block), r, before),
{
    let b = begin_is_noted(w, notes, before);
    let x = w.ensure_started();
    let at = anthropic::open_at(x.e.open, index, 0);
    position_tells(x.e.open, index);
    if 0 <= at < x.e.open.len() {
        if x.e.open[at].1 == kind {
            b
        } else {
            let y = Written { e: EncoderV { open: x.e.open.remove(at), ..x.e }, ..x }.emit(
                anthropic::stop_frame(index),
            );
            stop_is_noted(x, b, before, at);
            removal_closes(x.e.open, at, index);
            start_is_noted(y, b.push(stop_note(index)), before, index, kind, block);
            b.push(stop_note(index)).push(start_note(index, block))
        }
    } else {
        start_is_noted(x, b, before, index, kind, block);
        b.push(start_note(index, block))
    }
}

/// All open blocks are stopped, from the last one behind.
proof fn stops_are_noted(w: Written, notes: Seq<Note>, before: Seq<(u32, OpenKind)>) -> (r: Seq<Note>)
    requires
        noted(w, notes, before),
    ensures
        noted(w.close_all(), r, before),
        w.close_all().e.started == w.e.started,
    decreases w.e.open.len(),
{
    let open = w.e.open;
    if open.len() == 0 {
        assert(w.close_all().out =~= w.out);
        assert(w.close_all().e.open =~= w.e.open);
        notes
    } else {
        let x = Written { e: EncoderV { open: open.remove(0), ..w.e }, ..w }.emit(anthropic::stop_frame(open[0].0));
        stop_is_noted(w, notes, before, 0);
        let r = stops_are_noted(x, notes.push(stop_note(open[0].0)), before);
        assert(x.close_all().out =~= w.close_all().out);
        r
    }
}

proof fn end_is_noted(w: Written, notes: Seq<Note>, before: Seq<(u32, OpenKind)>, reason: Tree, sequence: Tree) -> (r:
    Seq<Note>)
    requires
        noted(w, notes, before),
    ensures
        noted(w.end(reason, sequence), r, before),
{
    anthropic_names();
    let f = w.end(reason, sequence).out[w.out.len() as int];
    let doc = choose|doc: Tree| f == #[trigger] anthropic::named_frame("message_delta"@, doc);
    other_is_noted(w, notes, before, "message_delta"@, doc);
    let x = w.emit(f);
    let last = Tree::Obj(anthropic::type_only("message_stop"@));
    let y = x.emit(anthropic::named_frame("message_stop"@, last));
    other_is_noted(x, notes.push(Note { name: "message_delta"@, doc }), before, "message_stop"@, last);
    assert(w.end(reason, sequence) == (Written { e: EncoderV { finished: true, ..y.e }, ..y }));
    notes.push(Note { name: "message_delta"@, doc }).push(Note { name: "message_stop"@, doc: last })
}

proof fn delta_is_noted(
    w: Written,
    notes: Seq<Note>,
    before: Seq<(u32, OpenKind)>,
    index: u32,
    kind: Seq<char>,
    key: Seq<char>,
    v: Seq<char>,
) -> (r: Seq<Note>)
    requires
        noted(w, notes, before),
    ensures
        noted(w.emit(anthropic::delta_frame(index, kind, key, v)), r, before),
{
    anthropic_names();
    let f = anthropic::delta_frame(index, kind, key, v);
    let doc = choose|doc: Tree| f == #[trigger] anthropic::named_frame("content_block_delta"@, doc);
    other_is_noted(w, notes, before, "content_block_delta"@, doc);
    notes.push(Note { name: "content_block_delta"@, doc })
}

/// What one event puts out.
proof fn event_is_noted(e: EncoderV, ev: EventV) -> (r: Seq<Note>)
    requires
        anthropic::open_once(e.open),
        e.open.len() > 0 ==> e.started,
    ensures
        noted(anthropic::encoded_event(e, ev), r, e.open),
{
    anthropic_names();
    let w = Written { e, out: Seq::empty() };
    let none = Seq::<Note>::empty();
    nothing_is_noted(e);
    match ev {
        EventV::Start { id, model, usage } => {
            let x = Written { e: EncoderV { id, model, usage, ..e }, ..w };
            nothing_is_noted(x.e);
            begin_is_noted(x, none, e.open)
        },
        EventV::TextDelta { index, text } => {
            let b = block_is_noted(w, none, e.open, index, OpenKind::Text, anthropic::text_start());
            let x = w.ensure_block(index, OpenKind::Text, anthropic::text_start());
            delta_is_noted(x, b, e.open, index, "text_delta"@, "text"@, text)
        },
        EventV::ThinkingDelta { index, text } => {
            let b = block_is_noted(w, none, e.open, index, OpenKind::Thinking, anthropic::thinking_start());
            let x = w.ensure_block(index, OpenKind::Thinking, anthropic::thinking_start());
            delta_is_noted(x, b, e.open, index, "thinking_delta"@, "thinking"@, text)
        },
        EventV::ThinkingSignature { index, signature } => {
            let b = block_is_noted(w, none, e.open, index, OpenKind::Thinking, anthropic::thinking_start());
            let x = w.ensure_block(index, OpenKind::Thinking, anthropic::thinking_start());
            delta_is_noted(x, b, e.open, index, "signature_delta"@, "signature"@, signature)
        },
        EventV::RedactedThinking { index, data } => {
            let b = begin_is_noted(w, none, e.open);
            let x = w.ensure_started();
            let block = Tree::Obj(anthropic::type_only("redacted_thinking"@).with("data"@, json::st(data)));
            let y = anthropic::encoded_event(e, ev);
            let r = b.push(start_note(index, block)).push(stop_note(index));
            notes_are_about(index, block);
            stream_laws::noted_one_more(b, start_note(index, block));
            stream_laws::noted_one_more(b.push(start_note(index, block)), stop_note(index));
            assert forall|i: u32| #[trigger] step_fits(e.open, y.e.open, r, i) by {
                assert(step_fits(e.open, x.e.open, b, i));
                counts_grow(b, start_note(index, block), i);
                counts_grow(b.push(start_note(index, block)), stop_note(index), i);
            }
            r
        },
        EventV::ToolUseStart { index, id, name } => {
            let block = Tree::Obj(
                anthropic::type_only("tool_use"@).with("id"@, json::st(id)).with("name"@, json::st(name)).with(
                    "input"@,
                    Tree::Obj(json::fs()),
                ),
            );
            block_is_noted(w, none, e.open, index, OpenKind::ToolUse, block)
        },
        EventV::ToolUseDelta { index, partial_json } => {
            let b = begin_is_noted(w, none, e.open);
            delta_is_noted(w.ensure_started(), b, e.open, index, "input_json_delta"@, "partial_json"@, partial_json)
        },
        EventV::BlockStop { index } => {
            position_tells(e.open, index);
            let at = anthropic::open_at(e.open, index, 0);
            if 0 <= at < e.open.len() {
                stop_is_noted(w, none, e.open, at);
                none.push(stop_note(index))
            } else {
                none
            }
        },
        EventV::Stop { stop_reason, stop_sequence, usage } => {
            let b = begin_is_noted(w, none, e.open);
            let c = stops_are_noted(w.ensure_started(), b, e.open);
            let x = w.ensure_started().close_all();
            let y = Written { e: EncoderV { usage, ..x.e }, ..x };
            end_is_noted(
                y,
                c,
                e.open,
                anthropic::text_or_null(anthropic::stop_reason_text(stop_reason)),
                anthropic::text_or_null(stop_sequence),
            )
        },
        EventV::Ping => {
            let doc = Tree::Obj(anthropic::type_only("ping"@));
            other_is_noted(w, none, e.open, "ping"@, doc);
            none.push(Note { name: "ping"@, doc })
        },
    }
}

/// Pings only come before the start of the message.
pub open spec fn pings_come_first(out: Seq<FrameV>, started: bool) -> bool {
    if started {
        exists|n: int|
            0 <= n < out.len() && (#[trigger] out[n]).event == Some("message_start"@) && only_pings(out.take(n))
    } else {
        only_pings(out)
    }
}

pub open spec fn only_pings(out: Seq<FrameV>) -> bool {
    forall|j: int| 0 <= j < out.len() ==> (#[trigger] out[j]).event == Some("ping"@)
}

proof fn beginnings_join(a: Seq<FrameV>, b: Seq<FrameV>, a_started: bool, b_started: bool)
    requires
        pings_come_first(a, a_started),
        !a_started ==> pings_come_first(b, b_started),
    ensures
        pings_come_first(a + b, a_started || b_started),
{
    if a_started {
        let n = choose|n: int|
            0 <= n < a.len() && (#[trigger] a[n]).event == Some("message_start"@) && only_pings(a.take(n));
        assert((a + b)[n] == a[n]);
        assert((a + b).take(n) =~= a.take(n));
    } else if b_started {
        let n = choose|n: int|
            0 <= n < b.len() && (#[trigger] b[n]).event == Some("message_start"@) && only_pings(b.take(n));
        let m = a.len() + n;
        assert((a + b)[m] == b[n]);
        assert forall|j: int| 0 <= j < m implies (#[trigger] (a + b).take(m)[j]).event == Some("ping"@) by {
            if j < a.len() {
                assert((a + b).take(m)[j] == a[j]);
            } else {
                assert((a + b).take(m)[j] == b.take(n)[j - a.len()]);
            }
        }
    } else {
        assert forall|j: int| 0 <= j < (a + b).len() implies (#[trigger] (a + b)[j]).event == Some("ping"@) by {
            if j < a.len() {
                assert((a + b)[j] == a[j]);
            } else {
                assert((a + b)[j] == b[j - a.len()]);
            }
        }
    }
}

/// The first event that puts out more than a ping starts the message.
proof fn event_begins(e: EncoderV, ev: EventV)
    requires
        !e.started,
        e.open.len() == 0,
    ensures
        pings_come_first(anthropic::encoded_event(e, ev).out, anthropic::encoded_event(e, ev).e.started),
        pings_come_first(anthropic::encoded_finish(EncoderV { finished: false, ..e }).out, true),
{
    let x = anthropic::encoded_event(e, ev);
    if x.e.started {
        assert(x.out[0].event == Some("message_start"@));
        assert(only_pings(x.out.take(0)));
    }
    let f = anthropic::encoded_finish(EncoderV { finished: false, ..e }).out;
    assert(f[0].event == Some("message_start"@));
    assert(only_pings(f.take(0)));
}

/// Every block was stopped as often as it was started, but for those that are open.
pub open spec fn blocks_fit(open: Seq<(u32, OpenKind)>, notes: Seq<Note>) -> bool {
    forall|i: u32| #[trigger] block_fits(open, notes, i)
}

/// One batch of frames more.
proof fn batch_fits(open: Seq<(u32, OpenKind)>, notes: Seq<Note>, w: Written, more: Seq<Note>)
    requires
        blocks_fit(open, notes),
        noted(w, more, open),
    ensures
        blocks_fit(w.e.open, notes + more),
        stream_laws::frames_of(notes + more) == stream_laws::frames_of(notes) + w.out,
{
    stream_laws::noted_both(notes, more);
    assert forall|i: u32| #[trigger] block_fits(w.e.open, notes + more, i) by {
        assert(block_fits(open, notes, i));
        assert(step_fits(open, w.e.open, more, i));
        stream_laws::about_both(notes, more, "content_block_start"@, "index"@, i);
        stream_laws::about_both(notes, more, "content_block_stop"@, "index"@, i);
    }
}

proof fn stream_is_noted(model: Seq<char>, id: Seq<char>, es: Seq<EventV>) -> (r: Seq<Note>)
    ensures
        ({
            let w = anthropic_streams::written(anthropic::fresh_encoder(model, id), es);
            &&& w.out == stream_laws::frames_of(r)
            &&& anthropic::open_once(w.e.open)
            &&& w.e.open.len() > 0 ==> w.e.started
            &&& blocks_fit(w.e.open, r)
            &&& pings_come_first(w.out, w.e.started)
        }),
    decreases es.len(),
{
    let e = anthropic::fresh_encoder(model, id);
    if es.len() == 0 {
        assert(stream_laws::frames_of(Seq::empty()) =~= Seq::empty());
        Seq::empty()
    } else {
        let notes = stream_is_noted(model, id, es.drop_last());
        let w = anthropic_streams::written(e, es.drop_last());
        let x = anthropic::encoded_event(w.e, es.last());
        let more = event_is_noted(w.e, es.last());
        batch_fits(w.e.open, notes, x, more);
        if !w.e.started {
            event_begins(w.e, es.last());
        }
        beginnings_join(w.out, x.out, w.e.started, x.e.started);
        anthropic_frames_fit(w.e, es.last());
        notes + more
    }
}

/// At every moment of an Anthropic stream at most one message has started, with nothing
/// but pings before it, and every block was stopped as often as it was started, but for
/// once if it is open. No block is open twice.
pub proof fn anthropic_blocks_balance(model: Seq<char>, id: Seq<char>, es: Seq<EventV>)
    ensures
        ({
            let w = anthropic_streams::written(anthropic::fresh_encoder(model, id), es);
            &&& anthropic_fits(w)
            &&& pings_come_first(w.out, w.e.started)
            &&& anthropic::open_once(w.e.open)
            &&& exists|notes: Seq<Note>|
                w.out == #[trigger] stream_laws::frames_of(notes) && blocks_fit(w.e.open, notes)
        }),
{
    let notes = stream_is_noted(model, id, es);
    anthropic_counts_fit(model, id, es);
    let w = anthropic_streams::written(anthropic::fresh_encoder(model, id), es);
    assert(w.out == stream_laws::frames_of(notes) && blocks_fit(w.e.open, notes));
}

/// A piece of a block that is open as its kind starts no second block: it is told in one
/// frame.
pub proof fn open_blocks_go_on(model: Seq<char>, id: Seq<char>, es: Seq<EventV>, ev: EventV)
    requires
        ({
            let e = anthropic_streams::written(anthropic::fresh_encoder(model, id), es).e;
            match ev {
                EventV::TextDelta { index, .. } => anthropic_streams::is_open_as(e, index, OpenKind::Text),
                EventV::ThinkingDelta { index, .. } => anthropic_streams::is_open_as(e, index, OpenKind::Thinking),
                EventV::ThinkingSignature { index, .. } => anthropic_streams::is_open_as(e, index, OpenKind::Thinking),
                EventV::ToolUseDelta { index, .. } => anthropic_streams::is_open_as(e, index, OpenKind::ToolUse),
                _ => false,
            }
        }),
    ensures
        ({
            let e = anthropic_streams::written(anthropic::fresh_encoder(model, id), es).e;
            let x = anthropic::encoded_event(e, ev);
            &&& x.e.open == e.open
            &&& x.out.len() == 1
            &&& x.out[0].event == Some("content_block_delta"@)
        }),
{
    let notes = stream_is_noted(model, id, es);
}

/// A whole Anthropic stream starts one message, with nothing but pings before it, stops
/// every block as often as it starts it, and ends the message once, with its last two
/// frames. Behind a stop nothing more comes.
pub proof fn anthropic_streams_are_whole(model: Seq<char>, id: Seq<char>, es: Seq<EventV>)
    requires
        stream_laws::stops_last(es),
    ensures
        ({
            let w = anthropic_streams::written(anthropic::fresh_encoder(model, id), es);
            let out = w.out + anthropic::encoded_finish(w.e).out;
            &&& stream_laws::count(out, "message_start"@) == 1
            &&& pings_come_first(out, true)
            &&& stream_laws::count(out, "content_block_start"@) == stream_laws::count(out, "content_block_stop"@)
            &&& exists|notes: Seq<Note>|
                out == #[trigger] stream_laws::frames_of(notes) && (forall|i: u32| #[trigger]
                    started(notes, i) == stopped(notes, i))
            &&& stream_laws::count(out, "message_stop"@) == 1
            &&& out.len() >= 2
            &&& out[out.len() - 2].event == Some("message_delta"@)
            &&& out.last().event == Some("message_stop"@)
            &&& es.len() > 0 && es.last() is Stop ==> anthropic::encoded_finish(w.e).out.len() == 0
        }),
{
    broadcast use stream_laws::count_one_more;

    anthropic_names();
    let w = anthropic_streams::written(anthropic::fresh_encoder(model, id), es);
    let f = anthropic::encoded_finish(w.e).out;
    anthropic_counts_fit(model, id, es);
    anthropic_stops(model, id, es);
    let out = w.out + f;
    let notes = stream_is_noted(model, id, es);
    if w.e.finished {
        assert(out =~= w.out);
        all_are_stopped(w.e.open, notes);
        let most = anthropic_streams::written(anthropic::fresh_encoder(model, id), es.drop_last());
        let x = anthropic::encoded_event(most.e, es.last());
        assert(out.last() == x.out.last());
        assert(out[out.len() - 2] == x.out[x.out.len() - 2]);
    } else {
        let more = finish_is_noted(w.e);
        batch_fits(w.e.open, notes, anthropic::encoded_finish(w.e), more);
        all_are_stopped(Seq::empty(), notes + more);
        if !w.e.started {
            event_begins(w.e, EventV::Ping);
        }
        beginnings_join(w.out, f, w.e.started, true);
        assert(out[out.len() - 2] == f[f.len() - 2]);
        let none = Seq::<FrameV>::empty();
        let s = Written { e: w.e, out: none }.ensure_started();
        let stops = Seq::new(s.e.open.len(), |i: int| anthropic::stop_frame(s.e.open[i].0));
        assert(stream_laws::count(none, "message_start"@) == 0);
        assert(stream_laws::count(none, "content_block_start"@) == 0);
        assert(stream_laws::count(none, "content_block_stop"@) == 0);
        assert(stream_laws::count(none, "message_stop"@) == 0);
        stream_laws::count_both(s.out, stops, "message_start"@);
        stream_laws::count_both(s.out, stops, "content_block_start"@);
        stream_laws::count_both(s.out, stops, "content_block_stop"@);
        stream_laws::count_both(s.out, stops, "message_stop"@);
        stream_laws::count_alike(stops, "content_block_stop"@, "message_start"@);
        stream_laws::count_alike(stops, "content_block_stop"@, "content_block_start"@);
        stream_laws::count_alike(stops, "content_block_stop"@, "content_block_stop"@);
        stream_laws::count_alike(stops, "content_block_stop"@, "message_stop"@);
        stream_laws::count_both(w.out, f, "message_start"@);
        stream_laws::count_both(w.out, f, "content_block_start"@);
        stream_laws::count_both(w.out, f, "content_block_stop"@);
        stream_laws::count_both(w.out, f, "message_stop"@);
        assert(out.last() == f.last());
    }
}

proof fn finish_is_noted(e: EncoderV) -> (r: Seq<Note>)
    requires
        anthropic::open_once(e.open),
        e.open.len() > 0 ==> e.started,
        !e.finished,
    ensures
        noted(anthropic::encoded_finish(e), r, e.open),
        anthropic::encoded_finish(e).e.open.len() == 0,
{
    let w = Written { e, out: Seq::empty() };
    nothing_is_noted(e);
    let b = begin_is_noted(w, Seq::empty(), e.open);
    let c = stops_are_noted(w.ensure_started(), b, e.open);
    end_is_noted(w.ensure_started().close_all(), c, e.open, json::st("end_turn"@), Tree::Null)
}

proof fn all_are_stopped(open: Seq<(u32, OpenKind)>, notes: Seq<Note>)
    requires
        open.len() == 0,
        blocks_fit(open, notes),
    ensures
        forall|i: u32| #[trigger] started(notes, i) == stopped(notes, i),
{
    assert forall|i: u32| #[trigger] started(notes, i) == stopped(notes, i) by {
        assert(block_fits(open, notes, i));
    }
}

} // verus!
