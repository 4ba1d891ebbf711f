//! What holds of whole Responses streams.

use crate::ir::{EventV, Usage};
use crate::json;
use crate::json::{Build, Lookup, Tree};
use crate::protocol::responses;
use crate::protocol::responses::{EncoderV, OutputItemKind, ToolStateV, Written};
use crate::protocol::sse::FrameV;
use crate::protocol::stream_laws;
use crate::protocol::stream_laws::Note;
use vstd::prelude::*;

verus! {

proof fn responses_names()
    ensures
        "response.output_item.added"@ != "response.output_item.done"@,
        forall|n: Seq<char>| #[trigger]
            is_small_step(n) ==> n != "response.output_item.added"@ && n != "response.output_item.done"@ && n
                != "response.completed"@,
        "response.output_item.added"@ != "response.completed"@,
        "response.output_item.done"@ != "response.completed"@,
{
    reveal_strlit("response.output_item.added");
    reveal_strlit("response.output_item.done");
    reveal_strlit("response.completed");
    reveal_strlit("response.created");
    reveal_strlit("response.content_part.added");
    reveal_strlit("response.content_part.done");
    reveal_strlit("response.output_text.delta");
    reveal_strlit("response.output_text.done");
    reveal_strlit("response.reasoning_summary_text.delta");
    reveal_strlit("response.reasoning_summary_text.done");
    reveal_strlit("response.function_call_arguments.delta");
    reveal_strlit("response.function_call_arguments.done");
    assert("response.output_item.added"@.len() == 26 && "response.output_item.added"@[16] == 'i'
        && "response.output_item.added"@[9] == 'o');
    assert("response.output_item.done"@.len() == 25 && "response.output_item.done"@[16] == 'i');
    assert("response.completed"@.len() == 18);
    assert("response.created"@.len() == 16);
    assert("response.content_part.added"@.len() == 27);
    assert("response.content_part.done"@.len() == 26 && "response.content_part.done"@[9] == 'c');
    assert("response.output_text.delta"@.len() == 26 && "response.output_text.delta"@[16] == 't');
    assert("response.output_text.done"@.len() == 25 && "response.output_text.done"@[16] == 't');
    assert("response.reasoning_summary_text.delta"@.len() == 37);
    assert("response.reasoning_summary_text.done"@.len() == 36);
    assert("response.function_call_arguments.delta"@.len() == 38);
    assert("response.function_call_arguments.done"@.len() == 37);
}

/// The names of the frames that neither open nor close an item, nor end the response.
pub open spec fn is_small_step(n: Seq<char>) -> bool {
    ||| n == "response.created"@
    ||| n == "response.content_part.added"@
    ||| n == "response.content_part.done"@
    ||| n == "response.output_text.delta"@
    ||| n == "response.output_text.done"@
    ||| n == "response.reasoning_summary_text.delta"@
    ||| n == "response.reasoning_summary_text.done"@
    ||| n == "response.function_call_arguments.delta"@
    ||| n == "response.function_call_arguments.done"@
}

/// How many items are open.
pub open spec fn items_open(e: EncoderV) -> nat {
    e.tool_states.len() + if e.output_item_open {
        1nat
    } else {
        0
    }
}

/// How often items were opened and closed, and the response ended.
pub open spec fn tally(frames: Seq<FrameV>) -> (nat, nat, nat) {
    (
        stream_laws::count(frames, "response.output_item.added"@),
        stream_laws::count(frames, "response.output_item.done"@),
        stream_laws::count(frames, "response.completed"@),
    )
}

/// A frame that is no milestone leaves the tally alone; one that is counts.
proof fn tally_one_more(frames: Seq<FrameV>, f: FrameV)
    ensures
        f.event == Some("response.output_item.added"@) ==> tally(frames.push(f)) == (
            tally(frames).0 + 1,
            tally(frames).1,
            tally(frames).2,
        ),
        f.event == Some("response.output_item.done"@) ==> tally(frames.push(f)) == (
            tally(frames).0,
            tally(frames).1 + 1,
            tally(frames).2,
        ),
        f.event == Some("response.completed"@) ==> tally(frames.push(f)) == (
            tally(frames).0,
            tally(frames).1,
            tally(frames).2 + 1,
        ),
        f.event matches Some(n) && is_small_step(n) ==> tally(frames.push(f)) == tally(frames),
{
    responses_names();
    stream_laws::count_one_more(frames, f, "response.output_item.added"@);
    stream_laws::count_one_more(frames, f, "response.output_item.done"@);
    stream_laws::count_one_more(frames, f, "response.completed"@);
}

broadcast proof fn tally_grows(w: Written, f: FrameV)
    ensures
        f.event == Some("response.output_item.added"@) ==> tally(#[trigger] w.emit(f).out) == (
            tally(w.out).0 + 1,
            tally(w.out).1,
            tally(w.out).2,
        ),
        f.event == Some("response.output_item.done"@) ==> tally(w.emit(f).out) == (
            tally(w.out).0,
            tally(w.out).1 + 1,
            tally(w.out).2,
        ),
        f.event == Some("response.completed"@) ==> tally(w.emit(f).out) == (
            tally(w.out).0,
            tally(w.out).1,
            tally(w.out).2 + 1,
        ),
        f.event matches Some(n) && is_small_step(n) ==> tally(w.emit(f).out) == tally(w.out),
{
    tally_one_more(w.out, f);
}

/// The items that are open are those that were opened and not closed, beside `before`
/// that were open from the start, and an open text or thinking item has a kind.
pub open spec fn responses_fit(w: Written, before: nat) -> bool {
    &&& tally(w.out).0 + before == tally(w.out).1 + items_open(w.e)
    &&& w.e.output_item_open == (w.e.current_kind is Some)
}

proof fn part_close_fits(w: Written)
    ensures
        tally(w.close_part().out) == tally(w.out),
        items_open(w.close_part().e) == items_open(w.e),
        w.close_part().e.output_item_open == w.e.output_item_open,
        w.close_part().e.current_kind == w.e.current_kind,
        w.close_part().e.tool_states == w.e.tool_states,
        w.close_part().e.done == w.e.done,
{
    broadcast use tally_grows;

}

proof fn item_close_fits(w: Written, before: nat)
    requires
        responses_fit(w, before),
    ensures
        responses_fit(w.close_item(), before),
        !w.close_item().e.output_item_open,
        tally(w.close_item().out).2 == tally(w.out).2,
        w.close_item().e.tool_states == w.e.tool_states,
        w.close_item().e.done == w.e.done,
{
    broadcast use tally_grows;

    part_close_fits(w);
}

proof fn delta_fits(w: Written, kind: OutputItemKind, t: Seq<char>, before: nat)
    requires
        responses_fit(w, before),
    ensures
        responses_fit(w.delta(kind, t), before),
        tally(w.delta(kind, t).out).2 == tally(w.out).2,
        w.delta(kind, t).e.tool_states == w.e.tool_states,
        w.delta(kind, t).e.done == w.e.done,
{
    broadcast use tally_grows;

    item_close_fits(w, before);
    let x = w.open_item(kind);
    assert(responses_fit(x, before) && tally(x.out).2 == tally(w.out).2);
    let y = x.open_part(kind);
    assert(responses_fit(y, before) && tally(y.out) == tally(x.out));
}

proof fn call_end_fits(w: Written, t: ToolStateV, arguments: Seq<char>, status: Seq<char>)
    ensures
        tally(w.end_call(t, arguments, status).out) == (tally(w.out).0, tally(w.out).1 + 1, tally(w.out).2),
        w.end_call(t, arguments, status).e.tool_states == w.e.tool_states,
        w.end_call(t, arguments, status).e.output_item_open == w.e.output_item_open,
        w.end_call(t, arguments, status).e.current_kind == w.e.current_kind,
        w.end_call(t, arguments, status).e.done == w.e.done,
{
    broadcast use tally_grows;

}

proof fn flush_fits(w: Written, ts: Seq<(u32, ToolStateV)>, i: int)
    requires
        0 <= i <= ts.len(),
    ensures
        tally(w.flush(ts, i).out) == (tally(w.out).0, (tally(w.out).1 + ts.len() - i) as nat, tally(w.out).2),
        w.flush(ts, i).e.tool_states == w.e.tool_states,
        w.flush(ts, i).e.output_item_open == w.e.output_item_open,
        w.flush(ts, i).e.current_kind == w.e.current_kind,
        w.flush(ts, i).e.done == w.e.done,
    decreases ts.len() - i,
{
    if i < ts.len() {
        let a = responses::arguments_or_empty(ts[i].1.arguments);
        call_end_fits(w, ts[i].1, a, "incomplete"@);
        flush_fits(w.end_call(ts[i].1, a, "incomplete"@), ts, i + 1);
    }
}

/// Everything that is open is closed, and the response is ended.
proof fn end_fits(w: Written, status: Seq<char>, usage: Option<Usage>, before: nat)
    requires
        responses_fit(w, before),
    ensures
        ({
            let x = w.close_item().flush_all().complete(status, usage);
            &&& responses_fit(x, before)
            &&& items_open(x.e) == 0
            &&& tally(x.out).2 == tally(w.out).2 + 1
            &&& x.e.done == w.e.done
            &&& x.out.len() > 0
            &&& x.out.last().event == Some("response.completed"@)
        }),
{
    broadcast use tally_grows;

    item_close_fits(w, before);
    let c = w.close_item();
    let d = Written { e: EncoderV { tool_states: Seq::empty(), ..c.e }, ..c };
    flush_fits(d, c.e.tool_states, 0);
}

/// A writer after a number of events, with all their frames.
pub open spec fn responses_written(e: EncoderV, es: Seq<EventV>) -> Written
    decreases es.len(),
{
    if es.len() == 0 {
        responses::nothing_written(e)
    } else {
        let w = responses_written(e, es.drop_last());
        let x = responses::encoded_event(w.e, es.last());
        Written { e: x.e, out: w.out + x.out }
    }
}

/// No tool call starts over one that is still going.
pub open spec fn calls_start_once(e: EncoderV, es: Seq<EventV>) -> bool {
    forall|n: int|
        0 <= n < es.len() ==> ((#[trigger] es[n]) matches EventV::ToolUseStart { index, .. } ==> ({
            let ts = responses_written(e, es.take(n)).e.tool_states;
            responses::tool_at(ts, index, 0) == ts.len()
        }))
}

proof fn most_calls_start_once(e: EncoderV, es: Seq<EventV>)
    requires
        calls_start_once(e, es),
        es.len() > 0,
    ensures
        calls_start_once(e, es.drop_last()),
        es.last() matches EventV::ToolUseStart { index, .. } ==> ({
            let ts = responses_written(e, es.drop_last()).e.tool_states;
            responses::tool_at(ts, index, 0) == ts.len()
        }),
{
    let most = es.drop_last();
    assert forall|n: int| 0 <= n < most.len() implies ((#[trigger] most[n]) matches EventV::ToolUseStart {
        index,
        ..
    } ==> ({
        let ts = responses_written(e, most.take(n)).e.tool_states;
        responses::tool_at(ts, index, 0) == ts.len()
    })) by {
        assert(most[n] == es[n]);
        assert(most.take(n) =~= es.take(n));
    }
    assert(es[es.len() - 1] == es.last());
    assert(es.take(es.len() - 1) =~= most);
}

/// One event more, written behind what was put out before.
proof fn responses_event_fits(e: EncoderV, ev: EventV)
    requires
        e.output_item_open == (e.current_kind is Some),
        ev matches EventV::ToolUseStart { index, .. } ==> responses::tool_at(e.tool_states, index, 0)
            == e.tool_states.len(),
    ensures
        ({
            let x = responses::encoded_event(e, ev);
            &&& tally(x.out).0 + items_open(e) == tally(x.out).1 + items_open(x.e)
            &&& x.e.output_item_open == (x.e.current_kind is Some)
            &&& tally(x.out).2 == if ev is Stop {
                1nat
            } else {
                0
            }
            &&& x.e.done == (e.done || ev is Stop)
            &&& ev is Stop ==> items_open(x.e) == 0 && x.out.len() > 0 && x.out.last().event == Some(
                "response.completed"@,
            )
        }),
{
    broadcast use tally_grows;

    let none = Seq::<FrameV>::empty();
    let w = responses::nothing_written(e);
    let n = items_open(e);
    assert(tally(none) == (0nat, 0nat, 0nat));
    match ev {
        EventV::TextDelta { text, .. } => {
            delta_fits(w, OutputItemKind::Text, text, n);
        },
        EventV::ThinkingDelta { text, .. } => {
            delta_fits(w, OutputItemKind::Thinking, text, n);
        },
        EventV::BlockStop { index } => {
            tool_at_is_first(e.tool_states, index, 0);
            let at = responses::tool_at(e.tool_states, index, 0);
            if at < e.tool_states.len() {
                let t = e.tool_states[at].1;
                let w = responses::nothing_written(
                    EncoderV { tool_states: e.tool_states.remove(at), ..e },
                );
                call_end_fits(w, t, t.arguments, "completed"@);
            }
        },
        EventV::Stop { usage, .. } => {
            end_fits(w, "completed"@, Some(usage), n);
        },
        _ => {},
    }
}

proof fn tool_at_is_first(s: Seq<(u32, ToolStateV)>, index: u32, i: int)
    requires
        0 <= i <= s.len(),
    ensures
        i <= responses::tool_at(s, index, i) <= s.len(),
        responses::tool_at(s, index, i) < s.len() ==> s[responses::tool_at(s, index, i)].0 == index,
        forall|j: int| i <= j < responses::tool_at(s, index, i) ==> (#[trigger] s[j]).0 != index,
    decreases s.len() - i,
{
    if i < s.len() && s[i].0 != index {
        tool_at_is_first(s, index, i + 1);
    }
}

proof fn tally_both(a: Seq<FrameV>, b: Seq<FrameV>)
    ensures
        tally(a + b) == (tally(a).0 + tally(b).0, tally(a).1 + tally(b).1, tally(a).2 + tally(b).2),
{
    stream_laws::count_both(a, b, "response.output_item.added"@);
    stream_laws::count_both(a, b, "response.output_item.done"@);
    stream_laws::count_both(a, b, "response.completed"@);
}

/// At every moment of a Responses stream as many items were closed as were opened, but
/// for those that are open.
pub proof fn responses_items_balance(model: Seq<char>, id: Seq<char>, created_at: i64, es: Seq<EventV>)
    requires
        calls_start_once(responses::fresh_encoder(model, id, created_at), es),
    ensures
        responses_fit(responses_written(responses::fresh_encoder(model, id, created_at), es), 0),
    decreases es.len(),
{
    let e = responses::fresh_encoder(model, id, created_at);
    if es.len() > 0 {
        most_calls_start_once(e, es);
        responses_items_balance(model, id, created_at, es.drop_last());
        let w = responses_written(e, es.drop_last());
        responses_event_fits(w.e, es.last());
        tally_both(w.out, responses::encoded_event(w.e, es.last()).out);
    }
}

proof fn responses_stops(model: Seq<char>, id: Seq<char>, created_at: i64, es: Seq<EventV>)
    requires
        calls_start_once(responses::fresh_encoder(model, id, created_at), es),
        stream_laws::stops_last(es),
    ensures
        ({
            let w = responses_written(responses::fresh_encoder(model, id, created_at), es);
            let stopped = es.len() > 0 && es.last() is Stop;
            &&& w.e.done == stopped
            &&& tally(w.out).2 == if stopped {
                1nat
            } else {
                0
            }
            &&& stopped ==> items_open(w.e) == 0 && w.out.len() > 0 && w.out.last().event == Some(
                "response.completed"@,
            )
        }),
    decreases es.len(),
{
    let e = responses::fresh_encoder(model, id, created_at);
    if es.len() > 0 {
        stream_laws::most_stops_last(es);
        most_calls_start_once(e, es);
        responses_stops(model, id, created_at, es.drop_last());
        responses_items_balance(model, id, created_at, es.drop_last());
        let w = responses_written(e, es.drop_last());
        responses_event_fits(w.e, es.last());
        tally_both(w.out, responses::encoded_event(w.e, es.last()).out);
    }
}

/// A whole Responses stream, however long, closes as many items as it opens and ends the
/// response once, with its last frame.
pub proof fn responses_streams_are_whole(model: Seq<char>, id: Seq<char>, created_at: i64, es: Seq<EventV>)
    requires
        calls_start_once(responses::fresh_encoder(model, id, created_at), es),
        stream_laws::stops_last(es),
    ensures
        ({
            let w = responses_written(responses::fresh_encoder(model, id, created_at), es);
            let out = w.out + responses::encoded_finish(w.e).out;
            &&& stream_laws::count(out, "response.output_item.added"@) == stream_laws::count(
                out,
                "response.output_item.done"@,
            )
            &&& stream_laws::count(out, "response.completed"@) == 1
            &&& out.len() > 0
            &&& out.last().event == Some("response.completed"@)
        }),
{
    let w = responses_written(responses::fresh_encoder(model, id, created_at), es);
    let f = responses::encoded_finish(w.e).out;
    responses_items_balance(model, id, created_at, es);
    responses_stops(model, id, created_at, es);
    let out = w.out + f;
    if w.e.done {
        assert(out =~= w.out);
    } else {
        let none = Seq::<FrameV>::empty();
        assert(tally(none) == (0nat, 0nat, 0nat));
        let d = responses::nothing_written(EncoderV { done: true, ..w.e });
        let status = if d.close_item().e.tool_states.len() > 0 {
            "incomplete"@
        } else {
            "completed"@
        };
        end_fits(d, status, None, items_open(w.e));
        tally_both(w.out, f);
        assert(out.last() == f.last());
    }
}

// ------------------------------------------------------------------- each item

/// How often an item was opened under that output index.
pub open spec fn opened(notes: Seq<Note>, k: u32) -> nat {
    stream_laws::about(notes, "response.output_item.added"@, "output_index"@, k)
}

/// How often an item was closed under that output index.
pub open spec fn closed(notes: Seq<Note>, k: u32) -> nat {
    stream_laws::about(notes, "response.output_item.done"@, "output_index"@, k)
}

/// The frame that closes an item.
pub open spec fn done_note(k: u32, item: Tree) -> Note {
    Note {
        name: "response.output_item.done"@,
        doc: Tree::Obj(
            responses::typed("response.output_item.done"@).with("output_index"@, json::num(k as int)).with(
                "item"@,
                item,
            ),
        ),
    }
}

spec fn added_note(k: u32, item: Tree) -> Note {
    Note {
        name: "response.output_item.added"@,
        doc: Tree::Obj(
            responses::typed("response.output_item.added"@).with("output_index"@, json::num(k as int)).with(
                "item"@,
                item,
            ),
        ),
    }
}

spec fn note_of(kind: Seq<char>, rest: Seq<(Seq<char>, Tree)>) -> Note {
    Note { name: kind, doc: Tree::Obj(rest) }
}

proof fn item_notes_are_about(k: u32, item: Tree)
    ensures
        stream_laws::frame_of(done_note(k, item)) == responses::item_done_frame(k, item),
        stream_laws::frame_of(added_note(k, item)) == responses::item_added_frame(k, item),
        done_note(k, item).doc.at("output_index"@) == Some(json::num(k as int)),
        added_note(k, item).doc.at("output_index"@) == Some(json::num(k as int)),
{
    reveal_strlit("type");
    reveal_strlit("output_index");
    assert("type"@.len() == 4 && "output_index"@.len() == 12);
    reveal_with_fuel(json::find_from, 4);
}

/// A frame that neither opens nor closes an item changes no count.
proof fn small_counts(notes: Seq<Note>, n: Note, k: u32)
    requires
        n.name != "response.output_item.added"@,
        n.name != "response.output_item.done"@,
    ensures
        opened(notes.push(n), k) == opened(notes, k),
        closed(notes.push(n), k) == closed(notes, k),
{
    stream_laws::about_one_more(notes, n, "response.output_item.added"@, "output_index"@, k);
    stream_laws::about_one_more(notes, n, "response.output_item.done"@, "output_index"@, k);
}

proof fn item_counts(notes: Seq<Note>, at: u32, item: Tree, k: u32)
    ensures
        opened(notes.push(added_note(at, item)), k) == opened(notes, k) + if k == at {
            1nat
        } else {
            0
        },
        closed(notes.push(added_note(at, item)), k) == closed(notes, k),
        opened(notes.push(done_note(at, item)), k) == opened(notes, k),
        closed(notes.push(done_note(at, item)), k) == closed(notes, k) + if k == at {
            1nat
        } else {
            0
        },
{
    responses_names();
    item_notes_are_about(at, item);
    stream_laws::about_one_more(notes, added_note(at, item), "response.output_item.added"@, "output_index"@, k);
    stream_laws::about_one_more(notes, added_note(at, item), "response.output_item.done"@, "output_index"@, k);
    stream_laws::about_one_more(notes, done_note(at, item), "response.output_item.added"@, "output_index"@, k);
    stream_laws::about_one_more(notes, done_note(at, item), "response.output_item.done"@, "output_index"@, k);
}

/// Whether the item of that output index is open, where `ts` are the calls still going.
pub open spec fn is_open(e: EncoderV, ts: Seq<(u32, ToolStateV)>, k: u32) -> bool {
    ||| e.output_item_open && e.current_output_index == k
    ||| exists|i: int| 0 <= i < ts.len() && (#[trigger] ts[i]).1.output_index == k
}

/// Whether the frame closes the item with what stands among the finished ones, or as
/// empty where nothing does.
pub open spec fn tells(n: Note, items: Seq<(u32, Tree)>, k: u32, id: Seq<char>) -> bool {
    n == done_note(
        k,
        match responses::item_of(items, k) {
            Some(item) => item,
            None => responses::empty_item(id),
        },
    )
}

pub open spec fn is_told(items: Seq<(u32, Tree)>, notes: Seq<Note>, k: u32) -> bool {
    exists|n: int, id: Seq<char>| 0 <= n < notes.len() && #[trigger] tells(notes[n], items, k, id)
}

/// An item is opened once, in its turn, and closed once, unless it is open. A finished
/// one is told as it stands.
pub open spec fn item_fits(e: EncoderV, ts: Seq<(u32, ToolStateV)>, notes: Seq<Note>, k: u32) -> bool {
    let used = k < e.next_output_index;
    let shut = used && !is_open(e, ts, k);
    &&& opened(notes, k) == if used {
        1nat
    } else {
        0
    }
    &&& closed(notes, k) == if shut {
        1nat
    } else {
        0
    }
    &&& responses::item_of(e.output_items, k) is Some ==> shut
    &&& shut ==> is_told(e.output_items, notes, k)
}

/// Every open item has an output index of its own, and every call a block of its own.
pub open spec fn are_apart(e: EncoderV, ts: Seq<(u32, ToolStateV)>) -> bool {
    &&& e.output_item_open == (e.current_kind is Some)
    &&& e.output_item_open ==> e.current_output_index < e.next_output_index
    &&& forall|i: int|
        0 <= i < ts.len() ==> (#[trigger] ts[i]).1.output_index < e.next_output_index && (e.output_item_open
            ==> ts[i].1.output_index != e.current_output_index)
    &&& forall|i: int, j: int|
        0 <= i < j < ts.len() ==> (#[trigger] ts[i]).0 != (#[trigger] ts[j]).0 && ts[i].1.output_index
            != ts[j].1.output_index
}

spec fn kept(e: EncoderV, ts: Seq<(u32, ToolStateV)>, notes: Seq<Note>) -> bool {
    &&& are_apart(e, ts)
    &&& responses::in_order(e.output_items)
    &&& forall|k: u32| #[trigger] item_fits(e, ts, notes, k)
}

/// The same items, open and finished.
spec fn alike(a: EncoderV, b: EncoderV) -> bool {
    &&& a.output_item_open == b.output_item_open
    &&& a.current_kind == b.current_kind
    &&& a.current_output_index == b.current_output_index
    &&& a.next_output_index == b.next_output_index
    &&& a.output_items == b.output_items
}

/// The same calls, but for their arguments.
spec fn calls_alike(a: Seq<(u32, ToolStateV)>, b: Seq<(u32, ToolStateV)>) -> bool {
    &&& a.len() == b.len()
    &&& forall|i: int|
        0 <= i < a.len() ==> (#[trigger] a[i]).0 == (#[trigger] b[i]).0 && a[i].1.output_index == b[i].1.output_index
}

proof fn alike_is_kept(
    a: EncoderV,
    b: EncoderV,
    at: Seq<(u32, ToolStateV)>,
    bt: Seq<(u32, ToolStateV)>,
    notes: Seq<Note>,
)
    requires
        kept(a, at, notes),
        alike(a, b),
        calls_alike(at, bt),
    ensures
        kept(b, bt, notes),
{
    assert forall|i: int, j: int| 0 <= i < j < bt.len() implies (#[trigger] bt[i]).0 != (#[trigger] bt[j]).0
        && bt[i].1.output_index != bt[j].1.output_index by {
        assert(at[i].0 == bt[i].0 && at[j].0 == bt[j].0);
    }
    assert forall|i: int| 0 <= i < bt.len() implies (#[trigger] bt[i]).1.output_index < b.next_output_index && (
    b.output_item_open ==> bt[i].1.output_index != b.current_output_index) by {
        assert(at[i].0 == bt[i].0);
    }
    assert forall|k: u32| #[trigger] item_fits(b, bt, notes, k) by {
        assert(item_fits(a, at, notes, k));
        if is_open(a, at, k) && !(a.output_item_open && a.current_output_index == k) {
            let i = choose|i: int| 0 <= i < at.len() && (#[trigger] at[i]).1.output_index == k;
            assert(bt[i].1.output_index == k);
        }
        if is_open(b, bt, k) && !(b.output_item_open && b.current_output_index == k) {
            let i = choose|i: int| 0 <= i < bt.len() && (#[trigger] bt[i]).1.output_index == k;
            assert(at[i].1.output_index == k);
        }
    }
}

proof fn telling_stays(items: Seq<(u32, Tree)>, notes: Seq<Note>, n: Note, k: u32)
    requires
        is_told(items, notes, k),
    ensures
        is_told(items, notes.push(n), k),
{
    let (i, id) = choose|i: int, id: Seq<char>| 0 <= i < notes.len() && #[trigger] tells(notes[i], items, k, id);
    assert(notes.push(n)[i] == notes[i]);
    assert(tells(notes.push(n)[i], items, k, id));
}

/// A frame that neither opens nor closes an item.
proof fn small_is_kept(e: EncoderV, ts: Seq<(u32, ToolStateV)>, notes: Seq<Note>, n: Note)
    requires
        kept(e, ts, notes),
        n.name != "response.output_item.added"@,
        n.name != "response.output_item.done"@,
    ensures
        kept(e, ts, notes.push(n)),
{
    assert forall|k: u32| #[trigger] item_fits(e, ts, notes.push(n), k) by {
        assert(item_fits(e, ts, notes, k));
        small_counts(notes, n, k);
        if is_told(e.output_items, notes, k) {
            telling_stays(e.output_items, notes, n, k);
        }
    }
}

/// An item is opened under the next output index.
proof fn opening_is_kept(
    a: EncoderV,
    b: EncoderV,
    at: Seq<(u32, ToolStateV)>,
    bt: Seq<(u32, ToolStateV)>,
    notes: Seq<Note>,
    item: Tree,
)
    requires
        kept(a, at, notes),
        are_apart(b, bt),
        a.next_output_index < u32::MAX,
        b.next_output_index == a.next_output_index + 1,
        b.output_items == a.output_items,
        forall|k: u32| #[trigger] is_open(b, bt, k) == (is_open(a, at, k) || k == a.next_output_index),
    ensures
        kept(b, bt, notes.push(added_note(a.next_output_index, item))),
{
    let n = added_note(a.next_output_index, item);
    assert forall|k: u32| #[trigger] item_fits(b, bt, notes.push(n), k) by {
        assert(item_fits(a, at, notes, k));
        item_counts(notes, a.next_output_index, item, k);
        assert(is_open(b, bt, k) == (is_open(a, at, k) || k == a.next_output_index));
        if is_told(a.output_items, notes, k) {
            telling_stays(a.output_items, notes, n, k);
        }
    }
}

/// An open item is closed: with what is put among the finished ones, or as empty.
proof fn closing_is_kept(
    a: EncoderV,
    b: EncoderV,
    at: Seq<(u32, ToolStateV)>,
    bt: Seq<(u32, ToolStateV)>,
    notes: Seq<Note>,
    at_index: u32,
    item: Tree,
    id: Seq<char>,
)
    requires
        kept(a, at, notes),
        are_apart(b, bt),
        is_open(a, at, at_index),
        at_index < a.next_output_index,
        b.next_output_index == a.next_output_index,
        b.output_items == responses::with_item(a.output_items, at_index, item) || (b.output_items == a.output_items
            && item == responses::empty_item(id)),
        forall|k: u32| #[trigger] is_open(b, bt, k) == (is_open(a, at, k) && k != at_index),
    ensures
        kept(b, bt, notes.push(done_note(at_index, item))),
{
    let n = done_note(at_index, item);
    assert(item_fits(a, at, notes, at_index));
    responses::items_stay_in_order(a.output_items, at_index, item, at_index);
    assert forall|k: u32| #[trigger] item_fits(b, bt, notes.push(n), k) by {
        assert(item_fits(a, at, notes, k));
        responses::items_stay_in_order(a.output_items, at_index, item, k);
        item_counts(notes, at_index, item, k);
        assert(is_open(b, bt, k) == (is_open(a, at, k) && k != at_index));
        if k == at_index {
            assert(notes.push(n)[notes.len() as int] == n);
            assert(tells(notes.push(n)[notes.len() as int], b.output_items, k, id));
        } else if is_told(a.output_items, notes, k) {
            telling_stays(a.output_items, notes, n, k);
            let all = notes.push(n);
            let (i, other) = choose|i: int, other: Seq<char>|
                0 <= i < all.len() && #[trigger] tells(all[i], a.output_items, k, other);
            assert(tells(all[i], b.output_items, k, other));
        }
    }
}

/// What was put out behind `base`, and how it fits what is open and finished.
spec fn noted(w: Written, ts: Seq<(u32, ToolStateV)>, base: Seq<Note>, notes: Seq<Note>) -> bool {
    &&& w.out == stream_laws::frames_of(notes)
    &&& kept(w.e, ts, base + notes)
}

/// What the frames of a response say of it as a whole.
spec fn same_response(a: EncoderV, b: EncoderV) -> bool {
    a.id == b.id && a.model == b.model && a.created_at == b.created_at
}

proof fn one_note_more(w: Written, base: Seq<Note>, notes: Seq<Note>, n: Note)
    requires
        w.out == stream_laws::frames_of(notes),
    ensures
        w.out.push(stream_laws::frame_of(n)) == stream_laws::frames_of(notes.push(n)),
        base + notes.push(n) == (base + notes).push(n),
{
    stream_laws::noted_one_more(notes, n);
    assert(base + notes.push(n) =~= (base + notes).push(n));
}

proof fn small_is_noted(
    w: Written,
    ts: Seq<(u32, ToolStateV)>,
    base: Seq<Note>,
    notes: Seq<Note>,
    kind: Seq<char>,
    rest: Seq<(Seq<char>, Tree)>,
)
    requires
        noted(w, ts, base, notes),
        is_small_step(kind) || kind == "response.completed"@,
    ensures
        noted(w.emit(responses::event_frame(kind, rest)), ts, base, notes.push(note_of(kind, rest))),
{
    responses_names();
    one_note_more(w, base, notes, note_of(kind, rest));
    small_is_kept(w.e, ts, base + notes, note_of(kind, rest));
}

proof fn same_is_noted(w: Written, x: Written, ts: Seq<(u32, ToolStateV)>, base: Seq<Note>, notes: Seq<Note>)
    requires
        noted(w, ts, base, notes),
        alike(w.e, x.e),
        x.out == w.out,
    ensures
        noted(x, ts, base, notes),
{
    alike_is_kept(w.e, x.e, ts, ts, base + notes);
}

proof fn part_close_is_noted(w: Written, ts: Seq<(u32, ToolStateV)>, base: Seq<Note>, notes: Seq<Note>) -> (r: Seq<
    Note,
>)
    requires
        noted(w, ts, base, notes),
    ensures
        noted(w.close_part(), ts, base, r),
        ({
            let e = w.close_part().e;
            e == (EncoderV { content_part_open: e.content_part_open, ..w.e })
        }),
{
    if !w.e.content_part_open {
        notes
    } else {
        match w.e.current_kind {
            Some(k) => {
                let (name, rest) = match k {
                    OutputItemKind::Text => (
                        "response.output_text.done"@,
                        w.e.part_head("response.output_text.done"@).with("text"@, json::st(w.e.current_text)),
                    ),
                    OutputItemKind::Thinking => (
                        "response.reasoning_summary_text.done"@,
                        w.e.part_head("response.reasoning_summary_text.done"@).with(
                            "text"@,
                            json::st(w.e.current_thinking),
                        ),
                    ),
                };
                let a = w.emit(responses::event_frame(name, rest));
                small_is_noted(w, ts, base, notes, name, rest);
                let b = Written { e: EncoderV { content_part_open: false, ..a.e }, ..a };
                let n = notes.push(note_of(name, rest));
                same_is_noted(a, b, ts, base, n);
                let end = b.e.part_head("response.content_part.done"@).with("part"@, responses::part_out(k));
                small_is_noted(b, ts, base, n, "response.content_part.done"@, end);
                n.push(note_of("response.content_part.done"@, end))
            },
            None => {
                same_is_noted(w, w.close_part(), ts, base, notes);
                notes
            },
        }
    }
}

/// The open text or thinking item is closed.
proof fn item_close_is_noted(w: Written, ts: Seq<(u32, ToolStateV)>, base: Seq<Note>, notes: Seq<Note>) -> (r: Seq<
    Note,
>)
    requires
        noted(w, ts, base, notes),
    ensures
        noted(w.close_item(), ts, base, r),
        !w.close_item().e.output_item_open,
        w.close_item().e.next_output_index == w.e.next_output_index,
        w.close_item().e.tool_states == w.e.tool_states,
        w.close_item().e.done == w.e.done,
        same_response(w.close_item().e, w.e),
{
    if !w.e.output_item_open {
        notes
    } else {
        let n = part_close_is_noted(w, ts, base, notes);
        let p = w.close_part();
        let at = p.e.current_output_index;
        let all = base + n;
        let x = w.close_item();
        let e = EncoderV { output_item_open: false, ..p.e.finalized() };
        let item = e.closing_item();
        assert(is_open(p.e, ts, at));
        assert(item_fits(p.e, ts, all, at));
        match p.e.finished_item() {
            Some(v) => {
                responses::items_stay_in_order(p.e.output_items, at, v, at);
            },
            None => {},
        }
        assert forall|k: u32| #[trigger] is_open(x.e, ts, k) == (is_open(p.e, ts, k) && k != at) by {
            if is_open(x.e, ts, k) {
                let i = choose|i: int| 0 <= i < ts.len() && (#[trigger] ts[i]).1.output_index == k;
                assert(ts[i].1.output_index != at);
            }
        }
        closing_is_kept(p.e, x.e, ts, ts, all, at, item, p.e.current_item_id);
        item_notes_are_about(at, item);
        one_note_more(p, base, n, done_note(at, item));
        n.push(done_note(at, item))
    }
}

proof fn item_open_is_noted(
    w: Written,
    ts: Seq<(u32, ToolStateV)>,
    base: Seq<Note>,
    notes: Seq<Note>,
    kind: OutputItemKind,
) -> (r: Seq<Note>)
    requires
        noted(w, ts, base, notes),
        w.e.next_output_index < u32::MAX,
    ensures
        noted(w.open_item(kind), ts, base, r),
        w.open_item(kind).e.next_output_index <= w.e.next_output_index + 1,
        w.open_item(kind).e.tool_states == w.e.tool_states,
{
    if w.e.current_kind == Some(kind) {
        notes
    } else {
        let n = item_close_is_noted(w, ts, base, notes);
        let c = w.close_item();
        let x = w.open_item(kind);
        let i = c.e.next_output_index;
        let f = x.out.last();
        let item = choose|item: Tree| f == #[trigger] responses::item_added_frame(i, item);
        assert(x.out == c.out.push(f));
        assert(forall|k: u32| #[trigger] is_open(x.e, ts, k) == (is_open(c.e, ts, k) || k == i));
        opening_is_kept(c.e, x.e, ts, ts, base + n, item);
        item_notes_are_about(i, item);
        one_note_more(c, base, n, added_note(i, item));
        n.push(added_note(i, item))
    }
}

proof fn delta_is_noted(
    w: Written,
    ts: Seq<(u32, ToolStateV)>,
    base: Seq<Note>,
    notes: Seq<Note>,
    kind: OutputItemKind,
    t: Seq<char>,
) -> (r: Seq<Note>)
    requires
        noted(w, ts, base, notes),
        w.e.next_output_index < u32::MAX,
    ensures
        noted(w.delta(kind, t), ts, base, r),
        w.delta(kind, t).e.next_output_index <= w.e.next_output_index + 1,
        w.delta(kind, t).e.tool_states == w.e.tool_states,
{
    let a = item_open_is_noted(w, ts, base, notes, kind);
    let x = w.open_item(kind);
    let y = x.open_part(kind);
    let b = if x.e.content_part_open {
        a
    } else {
        let e = EncoderV { content_part_open: true, ..x.e };
        let rest = e.part_head("response.content_part.added"@).with("part"@, responses::part_out(kind));
        same_is_noted(x, Written { e, ..x }, ts, base, a);
        small_is_noted(Written { e, ..x }, ts, base, a, "response.content_part.added"@, rest);
        a.push(note_of("response.content_part.added"@, rest))
    };
    let name = match kind {
        OutputItemKind::Text => "response.output_text.delta"@,
        OutputItemKind::Thinking => "response.reasoning_summary_text.delta"@,
    };
    let rest = y.e.part_head(name).with("delta"@, json::st(t));
    small_is_noted(y, ts, base, b, name, rest);
    let c = b.push(note_of(name, rest));
    same_is_noted(y.emit(responses::event_frame(name, rest)), w.delta(kind, t), ts, base, c);
    c
}

proof fn removal_keeps_apart(e: EncoderV, ts: Seq<(u32, ToolStateV)>, at: int)
    requires
        are_apart(e, ts),
        0 <= at < ts.len(),
    ensures
        are_apart(e, ts.remove(at)),
        is_open(e, ts, ts[at].1.output_index),
        forall|k: u32| #[trigger]
            is_open(e, ts.remove(at), k) == (is_open(e, ts, k) && k != ts[at].1.output_index),
{
    let less = ts.remove(at);
    assert(forall|i: int| 0 <= i < less.len() ==> #[trigger] less[i] == ts[if i < at { i } else { i + 1 }]);
    assert forall|k: u32| #[trigger] is_open(e, less, k) == (is_open(e, ts, k) && k != ts[at].1.output_index) by {
        if exists|i: int| 0 <= i < less.len() && (#[trigger] less[i]).1.output_index == k {
            let i = choose|i: int| 0 <= i < less.len() && (#[trigger] less[i]).1.output_index == k;
            let j = if i < at {
                i
            } else {
                i + 1
            };
            assert(ts[j] == less[i]);
        }
        if exists|i: int| 0 <= i < ts.len() && (#[trigger] ts[i]).1.output_index == k {
            let i = choose|i: int| 0 <= i < ts.len() && (#[trigger] ts[i]).1.output_index == k;
            if i != at {
                let j = if i < at {
                    i
                } else {
                    i - 1
                };
                assert(less[j] == ts[i]);
            }
        }
    }
}

/// A call is ended.
proof fn call_end_is_noted(
    w: Written,
    ts: Seq<(u32, ToolStateV)>,
    base: Seq<Note>,
    notes: Seq<Note>,
    at: int,
    arguments: Seq<char>,
    status: Seq<char>,
) -> (r: Seq<Note>)
    requires
        noted(w, ts, base, notes),
        0 <= at < ts.len(),
    ensures
        noted(w.end_call(ts[at].1, arguments, status), ts.remove(at), base, r),
        ({
            let e = w.end_call(ts[at].1, arguments, status).e;
            e == (EncoderV {
                output_items: responses::with_item(
                    w.e.output_items,
                    ts[at].1.output_index,
                    responses::call_item(ts[at].1, status),
                ),
                ..w.e
            })
        }),
{
    let t = ts[at].1;
    let item = responses::call_item(t, status);
    let name = "response.function_call_arguments.done"@;
    let rest = responses::typed(name).with("item_id"@, json::st(t.item_id)).with(
        "output_index"@,
        json::num(t.output_index as int),
    ).with("content_index"@, json::num(0)).with("arguments"@, json::st(arguments));
    small_is_noted(w, ts, base, notes, name, rest);
    let n = notes.push(note_of(name, rest));
    let x = w.emit(responses::arguments_done_frame(t, arguments));
    let y = w.end_call(t, arguments, status);
    removal_keeps_apart(x.e, ts, at);
    assert forall|k: u32| #[trigger] is_open(y.e, ts.remove(at), k) == (is_open(x.e, ts, k) && k
        != t.output_index) by {
        assert(is_open(x.e, ts.remove(at), k) == (is_open(x.e, ts, k) && k != t.output_index));
    }
    closing_is_kept(x.e, y.e, ts, ts.remove(at), base + n, t.output_index, item, Seq::empty());
    item_notes_are_about(t.output_index, item);
    one_note_more(x, base, n, done_note(t.output_index, item));
    n.push(done_note(t.output_index, item))
}

/// The calls that are still going, from the `i`th on, are ended as incomplete.
proof fn flush_is_noted(w: Written, ts: Seq<(u32, ToolStateV)>, i: int, base: Seq<Note>, notes: Seq<Note>) -> (r: Seq<
    Note,
>)
    requires
        0 <= i <= ts.len(),
        noted(w, ts.skip(i), base, notes),
    ensures
        noted(w.flush(ts, i), Seq::empty(), base, r),
        ({
            let e = w.flush(ts, i).e;
            &&& e == (EncoderV { output_items: e.output_items, ..w.e })
            &&& forall|j: int|
                i <= j < ts.len() ==> responses::item_of(e.output_items, (#[trigger] ts[j]).1.output_index) == Some(
                    responses::call_item(ts[j].1, "incomplete"@),
                )
            &&& forall|k: u32|
                (forall|j: int| i <= j < ts.len() ==> (#[trigger] ts[j]).1.output_index != k)
                    ==> #[trigger] responses::item_of(e.output_items, k) == responses::item_of(w.e.output_items, k)
        }),
    decreases ts.len() - i,
{
    let left = ts.skip(i);
    if i < ts.len() {
        let t = ts[i].1;
        let a = responses::arguments_or_empty(t.arguments);
        let item = responses::call_item(t, "incomplete"@);
        assert(left[0] == ts[i]);
        let n = call_end_is_noted(w, left, base, notes, 0, a, "incomplete"@);
        let x = w.end_call(t, a, "incomplete"@);
        assert(left.remove(0) =~= ts.skip(i + 1));
        let r = flush_is_noted(x, ts, i + 1, base, n);
        let e = w.flush(ts, i).e;
        responses::items_stay_in_order(w.e.output_items, t.output_index, item, t.output_index);
        assert forall|j: int| i + 1 <= j < ts.len() implies (#[trigger] ts[j]).1.output_index != t.output_index by {
            assert(left[j - i] == ts[j]);
        }
        assert forall|j: int| i <= j < ts.len() implies responses::item_of(
            e.output_items,
            (#[trigger] ts[j]).1.output_index,
        ) == Some(responses::call_item(ts[j].1, "incomplete"@)) by {
            if j == i {
                assert(responses::item_of(e.output_items, t.output_index) == responses::item_of(
                    x.e.output_items,
                    t.output_index,
                ));
            }
        }
        assert forall|k: u32|
            (forall|j: int| i <= j < ts.len() ==> (#[trigger] ts[j]).1.output_index != k) implies #[trigger]
            responses::item_of(e.output_items, k) == responses::item_of(w.e.output_items, k) by {
            assert(ts[i].1.output_index != k);
            responses::items_stay_in_order(w.e.output_items, t.output_index, item, k);
            assert(forall|j: int| i + 1 <= j < ts.len() ==> (#[trigger] ts[j]).1.output_index != k);
        }
        r
    } else {
        assert(left =~= Seq::empty());
        notes
    }
}

/// What a response tells as a whole, where `before` is where the encoder stood when the
/// end came: `notes` are all its frames and `items` all that was finished.
pub open spec fn is_whole(
    before: EncoderV,
    out: Seq<FrameV>,
    notes: Seq<Note>,
    items: Seq<(u32, Tree)>,
    status: Seq<char>,
    usage: Option<Usage>,
) -> bool {
    &&& out == stream_laws::frames_of(notes)
    // Every item is opened once and closed once, under an output index of its own.
    &&& forall|k: u32|
        #![trigger opened(notes, k)]
        #![trigger closed(notes, k)]
        opened(notes, k) == closed(notes, k) && opened(notes, k) == if k < before.next_output_index {
            1nat
        } else {
            0
        }
    // It is closed with what the output lists, which is in the order of the indices;
    // only an item that stayed empty is not listed.
    &&& responses::in_order(items)
    &&& forall|k: u32| #[trigger]
        responses::item_of(items, k) is Some ==> k < before.next_output_index
    &&& forall|k: u32| k < before.next_output_index ==> #[trigger] is_told(items, notes, k)
    // A call that is still going is listed as incomplete.
    &&& forall|i: int|
        0 <= i < before.tool_states.len() ==> responses::item_of(
            items,
            (#[trigger] before.tool_states[i]).1.output_index,
        ) == Some(responses::call_item(before.tool_states[i].1, "incomplete"@))
    &&& out.len() > 0
    &&& out.last() == (EncoderV { output_items: items, ..before }).completed(status, usage)
}

/// Everything that is open is closed, and the response is ended, behind `base`.
proof fn end_is_noted(e: EncoderV, base: Seq<Note>, status: Seq<char>, usage: Option<Usage>) -> (r: (
    Seq<Note>,
    Seq<(u32, Tree)>,
))
    requires
        kept(e, e.tool_states, base),
    ensures
        ({
            let x = responses::nothing_written(e).close_item().flush_all().complete(status, usage);
            is_whole(e, stream_laws::frames_of(base) + x.out, base + r.0, r.1, status, usage)
        }),
{
    let none = Seq::<Note>::empty();
    let w = responses::nothing_written(e);
    let ts = e.tool_states;
    assert(stream_laws::frames_of(none) =~= Seq::empty());
    assert(base + none =~= base);
    let a = item_close_is_noted(w, ts, base, none);
    let c = w.close_item();
    let d = Written { e: EncoderV { tool_states: Seq::empty(), ..c.e }, ..c };
    same_is_noted(c, d, ts, base, a);
    assert(ts.skip(0) =~= ts);
    let b = flush_is_noted(d, ts, 0, base, a);
    let f = d.flush(ts, 0);
    let items = f.e.output_items;
    let last = f.e.completed(status, usage);
    let rest = choose|rest: Seq<(Seq<char>, Tree)>|
        last == #[trigger] responses::event_frame("response.completed"@, rest);
    small_is_noted(f, Seq::empty(), base, b, "response.completed"@, rest);
    let notes = b.push(note_of("response.completed"@, rest));
    let all = base + notes;
    let x = w.close_item().flush_all().complete(status, usage);
    let out = stream_laws::frames_of(base) + x.out;
    stream_laws::noted_both(base, notes);
    assert(out.last() == last);
    assert(f.e.output() == (EncoderV { output_items: items, ..e }).output());
    assert forall|k: u32| !(#[trigger] is_open(f.e, Seq::empty(), k)) by {}
    assert forall|k: u32|
        #![trigger opened(all, k)]
        #![trigger closed(all, k)]
        opened(all, k) == closed(all, k) && opened(all, k) == if k < e.next_output_index {
            1nat
        } else {
            0
        } by {
        assert(item_fits(f.e, Seq::empty(), all, k));
        assert(!is_open(f.e, Seq::empty(), k));
    }
    assert forall|k: u32| #[trigger] responses::item_of(items, k) is Some implies k < e.next_output_index by {
        assert(item_fits(f.e, Seq::empty(), all, k));
    }
    assert forall|k: u32| k < e.next_output_index implies #[trigger] is_told(items, all, k) by {
        assert(item_fits(f.e, Seq::empty(), all, k));
        assert(!is_open(f.e, Seq::empty(), k));
    }
    (notes, items)
}

/// One event that does not end the response, behind `base`.
proof fn event_is_noted(e: EncoderV, ev: EventV, base: Seq<Note>) -> (r: Seq<Note>)
    requires
        kept(e, e.tool_states, base),
        !(ev is Stop),
        e.next_output_index < u32::MAX,
        ev matches EventV::ToolUseStart { index, .. } ==> responses::tool_at(e.tool_states, index, 0)
            == e.tool_states.len(),
    ensures
        ({
            let x = responses::encoded_event(e, ev);
            &&& noted(x, x.e.tool_states, base, r)
            &&& x.e.next_output_index <= e.next_output_index + 1
        }),
{
    let none = Seq::<Note>::empty();
    let w = responses::nothing_written(e);
    let ts = e.tool_states;
    let x = responses::encoded_event(e, ev);
    assert(stream_laws::frames_of(none) =~= Seq::empty());
    assert(base + none =~= base);
    match ev {
        EventV::Start { .. } => {
            let y = responses::nothing_written(x.e);
            same_is_noted(w, y, ts, base, none);
            let f = x.out[0];
            let rest = choose|rest: Seq<(Seq<char>, Tree)>|
                f == #[trigger] responses::event_frame("response.created"@, rest);
            small_is_noted(y, ts, base, none, "response.created"@, rest);
            none.push(note_of("response.created"@, rest))
        },
        EventV::TextDelta { text, .. } => delta_is_noted(w, ts, base, none, OutputItemKind::Text, text),
        EventV::ThinkingDelta { text, .. } => delta_is_noted(w, ts, base, none, OutputItemKind::Thinking, text),
        EventV::ToolUseStart { index, .. } => {
            let k = e.next_output_index;
            let f = x.out[0];
            let item = choose|item: Tree| f == #[trigger] responses::item_added_frame(k, item);
            let more = x.e.tool_states;
            tool_at_is_first(ts, index, 0);
            assert(more.len() == ts.len() + 1 && more.drop_last() =~= ts);
            assert forall|j: u32| #[trigger] is_open(x.e, more, j) == (is_open(e, ts, j) || j == k) by {
                assert(more[ts.len() as int].1.output_index == k);
                if exists|i: int| 0 <= i < ts.len() && (#[trigger] ts[i]).1.output_index == j {
                    let i = choose|i: int| 0 <= i < ts.len() && (#[trigger] ts[i]).1.output_index == j;
                    assert(more[i] == ts[i]);
                }
                if exists|i: int| 0 <= i < more.len() && (#[trigger] more[i]).1.output_index == j {
                    let i = choose|i: int| 0 <= i < more.len() && (#[trigger] more[i]).1.output_index == j;
                    assert(i < ts.len() ==> ts[i] == more[i]);
                }
            }
            assert(forall|i: int| 0 <= i < ts.len() ==> #[trigger] more[i] == ts[i]);
            opening_is_kept(e, x.e, ts, more, base, item);
            item_notes_are_about(k, item);
            one_note_more(w, base, none, added_note(k, item));
            none.push(added_note(k, item))
        },
        EventV::ToolUseDelta { index, .. } => {
            tool_at_is_first(ts, index, 0);
            let at = responses::tool_at(ts, index, 0);
            if at < ts.len() {
                let y = responses::nothing_written(x.e);
                alike_is_kept(e, x.e, ts, x.e.tool_states, base);
                let f = x.out[0];
                let rest = choose|rest: Seq<(Seq<char>, Tree)>|
                    f == #[trigger] responses::event_frame("response.function_call_arguments.delta"@, rest);
                small_is_noted(y, x.e.tool_states, base, none, "response.function_call_arguments.delta"@, rest);
                none.push(note_of("response.function_call_arguments.delta"@, rest))
            } else {
                none
            }
        },
        EventV::BlockStop { index } => {
            tool_at_is_first(ts, index, 0);
            let at = responses::tool_at(ts, index, 0);
            if at < ts.len() {
                let y = responses::nothing_written(EncoderV { tool_states: ts.remove(at), ..e });
                same_is_noted(w, y, ts, base, none);
                call_end_is_noted(y, ts, base, none, at, ts[at].1.arguments, "completed"@)
            } else {
                none
            }
        },
        _ => none,
    }
}

/// No event ends the response.
pub open spec fn goes_on(es: Seq<EventV>) -> bool {
    forall|n: int| 0 <= n < es.len() ==> !(#[trigger] es[n] is Stop)
}

proof fn stream_is_noted(model: Seq<char>, id: Seq<char>, created_at: i64, es: Seq<EventV>) -> (r: Seq<Note>)
    requires
        calls_start_once(responses::fresh_encoder(model, id, created_at), es),
        goes_on(es),
        es.len() <= u32::MAX,
    ensures
        ({
            let w = responses_written(responses::fresh_encoder(model, id, created_at), es);
            &&& w.out == stream_laws::frames_of(r)
            &&& kept(w.e, w.e.tool_states, r)
            &&& w.e.next_output_index <= es.len()
        }),
    decreases es.len(),
{
    let e = responses::fresh_encoder(model, id, created_at);
    if es.len() == 0 {
        let none = Seq::<Note>::empty();
        assert(stream_laws::frames_of(none) =~= Seq::empty());
        assert forall|k: u32| #[trigger] item_fits(e, e.tool_states, none, k) by {}
        none
    } else {
        let most = es.drop_last();
        most_calls_start_once(e, es);
        assert forall|n: int| 0 <= n < most.len() implies !(#[trigger] most[n] is Stop) by {
            assert(most[n] == es[n]);
        }
        assert(es.last() == es[es.len() - 1]);
        let notes = stream_is_noted(model, id, created_at, most);
        let w = responses_written(e, most);
        let more = event_is_noted(w.e, es.last(), notes);
        stream_laws::noted_both(notes, more);
        notes + more
    }
}

/// Every item fits what was put out.
pub open spec fn items_fit(e: EncoderV, notes: Seq<Note>) -> bool {
    forall|k: u32| #[trigger] item_fits(e, e.tool_states, notes, k)
}

/// At every moment of a Responses stream, before its end, every item was opened once, in
/// the order of the output indices, and closed once unless it is open. No two open items
/// share an index, no two calls a block, and what is finished stands in order.
pub proof fn responses_items_fit(model: Seq<char>, id: Seq<char>, created_at: i64, es: Seq<EventV>)
    requires
        calls_start_once(responses::fresh_encoder(model, id, created_at), es),
        goes_on(es),
        es.len() <= u32::MAX,
    ensures
        ({
            let w = responses_written(responses::fresh_encoder(model, id, created_at), es);
            &&& are_apart(w.e, w.e.tool_states)
            &&& responses::in_order(w.e.output_items)
            &&& exists|notes: Seq<Note>|
                w.out == #[trigger] stream_laws::frames_of(notes) && items_fit(w.e, notes)
        }),
{
    let notes = stream_is_noted(model, id, created_at, es);
    let w = responses_written(responses::fresh_encoder(model, id, created_at), es);
    assert(w.out == stream_laws::frames_of(notes) && items_fit(w.e, notes));
}

/// A call that started with the `n`th event was not closed again.
pub open spec fn call_goes_on(es: Seq<EventV>, n: int) -> bool {
    &&& 0 <= n < es.len()
    &&& es[n] matches EventV::ToolUseStart { index, .. } && forall|m: int|
        n < m < es.len() ==> !(#[trigger] es[m] matches EventV::BlockStop { index: i } && i == index)
}

/// The arguments that are told of a block behind the `n`th event.
pub open spec fn arguments_told(es: Seq<EventV>, n: int, index: u32) -> Seq<char>
    decreases es.len(),
{
    if es.len() == 0 || es.len() <= n + 1 {
        Seq::empty()
    } else {
        match es.last() {
            EventV::ToolUseDelta { index: i, partial_json } if i == index => arguments_told(
                es.drop_last(),
                n,
                index,
            ) + partial_json,
            _ => arguments_told(es.drop_last(), n, index),
        }
    }
}

/// The call that started with the `n`th event, as far as it was told.
pub open spec fn call_told(es: Seq<EventV>, n: int, output_index: u32) -> ToolStateV {
    let ev = es[n];
    ToolStateV {
        output_index,
        item_id: "fc_"@ + ev->ToolUseStart_id,
        call_id: ev->ToolUseStart_id,
        name: ev->ToolUseStart_name,
        arguments: arguments_told(es, n, ev->ToolUseStart_index),
    }
}

/// The call that started with the `n`th event is still going.
spec fn is_kept(ts: Seq<(u32, ToolStateV)>, es: Seq<EventV>, n: int) -> bool {
    exists|i: int|
        0 <= i < ts.len() && (#[trigger] ts[i]) == (
            es[n]->ToolUseStart_index,
            call_told(es, n, ts[i].1.output_index),
        )
}

/// What an event that does not close a call makes of it.
spec fn call_after(t: ToolStateV, index: u32, ev: EventV) -> ToolStateV {
    match ev {
        EventV::ToolUseDelta { index: i, partial_json } if i == index => ToolStateV {
            arguments: t.arguments + partial_json,
            ..t
        },
        _ => t,
    }
}

/// A call that an event neither closes nor replaces stays.
proof fn call_stays(e: EncoderV, ev: EventV, i: int) -> (r: int)
    requires
        0 <= i < e.tool_states.len(),
        forall|a: int, b: int|
            0 <= a < b < e.tool_states.len() ==> (#[trigger] e.tool_states[a]).0 != (#[trigger] e.tool_states[b]).0,
        !(ev is Stop),
        !(ev matches EventV::BlockStop { index } && index == e.tool_states[i].0),
        ev matches EventV::ToolUseStart { index, .. } ==> responses::tool_at(e.tool_states, index, 0)
            == e.tool_states.len(),
    ensures
        ({
            let after = responses::encoded_event(e, ev).e.tool_states;
            let (index, t) = e.tool_states[i];
            0 <= r < after.len() && after[r] == (index, call_after(t, index, ev))
        }),
{
    let ts = e.tool_states;
    let after = responses::encoded_event(e, ev).e.tool_states;
    match ev {
        EventV::TextDelta { text, .. } => {
            same_calls(responses::nothing_written(e), OutputItemKind::Text, text);
            i
        },
        EventV::ThinkingDelta { text, .. } => {
            same_calls(responses::nothing_written(e), OutputItemKind::Thinking, text);
            i
        },
        EventV::ToolUseStart { .. } => i,
        EventV::ToolUseDelta { index, .. } => {
            tool_at_is_first(ts, index, 0);
            let at = responses::tool_at(ts, index, 0);
            if index == ts[i].0 && at != i {
                assert(at < i);
                assert(ts[at].0 != ts[i].0);
            }
            i
        },
        EventV::BlockStop { index } => {
            tool_at_is_first(ts, index, 0);
            let at = responses::tool_at(ts, index, 0);
            if at < i {
                assert(after == ts.remove(at));
                i - 1
            } else {
                i
            }
        },
        _ => i,
    }
}

proof fn call_is_kept(model: Seq<char>, id: Seq<char>, created_at: i64, es: Seq<EventV>, n: int)
    requires
        calls_start_once(responses::fresh_encoder(model, id, created_at), es),
        goes_on(es),
        es.len() <= u32::MAX,
        call_goes_on(es, n),
    ensures
        is_kept(responses_written(responses::fresh_encoder(model, id, created_at), es).e.tool_states, es, n),
    decreases es.len(),
{
    let e = responses::fresh_encoder(model, id, created_at);
    let most = es.drop_last();
    let w = responses_written(e, most).e;
    let ts = w.tool_states;
    let ev = es.last();
    let after = responses_written(e, es).e.tool_states;
    let index = es[n]->ToolUseStart_index;
    most_calls_start_once(e, es);
    assert(ev == es[es.len() - 1]);
    if n == es.len() - 1 {
        assert(after[ts.len() as int] == (index, call_told(es, n, w.next_output_index)));
    } else {
        assert(most[n] == es[n]);
        assert(call_goes_on(most, n)) by {
            assert(forall|m: int| 0 <= m < most.len() ==> #[trigger] most[m] == es[m]);
        }
        assert(goes_on(most)) by {
            assert(forall|m: int| 0 <= m < most.len() ==> #[trigger] most[m] == es[m]);
        }
        call_is_kept(model, id, created_at, most, n);
        let i = choose|i: int|
            0 <= i < ts.len() && (#[trigger] ts[i]) == (
                most[n]->ToolUseStart_index,
                call_told(most, n, ts[i].1.output_index),
            );
        assert(are_apart(w, ts)) by {
            let notes = stream_is_noted(model, id, created_at, most);
        }
        let j = call_stays(w, ev, i);
        assert(after[j] == (index, call_told(es, n, ts[i].1.output_index)));
    }
}

proof fn same_calls(w: Written, kind: OutputItemKind, t: Seq<char>)
    ensures
        w.delta(kind, t).e.tool_states == w.e.tool_states,
{
}

/// The output lists the call that started with the `n`th event as incomplete.
pub open spec fn is_listed_incomplete(items: Seq<(u32, Tree)>, es: Seq<EventV>, n: int) -> bool {
    exists|k: u32| #[trigger]
        responses::item_of(items, k) == Some(responses::call_item(call_told(es, n, k), "incomplete"@))
}

/// Every call that was never closed is listed as incomplete.
pub open spec fn lists_open_calls(items: Seq<(u32, Tree)>, es: Seq<EventV>) -> bool {
    forall|n: int| #[trigger] call_goes_on(es, n) ==> is_listed_incomplete(items, es, n)
}

/// The events up to the end of the response.
pub open spec fn body(es: Seq<EventV>) -> Seq<EventV> {
    if es.len() > 0 && es.last() is Stop {
        es.drop_last()
    } else {
        es
    }
}

/// The status that the end tells: an end that no stop announced is incomplete where a
/// call is still going.
pub open spec fn told_status(before: EncoderV, es: Seq<EventV>) -> Seq<char> {
    if told_usage(es) is None && before.tool_states.len() > 0 {
        "incomplete"@
    } else {
        "completed"@
    }
}

/// The usage that the end tells: that of the stop.
pub open spec fn told_usage(es: Seq<EventV>) -> Option<Usage> {
    if es.len() > 0 && es.last() is Stop {
        Some(es.last()->Stop_usage)
    } else {
        None
    }
}

/// All the frames of a stream, to its end.
pub open spec fn all_written(e: EncoderV, es: Seq<EventV>) -> Seq<FrameV> {
    let w = responses_written(e, es);
    w.out + responses::encoded_finish(w.e).out
}

proof fn body_goes_on(e: EncoderV, es: Seq<EventV>)
    requires
        calls_start_once(e, es),
        stream_laws::stops_last(es),
    ensures
        calls_start_once(e, body(es)),
        goes_on(body(es)),
{
    let most = body(es);
    if es.len() > 0 {
        most_calls_start_once(e, es);
    }
    assert forall|n: int| 0 <= n < most.len() implies !(#[trigger] most[n] is Stop) by {
        assert(most[n] == es[n]);
        if n == es.len() - 1 {
            assert(es.last() == es[n]);
        }
    }
}

/// The end that a stop makes.
proof fn stop_is_whole(e: EncoderV, es: Seq<EventV>, base: Seq<Note>) -> (r: (Seq<Note>, Seq<(u32, Tree)>))
    requires
        es.len() > 0,
        es.last() is Stop,
        ({
            let w = responses_written(e, es.drop_last());
            w.out == stream_laws::frames_of(base) && kept(w.e, w.e.tool_states, base)
        }),
    ensures
        is_whole(
            responses_written(e, body(es)).e,
            all_written(e, es),
            r.0,
            r.1,
            told_status(responses_written(e, body(es)).e, es),
            told_usage(es),
        ),
        responses::encoded_finish(responses_written(e, es).e).out.len() == 0,
{
    let before = responses_written(e, body(es)).e;
    let w = responses_written(e, es);
    let usage = es.last()->Stop_usage;
    let r = end_is_noted(before, base, "completed"@, Some(usage));
    assert(w.e.done);
    assert(all_written(e, es) =~= w.out);
    (base + r.0, r.1)
}

/// The end where no stop came.
proof fn finish_is_whole(e: EncoderV, es: Seq<EventV>, base: Seq<Note>) -> (r: (Seq<Note>, Seq<(u32, Tree)>))
    requires
        !(es.len() > 0 && es.last() is Stop),
        ({
            let w = responses_written(e, es);
            w.out == stream_laws::frames_of(base) && kept(w.e, w.e.tool_states, base) && !w.e.done
        }),
    ensures
        is_whole(
            responses_written(e, body(es)).e,
            all_written(e, es),
            r.0,
            r.1,
            told_status(responses_written(e, body(es)).e, es),
            told_usage(es),
        ),
{
    let before = responses_written(e, es).e;
    let d = EncoderV { done: true, ..before };
    let none = Seq::<Note>::empty();
    let w = responses::nothing_written(d);
    alike_is_kept(before, d, before.tool_states, d.tool_states, base);
    assert(stream_laws::frames_of(none) =~= Seq::empty());
    assert(base + none =~= base);
    let a = item_close_is_noted(w, d.tool_states, base, none);
    let status = told_status(before, es);
    let r = end_is_noted(d, base, status, None);
    assert(responses::encoded_finish(before) == w.close_item().flush_all().complete(status, None));
    let x = EncoderV { output_items: r.1, ..d };
    let y = EncoderV { output_items: r.1, ..before };
    assert(x.output() == y.output());
    assert(x.completed(status, None) == y.completed(status, None));
    (base + r.0, r.1)
}

/// A whole Responses stream opens every item once, in the order of the output indices,
/// and closes it once. Its last frame, the only one of its kind, ends the response: it
/// tells the usage of the stop and lists the finished items in the order of their output
/// indices, each as its own last frame told it, and a call that was never closed as
/// incomplete. Behind a stop nothing more comes.
pub proof fn responses_items_pair_up(model: Seq<char>, id: Seq<char>, created_at: i64, es: Seq<EventV>)
    requires
        calls_start_once(responses::fresh_encoder(model, id, created_at), es),
        stream_laws::stops_last(es),
        es.len() <= u32::MAX,
    ensures
        ({
            let e = responses::fresh_encoder(model, id, created_at);
            let before = responses_written(e, body(es)).e;
            let out = all_written(e, es);
            let status = told_status(before, es);
            let usage = told_usage(es);
            &&& exists|notes: Seq<Note>, items: Seq<(u32, Tree)>|
                {
                    &&& #[trigger] is_whole(before, out, notes, items, status, usage)
                    &&& lists_open_calls(items, body(es))
                }
            &&& stream_laws::count(out, "response.completed"@) == 1
            &&& es.len() > 0 && es.last() is Stop ==> responses::encoded_finish(
                responses_written(e, es).e,
            ).out.len() == 0
        }),
{
    let e = responses::fresh_encoder(model, id, created_at);
    let most = body(es);
    let before = responses_written(e, most).e;
    responses_streams_are_whole(model, id, created_at, es);
    responses_stops(model, id, created_at, es);
    body_goes_on(e, es);
    let base = stream_is_noted(model, id, created_at, most);
    let r = if es.len() > 0 && es.last() is Stop {
        stop_is_whole(e, es, base)
    } else {
        finish_is_whole(e, es, base)
    };
    assert forall|n: int| #[trigger] call_goes_on(most, n) implies is_listed_incomplete(r.1, most, n) by {
        call_is_kept(model, id, created_at, most, n);
        let ts = before.tool_states;
        let i = choose|i: int|
            0 <= i < ts.len() && (#[trigger] ts[i]) == (
                most[n]->ToolUseStart_index,
                call_told(most, n, ts[i].1.output_index),
            );
        let k = ts[i].1.output_index;
        assert(responses::item_of(r.1, k) == Some(responses::call_item(call_told(most, n, k), "incomplete"@)));
    }
}

} // verus!
