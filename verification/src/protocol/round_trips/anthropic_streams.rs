//! What reading gives back of Anthropic streams that were written.

use crate::error::ErrorV;
use crate::ir::{EventV, StopReason, Usage};
use crate::json;
use crate::json::{Build, Lookup, Tree};
use crate::protocol::anthropic;
use crate::protocol::anthropic::{EncoderV, OpenKind, ParserV, Step, Written};
use crate::protocol::round_trips;
use crate::protocol::sse::FrameV;
use vstd::prelude::*;

verus! {

/// A parser that has read a number of frames, with all their events.
pub open spec fn read(p: ParserV, frames: Seq<FrameV>) -> Result<Step, ErrorV>
    decreases frames.len(),
{
    if frames.len() == 0 {
        Ok(anthropic::no_event(p))
    } else {
        match read(p, frames.drop_last()) {
            Err(e) => Err(e),
            Ok(s) => match anthropic::push_frame(s.p, frames.last()) {
                Err(e) => Err(e),
                Ok(t) => Ok(Step { p: t.p, out: s.out + t.out }),
            },
        }
    }
}

/// The indices of the blocks that are open.
pub open spec fn indices(open: Seq<(u32, OpenKind)>) -> Seq<u32> {
    Seq::new(open.len(), |i: int| open[i].0)
}

/// The reader knows what the writer has begun and what it has open.
pub open spec fn in_step(e: EncoderV, p: ParserV) -> bool {
    &&& p.started == e.started
    &&& p.open == indices(e.open)
    &&& anthropic::open_once(e.open)
}

/// The counters that the start of a message tells.
pub open spec fn told_usage(u: Usage) -> Usage {
    Usage { reasoning_tokens: 0, ..u }
}

/// The start of a message, where it was not told yet.
pub open spec fn begun(e: EncoderV) -> Seq<EventV> {
    if e.started {
        Seq::empty()
    } else {
        Seq::empty().push(EventV::Start { id: e.id, model: e.model, usage: told_usage(e.usage) })
    }
}

/// A block that is open as another kind is closed first.
pub open spec fn switched(e: EncoderV, index: u32, kind: OpenKind) -> Seq<EventV> {
    let at = anthropic::open_at(e.open, index, 0);
    if 0 <= at < e.open.len() && e.open[at].1 != kind {
        Seq::empty().push(EventV::BlockStop { index })
    } else {
        Seq::empty()
    }
}

pub open spec fn is_open(e: EncoderV, index: u32) -> bool {
    0 <= anthropic::open_at(e.open, index, 0) < e.open.len()
}

pub open spec fn is_open_as(e: EncoderV, index: u32, kind: OpenKind) -> bool {
    is_open(e, index) && e.open[anthropic::open_at(e.open, index, 0)].1 == kind
}

/// The events that a reader is told of one event: the event itself, behind the start
/// of the message and the ends of blocks that had to go before it. A tool call that
/// goes on, the end of a block that is not open, and a second start tell nothing.
pub open spec fn told(e: EncoderV, p: ParserV, ev: EventV) -> Seq<EventV> {
    match ev {
        EventV::Start { id, model, usage } => begun(EncoderV { id, model, usage, ..e }),
        EventV::TextDelta { index, .. } => (begun(e) + switched(e, index, OpenKind::Text)).push(ev),
        EventV::ThinkingDelta { index, .. } => (begun(e) + switched(e, index, OpenKind::Thinking)).push(ev),
        EventV::ThinkingSignature { index, .. } => (begun(e) + switched(e, index, OpenKind::Thinking)).push(ev),
        EventV::RedactedThinking { index, .. } => begun(e).push(ev).push(EventV::BlockStop { index }),
        EventV::ToolUseStart { index, .. } => if is_open_as(e, index, OpenKind::ToolUse) {
            begun(e)
        } else {
            (begun(e) + switched(e, index, OpenKind::ToolUse)).push(ev)
        },
        EventV::ToolUseDelta { .. } => begun(e).push(ev),
        EventV::BlockStop { index } => if is_open(e, index) { Seq::empty().push(ev) } else { Seq::empty() },
        EventV::Stop { stop_reason, stop_sequence, usage } => (begun(e) + anthropic::block_stops(indices(e.open))).push(
            EventV::Stop {
                stop_reason,
                stop_sequence,
                usage: Usage {
                    output_tokens: usage.output_tokens,
                    ..if e.started { p.usage } else { told_usage(e.usage) }
                },
            },
        ),
        EventV::Ping => Seq::empty().push(ev),
    }
}

// -------------------------------------------------------------------- frames

/// The names in the frames of a stream, as far as it takes to tell them apart.
proof fn frame_names()
    ensures
        "id"@.len() == 2,
        "type"@.len() == 4 && "type"@[0] == 't' && "type"@[1] == 'y',
        "text"@.len() == 4 && "text"@[0] == 't' && "text"@[1] == 'e',
        "role"@.len() == 4 && "role"@[0] == 'r',
        "name"@.len() == 4 && "name"@[0] == 'n',
        "data"@.len() == 4 && "data"@[0] == 'd',
        "ping"@.len() == 4 && "ping"@[0] == 'p',
        "model"@.len() == 5 && "model"@[0] == 'm',
        "usage"@.len() == 5 && "usage"@[0] == 'u',
        "index"@.len() == 5 && "index"@[0] == 'i' && "index"@[2] == 'd',
        "input"@.len() == 5 && "input"@[0] == 'i' && "input"@[2] == 'p',
        "delta"@.len() == 5 && "delta"@[0] == 'd',
        "content"@.len() == 7 && "content"@[0] == 'c',
        "message"@.len() == 7 && "message"@[0] == 'm',
        "thinking"@.len() == 8 && "thinking"@[1] == 'h',
        "tool_use"@.len() == 8 && "tool_use"@[1] == 'o',
        "signature"@.len() == 9,
        "text_delta"@.len() == 10,
        "stop_reason"@.len() == 11,
        "message_stop"@.len() == 12 && "message_stop"@[0] == 'm',
        "partial_json"@.len() == 12 && "partial_json"@[0] == 'p',
        "stop_sequence"@.len() == 13 && "stop_sequence"@[0] == 's' && "stop_sequence"@[1] == 't',
        "message_start"@.len() == 13 && "message_start"@[0] == 'm' && "message_start"@[8] == 's',
        "message_delta"@.len() == 13 && "message_delta"@[0] == 'm' && "message_delta"@[8] == 'd',
        "content_block"@.len() == 13 && "content_block"@[0] == 'c',
        "output_tokens"@.len() == 13 && "output_tokens"@[0] == 'o',
        "input_tokens"@.len() == 12 && "input_tokens"@[0] == 'i',
        "thinking_delta"@.len() == 14,
        "signature_delta"@.len() == 15,
        "input_json_delta"@.len() == 16,
        "redacted_thinking"@.len() == 17,
        "content_block_stop"@.len() == 18,
        "content_block_start"@.len() == 19 && "content_block_start"@[14] == 's',
        "content_block_delta"@.len() == 19 && "content_block_delta"@[14] == 'd',
        "cache_read_input_tokens"@.len() == 23,
        "cache_creation_input_tokens"@.len() == 27,
{
    reveal_strlit("id");
    reveal_strlit("type");
    reveal_strlit("text");
    reveal_strlit("role");
    reveal_strlit("name");
    reveal_strlit("data");
    reveal_strlit("ping");
    reveal_strlit("model");
    reveal_strlit("usage");
    reveal_strlit("index");
    reveal_strlit("input");
    reveal_strlit("delta");
    reveal_strlit("content");
    reveal_strlit("message");
    reveal_strlit("thinking");
    reveal_strlit("tool_use");
    reveal_strlit("signature");
    reveal_strlit("text_delta");
    reveal_strlit("stop_reason");
    reveal_strlit("message_stop");
    reveal_strlit("partial_json");
    reveal_strlit("stop_sequence");
    reveal_strlit("message_start");
    reveal_strlit("message_delta");
    reveal_strlit("content_block");
    reveal_strlit("output_tokens");
    reveal_strlit("input_tokens");
    reveal_strlit("thinking_delta");
    reveal_strlit("signature_delta");
    reveal_strlit("input_json_delta");
    reveal_strlit("redacted_thinking");
    reveal_strlit("content_block_stop");
    reveal_strlit("content_block_start");
    reveal_strlit("content_block_delta");
    reveal_strlit("cache_read_input_tokens");
    reveal_strlit("cache_creation_input_tokens");
}

proof fn typed_is_settled(t: Seq<char>)
    ensures
        round_trips::settled(anthropic::type_only(t)),
{
    round_trips::nothing_is_settled();
    round_trips::grows(json::fs(), "type"@, json::st(t));
}

proof fn frame_is_read(p: ParserV, event: Seq<char>, m: Seq<(Seq<char>, Tree)>)
    requires
        round_trips::legible(anthropic::named_frame(event, Tree::Obj(m))),
        round_trips::settled(m),
    ensures
        anthropic::push_frame(p, anthropic::named_frame(event, Tree::Obj(m))) == anthropic::push_payload(
            p,
            event,
            Tree::Obj(m),
        ),
{
    let f = anthropic::named_frame(event, Tree::Obj(m));
    assert(f.data == json::rendered(Tree::Obj(m)));
}

proof fn stop_is_read(p: ParserV, index: u32)
    requires
        round_trips::legible(anthropic::stop_frame(index)),
    ensures
        anthropic::push_frame(p, anthropic::stop_frame(index)) == Ok::<Step, ErrorV>(
            anthropic::one_event(
                ParserV { open: anthropic::but(p.open, index, 0, Seq::empty()), ..p },
                EventV::BlockStop { index },
            ),
        ),
{
    frame_names();
    reveal_with_fuel(json::find_from, 3);
    let m = anthropic::type_only("content_block_stop"@);
    typed_is_settled("content_block_stop"@);
    round_trips::grows(m, "index"@, json::num(index as int));
    frame_is_read(p, "content_block_stop"@, m.with("index"@, json::num(index as int)));
}

proof fn start_is_read(p: ParserV, index: u32, block: Tree)
    requires
        round_trips::legible(anthropic::named_frame("content_block_start"@, anthropic::start_data(index, block))),
        json::canonical(block) == block,
    ensures
        anthropic::push_frame(
            p,
            anthropic::named_frame("content_block_start"@, anthropic::start_data(index, block)),
        ) == Ok::<Step, ErrorV>(anthropic::block_start(p, index, Some(block))),
{
    frame_names();
    reveal_with_fuel(json::find_from, 4);
    let a = anthropic::type_only("content_block_start"@);
    typed_is_settled("content_block_start"@);
    round_trips::grows(a, "index"@, json::num(index as int));
    let b = a.with("index"@, json::num(index as int));
    round_trips::grows(b, "content_block"@, block);
    frame_is_read(p, "content_block_start"@, b.with("content_block"@, block));
}

proof fn delta_is_read(p: ParserV, index: u32, kind: Seq<char>, key: Seq<char>, v: Seq<char>)
    requires
        round_trips::legible(anthropic::delta_frame(index, kind, key, v)),
        key != "type"@,
    ensures
        ({
            let d = Tree::Obj(anthropic::type_only(kind).with(key, json::st(v)));
            &&& d.at("type"@) == Some(json::st(kind))
            &&& d.at(key) == Some(json::st(v))
            &&& anthropic::push_frame(p, anthropic::delta_frame(index, kind, key, v)) == Ok::<Step, ErrorV>(
                match anthropic::block_delta(index, Some(d)) {
                    Some(e) => anthropic::one_event(p, e),
                    None => anthropic::no_event(p),
                },
            )
        }),
{
    frame_names();
    reveal_with_fuel(json::find_from, 4);
    let inner = anthropic::type_only(kind);
    typed_is_settled(kind);
    round_trips::grows(inner, key, json::st(v));
    let d = Tree::Obj(inner.with(key, json::st(v)));
    let a = anthropic::type_only("content_block_delta"@);
    typed_is_settled("content_block_delta"@);
    round_trips::grows(a, "index"@, json::num(index as int));
    let b = a.with("index"@, json::num(index as int));
    round_trips::grows(b, "delta"@, d);
    frame_is_read(p, "content_block_delta"@, b.with("delta"@, d));
}

proof fn usage_is_settled(u: Usage)
    ensures
        json::canonical(anthropic::usage_out(u)) == anthropic::usage_out(u),
        anthropic::usage_of(Some(anthropic::usage_out(u))) == told_usage(u),
{
    frame_names();
    reveal_with_fuel(json::find_from, 5);
    round_trips::nothing_is_settled();
    let a = json::fs();
    round_trips::grows(a, "input_tokens"@, json::num(u.input_tokens as int));
    let b = a.with("input_tokens"@, json::num(u.input_tokens as int));
    round_trips::grows(b, "output_tokens"@, json::num(u.output_tokens as int));
    let c = b.with("output_tokens"@, json::num(u.output_tokens as int));
    round_trips::grows(c, "cache_read_input_tokens"@, json::num(u.cache_read_tokens as int));
    let d = c.with("cache_read_input_tokens"@, json::num(u.cache_read_tokens as int));
    round_trips::grows(d, "cache_creation_input_tokens"@, json::num(u.cache_write_tokens as int));
}

spec fn message_head(e: EncoderV) -> Seq<(Seq<char>, Tree)> {
    json::fs().with("id"@, json::st(e.id)).with("type"@, json::st("message"@)).with("role"@, json::st("assistant"@)).with(
        "model"@,
        json::st(e.model),
    )
}

spec fn message_fields(e: EncoderV) -> Seq<(Seq<char>, Tree)> {
    message_head(e).with("content"@, Tree::Arr(Seq::empty())).with("stop_reason"@, Tree::Null).with(
        "stop_sequence"@,
        Tree::Null,
    ).with("usage"@, anthropic::usage_out(e.usage))
}

proof fn head_is_settled(e: EncoderV)
    ensures
        round_trips::settled(message_head(e)),
{
    frame_names();
    reveal_with_fuel(json::find_from, 4);
    round_trips::nothing_is_settled();
    let a = json::fs();
    round_trips::grows(a, "id"@, json::st(e.id));
    let b = a.with("id"@, json::st(e.id));
    round_trips::grows(b, "type"@, json::st("message"@));
    let c = b.with("type"@, json::st("message"@));
    round_trips::grows(c, "role"@, json::st("assistant"@));
    let d = c.with("role"@, json::st("assistant"@));
    round_trips::grows(d, "model"@, json::st(e.model));
}

proof fn message_is_settled(e: EncoderV)
    ensures
        round_trips::settled(message_fields(e)),
{
    frame_names();
    reveal_with_fuel(json::find_from, 8);
    head_is_settled(e);
    usage_is_settled(e.usage);
    let none = Tree::Arr(Seq::empty());
    assert(json::canonical(none)->Arr_0 =~= Seq::<Tree>::empty());
    let a = message_head(e);
    round_trips::grows(a, "content"@, none);
    let b = a.with("content"@, none);
    round_trips::grows(b, "stop_reason"@, Tree::Null);
    let c = b.with("stop_reason"@, Tree::Null);
    round_trips::grows(c, "stop_sequence"@, Tree::Null);
    let d = c.with("stop_sequence"@, Tree::Null);
    round_trips::grows(d, "usage"@, anthropic::usage_out(e.usage));
}

spec fn first_frame(e: EncoderV) -> FrameV {
    anthropic::named_frame(
        "message_start"@,
        Tree::Obj(anthropic::type_only("message_start"@).with("message"@, Tree::Obj(message_fields(e)))),
    )
}

proof fn first_frame_is_read(p: ParserV, e: EncoderV)
    requires
        round_trips::legible(first_frame(e)),
    ensures
        anthropic::push_frame(p, first_frame(e)) == Ok::<Step, ErrorV>(
            anthropic::one_event(
                ParserV { usage: told_usage(e.usage), started: true, ..p },
                EventV::Start { id: e.id, model: e.model, usage: told_usage(e.usage) },
            ),
        ),
{
    frame_names();
    reveal_with_fuel(json::find_from, 9);
    message_is_settled(e);
    usage_is_settled(e.usage);
    let a = anthropic::type_only("message_start"@);
    typed_is_settled("message_start"@);
    let msg = Tree::Obj(message_fields(e));
    round_trips::grows(a, "message"@, msg);
    assert(msg.at("id"@) == Some(json::st(e.id)));
    assert(msg.at("model"@) == Some(json::st(e.model)));
    assert(msg.at("usage"@) == Some(anthropic::usage_out(e.usage)));
    frame_is_read(p, "message_start"@, a.with("message"@, msg));
}

spec fn last_delta(reason: Tree, sequence: Tree) -> Seq<(Seq<char>, Tree)> {
    json::fs().with("stop_reason"@, reason).with("stop_sequence"@, sequence)
}

spec fn last_usage(u: Usage) -> Seq<(Seq<char>, Tree)> {
    json::fs().with("output_tokens"@, json::num(u.output_tokens as int))
}

spec fn last_frame(u: Usage, reason: Tree, sequence: Tree) -> FrameV {
    anthropic::named_frame(
        "message_delta"@,
        Tree::Obj(
            anthropic::type_only("message_delta"@).with("delta"@, Tree::Obj(last_delta(reason, sequence))).with(
                "usage"@,
                Tree::Obj(last_usage(u)),
            ),
        ),
    )
}

proof fn last_frame_is_read(p: ParserV, u: Usage, reason: Option<Seq<char>>, sequence: Option<Seq<char>>)
    requires
        round_trips::legible(last_frame(u, anthropic::text_or_null(reason), anthropic::text_or_null(sequence))),
    ensures
        ({
            let usage = Usage { output_tokens: u.output_tokens, ..p.usage };
            anthropic::push_frame(
                p,
                last_frame(u, anthropic::text_or_null(reason), anthropic::text_or_null(sequence)),
            ) == Ok::<Step, ErrorV>(
                anthropic::one_event(
                    ParserV { usage, stopped: true, ..p },
                    EventV::Stop {
                        stop_reason: match reason {
                            Some(s) => anthropic::stop_reason(s),
                            None => StopReason::Unknown,
                        },
                        stop_sequence: sequence,
                        usage,
                    },
                ),
            )
        }),
{
    frame_names();
    reveal_with_fuel(json::find_from, 4);
    let r = anthropic::text_or_null(reason);
    let q = anthropic::text_or_null(sequence);
    round_trips::nothing_is_settled();
    round_trips::grows(json::fs(), "stop_reason"@, r);
    round_trips::grows(json::fs().with("stop_reason"@, r), "stop_sequence"@, q);
    round_trips::grows(json::fs(), "output_tokens"@, json::num(u.output_tokens as int));
    let d = Tree::Obj(last_delta(r, q));
    let n = Tree::Obj(last_usage(u));
    let a = anthropic::type_only("message_delta"@);
    typed_is_settled("message_delta"@);
    round_trips::grows(a, "delta"@, d);
    round_trips::grows(a.with("delta"@, d), "usage"@, n);
    assert(anthropic::usage_of(Some(n)).output_tokens == u.output_tokens);
    assert(anthropic::usage_of(Some(n)).input_tokens == 0);
    assert(d.at("stop_reason"@) == Some(r) && d.at("stop_sequence"@) == Some(q));
    frame_is_read(p, "message_delta"@, a.with("delta"@, d).with("usage"@, n));
}

proof fn bare_frame_is_read(p: ParserV, event: Seq<char>)
    requires
        round_trips::legible(anthropic::named_frame(event, Tree::Obj(anthropic::type_only(event)))),
        event == "ping"@ || event == "message_stop"@,
    ensures
        anthropic::push_frame(p, anthropic::named_frame(event, Tree::Obj(anthropic::type_only(event)))) == Ok::<
            Step,
            ErrorV,
        >(
            if event == "ping"@ {
                anthropic::one_event(p, EventV::Ping)
            } else {
                anthropic::no_event(p)
            },
        ),
{
    frame_names();
    reveal_strlit("error");
    assert("error"@.len() == 5);
    typed_is_settled(event);
    frame_is_read(p, event, anthropic::type_only(event));
}

// ------------------------------------------------------------------- reading

/// The frames of a writer so far, read: the parser and the events.
spec fn reads_as(p: ParserV, w: Written, q: ParserV, out: Seq<EventV>) -> bool {
    read(p, w.out) == Ok::<Step, ErrorV>(Step { p: q, out })
}

/// One frame more.
proof fn frame_more(p: ParserV, w: Written, q: ParserV, out: Seq<EventV>, f: FrameV)
    requires
        reads_as(p, w, q, out),
        anthropic::push_frame(q, f) is Ok,
    ensures
        ({
            let s = anthropic::push_frame(q, f)->Ok_0;
            reads_as(p, w.emit(f), s.p, out + s.out)
        }),
{
    assert(w.emit(f).out.drop_last() =~= w.out);
}

proof fn but_gathers(open: Seq<(u32, OpenKind)>, index: u32, i: int, acc: Seq<u32>)
    requires
        0 <= i <= open.len(),
        forall|j: int| i <= j < open.len() ==> (#[trigger] open[j]).0 != index,
    ensures
        anthropic::but(indices(open), index, i, acc) == acc + indices(open).skip(i),
    decreases open.len() - i,
{
    let all = indices(open);
    if i < open.len() {
        assert(open[i].0 != index);
        but_gathers(open, index, i + 1, acc.push(all[i]));
        assert(acc.push(all[i]) + all.skip(i + 1) =~= acc + all.skip(i));
    } else {
        assert(acc + all.skip(i) =~= acc);
    }
}

proof fn but_leaves_out(open: Seq<(u32, OpenKind)>, index: u32, at: int, i: int)
    requires
        0 <= i <= at < open.len(),
        open[at].0 == index,
        anthropic::open_once(open),
    ensures
        anthropic::but(indices(open), index, i, indices(open).take(i)) == indices(open.remove(at)),
    decreases at - i,
{
    let all = indices(open);
    if i < at {
        assert(open[i].0 != open[at].0);
        but_leaves_out(open, index, at, i + 1);
        assert(all.take(i).push(all[i]) =~= all.take(i + 1));
    } else {
        assert forall|j: int| at < j < open.len() implies (#[trigger] open[j]).0 != index by {
            assert(open[at].0 != open[j].0);
        }
        but_gathers(open, index, at + 1, all.take(at));
        assert(all.take(at) + all.skip(at + 1) =~= indices(open.remove(at)));
    }
}

/// A reader drops a block as the writer does.
proof fn but_removes(open: Seq<(u32, OpenKind)>, index: u32, at: int)
    requires
        0 <= at < open.len(),
        open[at].0 == index,
        anthropic::open_once(open),
    ensures
        anthropic::but(indices(open), index, 0, Seq::empty()) == indices(open.remove(at)),
{
    but_leaves_out(open, index, at, 0);
    assert(indices(open).take(0) =~= Seq::empty());
}

proof fn frames_before(w: Written, f: FrameV)
    requires
        round_trips::all_legible(w.emit(f).out),
    ensures
        round_trips::all_legible(w.out),
        round_trips::legible(f),
{
    let all = w.emit(f).out;
    assert forall|i: int| 0 <= i < w.out.len() implies round_trips::legible(#[trigger] w.out[i]) by {
        assert(all[i] == w.out[i]);
    }
    assert(all[w.out.len() as int] == f);
}

/// Nothing written yet.
spec fn blank(e: EncoderV) -> Written {
    Written { e, out: Seq::empty() }
}

/// The reader, once the start of the message is told.
spec fn after_begin(e: EncoderV, p: ParserV) -> ParserV {
    if e.started {
        p
    } else {
        ParserV { usage: told_usage(e.usage), started: true, ..p }
    }
}

proof fn begin_is_read(e: EncoderV, p: ParserV)
    requires
        round_trips::all_legible(blank(e).ensure_started().out),
    ensures
        reads_as(p, blank(e).ensure_started(), after_begin(e, p), begun(e)),
        blank(e).ensure_started().e == (EncoderV { started: true, ..e }),
{
    let w = blank(e);
    assert(reads_as(p, w, p, Seq::empty()));
    if !e.started {
        let w1 = Written { e: EncoderV { started: true, ..e }, ..w };
        assert(reads_as(p, w1, p, Seq::empty()));
        let f = first_frame(e);
        assert(w.ensure_started() == w1.emit(f));
        frames_before(w1, f);
        first_frame_is_read(p, e);
        frame_more(p, w1, p, Seq::empty(), f);
        assert(Seq::<EventV>::empty() + anthropic::push_frame(p, f)->Ok_0.out =~= begun(e));
    }
}

/// The events of a block that is opened.
spec fn opened(e: EncoderV, p: ParserV, index: u32, kind: OpenKind, block: Tree) -> Seq<EventV> {
    if is_open_as(e, index, kind) {
        Seq::empty()
    } else {
        anthropic::block_start(p, index, Some(block)).out
    }
}

proof fn block_is_read(e: EncoderV, p: ParserV, index: u32, kind: OpenKind, block: Tree)
    requires
        in_step(e, p),
        json::canonical(block) == block,
        round_trips::all_legible(blank(e).ensure_block(index, kind, block).out),
    ensures
        ({
            let w = blank(e).ensure_block(index, kind, block);
            &&& reads_as(
                p,
                w,
                ParserV { open: indices(w.e.open), ..after_begin(e, p) },
                begun(e) + switched(e, index, kind) + opened(e, p, index, kind, block),
            )
            &&& w.e.started
            &&& anthropic::open_once(w.e.open)
        }),
{
    let w1 = blank(e).ensure_started();
    let all = blank(e).ensure_block(index, kind, block);
    let q = after_begin(e, p);
    let at = anthropic::open_at(e.open, index, 0);
    anthropic::open_at_bounds(e.open, index, 0);
    let start = anthropic::named_frame("content_block_start"@, anthropic::start_data(index, block));
    if is_open_as(e, index, kind) {
        begin_is_read(e, p);
        assert(begun(e) + switched(e, index, kind) + opened(e, p, index, kind, block) =~= begun(e));
        assert(q.open =~= indices(all.e.open));
    } else if is_open(e, index) {
        let cut = Written { e: EncoderV { open: w1.e.open.remove(at), ..w1.e }, ..w1 };
        let w2 = cut.emit(anthropic::stop_frame(index));
        let w3 = Written { e: EncoderV { open: w2.e.open.push((index, kind)), ..w2.e }, ..w2 };
        assert(all == w3.emit(start));
        frames_before(w3, start);
        frames_before(cut, anthropic::stop_frame(index));
        begin_is_read(e, p);
        stop_is_read(q, index);
        frame_more(p, cut, q, begun(e), anthropic::stop_frame(index));
        but_removes(e.open, index, at);
        let q2 = ParserV { open: indices(e.open.remove(at)), ..q };
        assert(reads_as(p, w3, q2, begun(e) + switched(e, index, kind)));
        start_is_read(q2, index, block);
        frame_more(p, w3, q2, begun(e) + switched(e, index, kind), start);
        assert(q2.open.push(index) =~= indices(all.e.open));
    } else {
        let w3 = Written { e: EncoderV { open: w1.e.open.push((index, kind)), ..w1.e }, ..w1 };
        assert(all == w3.emit(start));
        frames_before(w3, start);
        begin_is_read(e, p);
        assert(begun(e) + switched(e, index, kind) =~= begun(e));
        assert(reads_as(p, w3, q, begun(e)));
        start_is_read(q, index, block);
        frame_more(p, w3, q, begun(e), start);
        assert(q.open.push(index) =~= indices(all.e.open));
    }
}

proof fn text_start_is_plain(p: ParserV, index: u32)
    ensures
        json::canonical(anthropic::text_start()) == anthropic::text_start(),
        anthropic::block_start(p, index, Some(anthropic::text_start())).out == Seq::<EventV>::empty(),
        json::canonical(anthropic::thinking_start()) == anthropic::thinking_start(),
        anthropic::block_start(p, index, Some(anthropic::thinking_start())).out == Seq::<EventV>::empty(),
{
    frame_names();
    reveal_with_fuel(json::find_from, 4);
    let none = json::st(Seq::empty());
    typed_is_settled("text"@);
    round_trips::grows(anthropic::type_only("text"@), "text"@, none);
    typed_is_settled("thinking"@);
    round_trips::grows(anthropic::type_only("thinking"@), "thinking"@, none);
    round_trips::grows(anthropic::type_only("thinking"@).with("thinking"@, none), "signature"@, none);
    assert(anthropic::text_start().at("type"@) == Some(json::st("text"@)));
    assert(anthropic::text_start().at("text"@) == Some(none));
    assert(anthropic::thinking_start().at("type"@) == Some(json::st("thinking"@)));
    assert(anthropic::thinking_start().at("thinking"@) == Some(none));
}

/// A piece of a block that holds text or reasoning.
proof fn piece_is_read(
    e: EncoderV,
    p: ParserV,
    index: u32,
    kind: OpenKind,
    block: Tree,
    name: Seq<char>,
    key: Seq<char>,
    v: Seq<char>,
    ev: EventV,
)
    requires
        in_step(e, p),
        json::canonical(block) == block,
        anthropic::block_start(p, index, Some(block)).out == Seq::<EventV>::empty(),
        round_trips::all_legible(blank(e).ensure_block(index, kind, block).emit(anthropic::delta_frame(index, name, key, v)).out),
        key != "type"@,
        ({
            let d = Tree::Obj(anthropic::type_only(name).with(key, json::st(v)));
            d.at("type"@) == Some(json::st(name)) && d.at(key) == Some(json::st(v)) ==> anthropic::block_delta(
                index,
                Some(d),
            ) == Some(ev)
        }),
    ensures
        ({
            let w = blank(e).ensure_block(index, kind, block).emit(anthropic::delta_frame(index, name, key, v));
            &&& reads_as(
                p,
                w,
                ParserV { open: indices(w.e.open), ..after_begin(e, p) },
                (begun(e) + switched(e, index, kind)).push(ev),
            )
            &&& in_step(w.e, ParserV { open: indices(w.e.open), ..after_begin(e, p) })
        }),
{
    let w = blank(e).ensure_block(index, kind, block);
    let f = anthropic::delta_frame(index, name, key, v);
    let q = ParserV { open: indices(w.e.open), ..after_begin(e, p) };
    frames_before(w, f);
    block_is_read(e, p, index, kind, block);
    let told = begun(e) + switched(e, index, kind);
    assert(told + opened(e, p, index, kind, block) =~= told);
    delta_is_read(q, index, name, key, v);
    frame_more(p, w, q, told, f);
    assert(told + Seq::empty().push(ev) =~= told.push(ev));
}

proof fn tool_is_read(e: EncoderV, p: ParserV, index: u32, id: Seq<char>, name: Seq<char>)
    requires
        in_step(e, p),
        round_trips::all_legible(anthropic::encoded_event(e, EventV::ToolUseStart { index, id, name }).out),
    ensures
        ({
            let ev = EventV::ToolUseStart { index, id, name };
            let w = anthropic::encoded_event(e, ev);
            let q = ParserV { open: indices(w.e.open), ..after_begin(e, p) };
            reads_as(p, w, q, told(e, p, ev)) && in_step(w.e, q)
        }),
{
    let ev = EventV::ToolUseStart { index, id, name };
    frame_names();
    reveal_with_fuel(json::find_from, 5);
    round_trips::nothing_is_settled();
    let a = anthropic::type_only("tool_use"@);
    typed_is_settled("tool_use"@);
    round_trips::grows(a, "id"@, json::st(id));
    let b = a.with("id"@, json::st(id));
    round_trips::grows(b, "name"@, json::st(name));
    let c = b.with("name"@, json::st(name));
    round_trips::grows(c, "input"@, Tree::Obj(json::fs()));
    let block = Tree::Obj(c.with("input"@, Tree::Obj(json::fs())));
    assert(block.at("type"@) == Some(json::st("tool_use"@)));
    assert(block.at("id"@) == Some(json::st(id)) && block.at("name"@) == Some(json::st(name)));
    assert(anthropic::encoded_event(e, ev) == blank(e).ensure_block(index, OpenKind::ToolUse, block));
    block_is_read(e, p, index, OpenKind::ToolUse, block);
    assert(anthropic::block_start(p, index, Some(block)).out == Seq::empty().push(ev));
    assert(begun(e) + switched(e, index, OpenKind::ToolUse) + opened(e, p, index, OpenKind::ToolUse, block)
        =~= told(e, p, ev));
}

proof fn redacted_is_read(e: EncoderV, p: ParserV, index: u32, data: Seq<char>)
    requires
        in_step(e, p),
        !is_open(e, index),
        round_trips::all_legible(anthropic::encoded_event(e, EventV::RedactedThinking { index, data }).out),
    ensures
        ({
            let ev = EventV::RedactedThinking { index, data };
            let w = anthropic::encoded_event(e, ev);
            let q = after_begin(e, p);
            reads_as(p, w, q, told(e, p, ev)) && in_step(w.e, q)
        }),
{
    let ev = EventV::RedactedThinking { index, data };
    frame_names();
    reveal_with_fuel(json::find_from, 3);
    typed_is_settled("redacted_thinking"@);
    round_trips::grows(anthropic::type_only("redacted_thinking"@), "data"@, json::st(data));
    let block = Tree::Obj(anthropic::type_only("redacted_thinking"@).with("data"@, json::st(data)));
    assert(block.at("type"@) == Some(json::st("redacted_thinking"@)) && block.at("data"@) == Some(json::st(data)));
    let w = blank(e).ensure_started();
    let start = anthropic::named_frame("content_block_start"@, anthropic::start_data(index, block));
    frames_before(w.emit(start), anthropic::stop_frame(index));
    frames_before(w, start);
    begin_is_read(e, p);
    let q = after_begin(e, p);
    start_is_read(q, index, block);
    frame_more(p, w, q, begun(e), start);
    let q2 = ParserV { open: q.open.push(index), ..q };
    assert(begun(e) + Seq::empty().push(ev) =~= begun(e).push(ev));
    stop_is_read(q2, index);
    frame_more(p, w.emit(start), q2, begun(e).push(ev), anthropic::stop_frame(index));
    assert(begun(e).push(ev) + Seq::empty().push(EventV::BlockStop { index }) =~= told(e, p, ev));
    let more = e.open.push((index, OpenKind::Thinking));
    anthropic::open_at_bounds(e.open, index, 0);
    assert(anthropic::open_once(more));
    but_removes(more, index, e.open.len() as int);
    assert(more.remove(e.open.len() as int) =~= e.open);
    assert(indices(more) =~= q2.open);
}

proof fn stops_are_read(p: ParserV, w: Written, q: ParserV, out: Seq<EventV>, open: Seq<(u32, OpenKind)>, n: int)
    requires
        0 <= n <= open.len(),
        anthropic::open_once(open),
        reads_as(p, w, q, out),
        q.open == indices(open),
        forall|i: int| 0 <= i < open.len() ==> round_trips::legible(anthropic::stop_frame((#[trigger] open[i]).0)),
    ensures
        reads_as(
            p,
            Written { e: w.e, out: w.out + Seq::new(n as nat, |i: int| anthropic::stop_frame(open[i].0)) },
            ParserV { open: indices(open.skip(n)), ..q },
            out + anthropic::block_stops(indices(open)).take(n),
        ),
    decreases n,
{
    let frames = Seq::new(n as nat, |i: int| anthropic::stop_frame(open[i].0));
    let told = anthropic::block_stops(indices(open));
    if n == 0 {
        assert(w.out + frames =~= w.out);
        assert(out + told.take(0) =~= out);
        assert(open.skip(0) =~= open);
    } else {
        let m = n - 1;
        stops_are_read(p, w, q, out, open, m);
        let fewer = Seq::new(m as nat, |i: int| anthropic::stop_frame(open[i].0));
        let w1 = Written { e: w.e, out: w.out + fewer };
        let left = open.skip(m);
        let q1 = ParserV { open: indices(left), ..q };
        let index = open[m].0;
        assert(round_trips::legible(anthropic::stop_frame(index)));
        stop_is_read(q1, index);
        assert(anthropic::open_once(left)) by {
            assert forall|i: int, j: int| 0 <= i < j < left.len() implies (#[trigger] left[i]).0 != (
            #[trigger] left[j]).0 by {
                assert(left[i] == open[m + i] && left[j] == open[m + j]);
            }
        }
        but_removes(left, index, 0);
        assert(left.remove(0) =~= open.skip(n));
        frame_more(p, w1, q1, out + told.take(m), anthropic::stop_frame(index));
        assert(w.out + frames =~= w1.out.push(anthropic::stop_frame(index)));
        assert((out + told.take(m)) + Seq::empty().push(EventV::BlockStop { index }) =~= out + told.take(n));
    }
}

proof fn end_is_read(
    e: EncoderV,
    p: ParserV,
    reason: StopReason,
    sequence: Option<Seq<char>>,
    usage: Usage,
)
    requires
        in_step(e, p),
        round_trips::all_legible(
            anthropic::encoded_event(e, EventV::Stop { stop_reason: reason, stop_sequence: sequence, usage }).out,
        ),
    ensures
        ({
            let ev = EventV::Stop { stop_reason: reason, stop_sequence: sequence, usage };
            let w = anthropic::encoded_event(e, ev);
            let base = after_begin(e, p);
            let q = ParserV {
                open: Seq::empty(),
                usage: Usage { output_tokens: usage.output_tokens, ..base.usage },
                stopped: true,
                ..base
            };
            reads_as(p, w, q, told(e, p, ev)) && in_step(w.e, q)
        }),
{
    let ev = EventV::Stop { stop_reason: reason, stop_sequence: sequence, usage };
    let text = anthropic::stop_reason_text(reason);
    let w = blank(e).ensure_started();
    let c = w.close_all();
    let d = Written { e: EncoderV { usage, ..c.e }, ..c };
    let f = last_frame(usage, anthropic::text_or_null(text), anthropic::text_or_null(sequence));
    let g = anthropic::named_frame("message_stop"@, Tree::Obj(anthropic::type_only("message_stop"@)));
    assert(anthropic::encoded_event(e, ev).out == d.emit(f).emit(g).out);
    frames_before(d.emit(f), g);
    frames_before(d, f);
    let stops = Seq::new(e.open.len(), |i: int| anthropic::stop_frame(e.open[i].0));
    assert(d.out == w.out + stops) by {
        assert(w.e.open == e.open);
    }
    assert forall|i: int| 0 <= i < w.out.len() implies round_trips::legible(#[trigger] w.out[i]) by {
        assert(d.out[i] == w.out[i]);
    }
    assert forall|i: int| 0 <= i < e.open.len() implies round_trips::legible(anthropic::stop_frame((#[trigger] e.open[i]).0)) by {
        assert(d.out[w.out.len() + i] == stops[i]);
    }
    begin_is_read(e, p);
    let base = after_begin(e, p);
    stops_are_read(p, w, base, begun(e), e.open, e.open.len() as int);
    let closed = ParserV { open: Seq::empty(), ..base };
    assert(indices(e.open.skip(e.open.len() as int)) =~= Seq::empty());
    let all = anthropic::block_stops(indices(e.open));
    assert(all.take(e.open.len() as int) =~= all);
    let out = begun(e) + all;
    assert(reads_as(p, d, closed, out));
    last_frame_is_read(closed, usage, text, sequence);
    anthropic::stop_reasons_round_trip(reason);
    frame_more(p, d, closed, out, f);
    let said = anthropic::push_frame(closed, f)->Ok_0;
    assert(out + said.out =~= told(e, p, ev));
    frame_names();
    bare_frame_is_read(said.p, "message_stop"@);
    frame_more(p, d.emit(f), said.p, out + said.out, g);
    assert((out + said.out) + Seq::empty() =~= out + said.out);
    assert(indices(Seq::<(u32, OpenKind)>::empty()) =~= Seq::empty());
}

/// What a writer puts out for an event tells a reader the event: behind the start of
/// the message where that was not told yet, and behind the ends of the blocks that the
/// event closes. Reader and writer stay in step, so a stream that is written and read
/// again tells the same. Of the end of a message the reader takes the output's count
/// and keeps the other counters of its start.
///
/// Reasoning that is hidden comes in a block of its own.
pub proof fn anthropic_streams_come_back(e: EncoderV, p: ParserV, ev: EventV)
    requires
        in_step(e, p),
        ev matches EventV::RedactedThinking { index, .. } ==> !is_open(e, index),
        round_trips::all_legible(anthropic::encoded_event(e, ev).out),
    ensures
        ({
            let w = anthropic::encoded_event(e, ev);
            let r = read(p, w.out);
            r is Ok && r->Ok_0.out == told(e, p, ev) && in_step(w.e, r->Ok_0.p)
        }),
{
    let w = anthropic::encoded_event(e, ev);
    let q = after_begin(e, p);
    frame_names();
    match ev {
        EventV::Start { id, model, usage } => {
            let e1 = EncoderV { id, model, usage, ..e };
            assert(w == blank(e1).ensure_started());
            begin_is_read(e1, p);
        },
        EventV::TextDelta { index, text } => {
            text_start_is_plain(p, index);
            piece_is_read(e, p, index, OpenKind::Text, anthropic::text_start(), "text_delta"@, "text"@, text, ev);
        },
        EventV::ThinkingDelta { index, text } => {
            text_start_is_plain(p, index);
            piece_is_read(
                e,
                p,
                index,
                OpenKind::Thinking,
                anthropic::thinking_start(),
                "thinking_delta"@,
                "thinking"@,
                text,
                ev,
            );
        },
        EventV::ThinkingSignature { index, signature } => {
            text_start_is_plain(p, index);
            piece_is_read(
                e,
                p,
                index,
                OpenKind::Thinking,
                anthropic::thinking_start(),
                "signature_delta"@,
                "signature"@,
                signature,
                ev,
            );
        },
        EventV::RedactedThinking { index, data } => {
            redacted_is_read(e, p, index, data);
        },
        EventV::ToolUseStart { index, id, name } => {
            tool_is_read(e, p, index, id, name);
        },
        EventV::ToolUseDelta { index, partial_json } => {
            let w1 = blank(e).ensure_started();
            let f = anthropic::delta_frame(index, "input_json_delta"@, "partial_json"@, partial_json);
            frames_before(w1, f);
            begin_is_read(e, p);
            delta_is_read(q, index, "input_json_delta"@, "partial_json"@, partial_json);
            frame_more(p, w1, q, begun(e), f);
            assert(begun(e) + Seq::empty().push(ev) =~= told(e, p, ev));
        },
        EventV::BlockStop { index } => {
            anthropic::open_at_bounds(e.open, index, 0);
            let at = anthropic::open_at(e.open, index, 0);
            if is_open(e, index) {
                let w1 = Written { e: EncoderV { open: e.open.remove(at), ..e }, ..blank(e) };
                frames_before(w1, anthropic::stop_frame(index));
                assert(reads_as(p, w1, p, Seq::empty()));
                stop_is_read(p, index);
                frame_more(p, w1, p, Seq::empty(), anthropic::stop_frame(index));
                but_removes(e.open, index, at);
                assert(Seq::<EventV>::empty() + Seq::empty().push(ev) =~= told(e, p, ev));
            }
        },
        EventV::Stop { stop_reason, stop_sequence, usage } => {
            end_is_read(e, p, stop_reason, stop_sequence, usage);
        },
        EventV::Ping => {
            let f = anthropic::named_frame("ping"@, Tree::Obj(anthropic::type_only("ping"@)));
            frames_before(blank(e), f);
            assert(reads_as(p, blank(e), p, Seq::empty()));
            bare_frame_is_read(p, "ping"@);
            frame_more(p, blank(e), p, Seq::empty(), f);
            assert(Seq::<EventV>::empty() + Seq::empty().push(ev) =~= told(e, p, ev));
        },
    }
}

// -------------------------------------------------------------- whole streams

/// A writer after a number of events, with all their frames.
pub open spec fn written(e: EncoderV, es: Seq<EventV>) -> Written
    decreases es.len(),
{
    if es.len() == 0 {
        Written { e, out: Seq::empty() }
    } else {
        let w = written(e, es.drop_last());
        let x = anthropic::encoded_event(w.e, es.last());
        Written { e: x.e, out: w.out + x.out }
    }
}

/// Hidden reasoning comes in blocks of its own.
pub open spec fn keeps_blocks_apart(e: EncoderV, es: Seq<EventV>) -> bool {
    forall|n: int|
        0 <= n < es.len() ==> ((#[trigger] es[n]) matches EventV::RedactedThinking { index, .. } ==> !is_open(
            written(e, es.take(n)).e,
            index,
        ))
}

proof fn reading_goes_on(p: ParserV, a: Seq<FrameV>, b: Seq<FrameV>)
    requires
        read(p, a) is Ok,
    ensures
        read(p, a + b) == match read(read(p, a)->Ok_0.p, b) {
            Ok(t) => Ok::<Step, ErrorV>(Step { p: t.p, out: read(p, a)->Ok_0.out + t.out }),
            Err(e) => Err(e),
        },
    decreases b.len(),
{
    let s = read(p, a)->Ok_0;
    if b.len() == 0 {
        assert(a + b =~= a);
        assert(s.out + Seq::empty() =~= s.out);
    } else {
        reading_goes_on(p, a, b.drop_last());
        assert((a + b).drop_last() =~= a + b.drop_last());
        assert((a + b).last() == b.last());
        if let Ok(t) = read(s.p, b.drop_last()) {
            if let Ok(x) = anthropic::push_frame(t.p, b.last()) {
                assert((s.out + t.out) + x.out =~= s.out + (t.out + x.out));
            }
        }
    }
}

/// A new writer and a new reader are in step.
pub proof fn beginners_are_in_step(model: Seq<char>, id: Seq<char>, other: Seq<char>)
    ensures
        in_step(anthropic::fresh_encoder(model, id), anthropic::fresh_parser(other)),
{
    assert(indices(Seq::empty()) =~= Seq::empty());
}

proof fn events_are_told(e: EncoderV, p: ParserV, ev: EventV)
    ensures
        round_trips::words(told(e, p, ev)) == round_trips::words(Seq::empty().push(ev)),
        round_trips::thoughts(told(e, p, ev)) == round_trips::thoughts(Seq::empty().push(ev)),
{
    let none = Seq::<EventV>::empty();
    let start = EventV::Start { id: e.id, model: e.model, usage: told_usage(e.usage) };
    round_trips::one_telling_more(none, ev);
    round_trips::one_telling_more(none, start);
    assert(round_trips::words(begun(e)) =~= Seq::empty());
    assert(round_trips::thoughts(begun(e)) =~= Seq::empty());
    match ev {
        EventV::Start { id, model, usage } => {
            round_trips::one_telling_more(none, EventV::Start { id, model, usage: told_usage(usage) });
        },
        EventV::TextDelta { index, .. } => {
            piece_is_told(e, index, OpenKind::Text, ev);
        },
        EventV::ThinkingDelta { index, .. } => {
            piece_is_told(e, index, OpenKind::Thinking, ev);
        },
        EventV::ThinkingSignature { index, .. } => {
            piece_is_told(e, index, OpenKind::Thinking, ev);
        },
        EventV::RedactedThinking { index, .. } => {
            round_trips::one_telling_more(begun(e), ev);
            round_trips::one_telling_more(begun(e).push(ev), EventV::BlockStop { index });
        },
        EventV::ToolUseStart { index, .. } => {
            piece_is_told(e, index, OpenKind::ToolUse, ev);
        },
        EventV::ToolUseDelta { .. } => {
            round_trips::one_telling_more(begun(e), ev);
        },
        EventV::Stop { .. } => {
            let stops = anthropic::block_stops(indices(e.open));
            stops_tell_nothing(stops);
            round_trips::tellings_join(begun(e), stops);
            round_trips::one_telling_more(begun(e) + stops, told(e, p, ev).last());
        },
        _ => {},
    }
}

proof fn piece_is_told(e: EncoderV, index: u32, kind: OpenKind, ev: EventV)
    ensures
        ({
            let out = (begun(e) + switched(e, index, kind)).push(ev);
            &&& round_trips::words(out) == round_trips::words(Seq::empty().push(ev))
            &&& round_trips::thoughts(out) == round_trips::thoughts(Seq::empty().push(ev))
        }),
{
    let none = Seq::<EventV>::empty();
    let start = EventV::Start { id: e.id, model: e.model, usage: told_usage(e.usage) };
    let stop = EventV::BlockStop { index };
    round_trips::one_telling_more(none, start);
    round_trips::one_telling_more(none, stop);
    round_trips::one_telling_more(none, ev);
    round_trips::tellings_join(begun(e), switched(e, index, kind));
    round_trips::one_telling_more(begun(e) + switched(e, index, kind), ev);
    let before = begun(e) + switched(e, index, kind);
    assert(round_trips::words(before) =~= Seq::empty());
    assert(round_trips::thoughts(before) =~= Seq::empty());
}

proof fn stops_tell_nothing(stops: Seq<EventV>)
    requires
        forall|i: int| 0 <= i < stops.len() ==> (#[trigger] stops[i]) is BlockStop,
    ensures
        round_trips::words(stops) == Seq::<char>::empty(),
        round_trips::thoughts(stops) == Seq::<char>::empty(),
    decreases stops.len(),
{
    if stops.len() > 0 {
        let fewer = stops.drop_last();
        assert forall|i: int| 0 <= i < fewer.len() implies (#[trigger] fewer[i]) is BlockStop by {
            assert(fewer[i] == stops[i]);
        }
        stops_tell_nothing(fewer);
        assert(stops.last() == stops[stops.len() - 1]);
    }
}

/// A stream that is written and read again tells the same words and the same reasoning,
/// and reader and writer are in step at its end.
pub proof fn anthropic_streams_keep_their_words(e: EncoderV, p: ParserV, es: Seq<EventV>)
    requires
        in_step(e, p),
        keeps_blocks_apart(e, es),
        round_trips::all_legible(written(e, es).out),
    ensures
        ({
            let r = read(p, written(e, es).out);
            &&& r is Ok
            &&& round_trips::words(r->Ok_0.out) == round_trips::words(es)
            &&& round_trips::thoughts(r->Ok_0.out) == round_trips::thoughts(es)
            &&& in_step(written(e, es).e, r->Ok_0.p)
        }),
    decreases es.len(),
{
    if es.len() > 0 {
        let before = es.drop_last();
        let ev = es.last();
        let w = written(e, before);
        let x = anthropic::encoded_event(w.e, ev);
        let all = w.out + x.out;
        assert forall|i: int| 0 <= i < w.out.len() implies round_trips::legible(#[trigger] w.out[i]) by {
            assert(all[i] == w.out[i]);
        }
        assert forall|i: int| 0 <= i < x.out.len() implies round_trips::legible(#[trigger] x.out[i]) by {
            assert(all[w.out.len() + i] == x.out[i]);
        }
        assert(es.take(es.len() - 1) =~= before);
        assert(es[es.len() - 1] == ev);
        assert forall|n: int| 0 <= n < before.len() implies ((#[trigger] before[n]) matches EventV::RedactedThinking {
            index,
            ..
        } ==> !is_open(written(e, before.take(n)).e, index)) by {
            assert(before.take(n) =~= es.take(n));
            assert(before[n] == es[n]);
        }
        anthropic_streams_keep_their_words(e, p, before);
        let s = read(p, w.out)->Ok_0;
        anthropic_streams_come_back(w.e, s.p, ev);
        reading_goes_on(p, w.out, x.out);
        let more = told(w.e, s.p, ev);
        round_trips::tellings_join(s.out, more);
        events_are_told(w.e, s.p, ev);
        round_trips::one_telling_more(Seq::empty(), ev);
        assert(before.push(ev) =~= es);
        round_trips::one_telling_more(before, ev);
        let r = read(p, all)->Ok_0;
        assert(round_trips::words(r.out) =~= round_trips::words(es));
        assert(round_trips::thoughts(r.out) =~= round_trips::thoughts(es));
    }
}

} // verus!
