//! What reading gives back of OpenAI streams that were written.

use crate::error::ErrorV;
use crate::ir::{EventV, StopReason, Usage};
use crate::json;
use crate::json::{Build, Lookup, Tree};
use crate::protocol::openai;
use crate::protocol::openai::{Block, EncoderV, ParserV, Run, Step, Written};
use crate::protocol::round_trips;
use crate::protocol::sse::FrameV;
use crate::text;
use vstd::prelude::*;

verus! {

/// The frame that ends a stream.
pub open spec fn done_frame() -> FrameV {
    openai::data_frame("[DONE]"@)
}

/// The frames of an event that hold documents: all but the one that ends the stream.
pub open spec fn documents(e: EncoderV, ev: EventV) -> Seq<FrameV> {
    let out = openai::encoded_event(e, ev).out;
    if ev is Stop {
        out.drop_last()
    } else {
        out
    }
}

/// A parser that has read a number of frames, with all their events.
pub open spec fn read(p: ParserV, frames: Seq<FrameV>, ids: Seq<Seq<char>>) -> Result<Step, ErrorV>
    decreases frames.len(),
{
    if frames.len() == 0 {
        Ok(openai::at_rest(p))
    } else {
        match read(p, frames.drop_last(), ids) {
            Err(e) => Err(e),
            Ok(s) => match openai::push_frame(s.p, frames.last(), ids) {
                Err(e) => Err(e),
                Ok(t) => Ok(Step { p: t.p, out: s.out + t.out }),
            },
        }
    }
}

/// The reader knows whether the stream has begun, and the slots of the tools that were
/// called.
pub open spec fn in_step(e: EncoderV, p: ParserV) -> bool {
    &&& p.started == e.role_sent
    &&& forall|i: int| 0 <= i < e.tool_slots.len() ==> (#[trigger] e.tool_slots[i]).1 == i
    &&& forall|s: u64| (#[trigger] openai::slot_block(p.tool_slots, s, 0)) is Some <==> s < e.tool_slots.len()
}

/// The start of the stream, where it was not told yet.
pub open spec fn begun(e: EncoderV, p: ParserV) -> Step {
    if p.started {
        openai::at_rest(p)
    } else {
        let model = if e.model.len() > 0 { e.model } else { p.model };
        Step { p: ParserV { started: true, id: Some(e.id), model, ..p }, out: Seq::empty() }.emit(
            EventV::Start { id: e.id, model, usage: p.usage },
        )
    }
}

/// Words, in the block that is open for them.
pub open spec fn worded(s: Step, text: Seq<char>) -> Step {
    if text.len() == 0 {
        s
    } else {
        let b = s.block_for(Block::Text);
        b.emit(EventV::TextDelta { index: b.index(), text })
    }
}

/// Reasoning, in the block that is open for it.
pub open spec fn reasoned(s: Step, text: Seq<char>) -> Step {
    if text.len() == 0 {
        s
    } else {
        let b = s.block_for(Block::Thinking);
        b.emit(EventV::ThinkingDelta { index: b.index(), text })
    }
}

/// A tool call, in a block of its own.
pub open spec fn called(s: Step, slot: u64, id: Seq<char>, name: Seq<char>) -> Step {
    let t = s.open_block(Block::Tool);
    Step { p: ParserV { tool_slots: t.p.tool_slots.push((slot, t.index())), ..t.p }, ..t }.emit(
        EventV::ToolUseStart { index: t.index(), id, name },
    )
}

/// A reason to stop as OpenAI tells it.
pub open spec fn told_reason(r: StopReason) -> StopReason {
    match r {
        StopReason::StopSequence => StopReason::EndTurn,
        StopReason::Unknown => StopReason::EndTurn,
        other => other,
    }
}

/// The end of the stream, with the counters where they are told.
pub open spec fn ended(s: Step, e: EncoderV, reason: StopReason, usage: Usage) -> Step {
    let counted = e.include_usage && usage.total_spec() > 0;
    Step {
        p: ParserV {
            pending_stop: Some(told_reason(reason)),
            usage: if counted { Usage { cache_write_tokens: 0, ..usage } } else { s.p.usage },
            ..s.p
        },
        ..s
    }.emit_stop()
}

/// The identifier that an OpenAI client is told.
pub open spec fn told_id(id: Seq<char>) -> Seq<char> {
    if "chatcmpl"@.is_prefix_of(id) {
        id
    } else {
        "chatcmpl-"@ + id
    }
}

/// What a reader is told of one event: the event, under the reader's own count of the
/// blocks. Signatures, the ends of blocks and pings are not told, nor is a piece that
/// is empty; hidden reasoning is told as the blob that carries it.
pub open spec fn told(e: EncoderV, p: ParserV, ev: EventV) -> Step {
    match ev {
        EventV::Start { id, model, usage } => begun(EncoderV { id: told_id(id), model, usage, ..e }, p),
        EventV::TextDelta { text, .. } => worded(begun(e, p), text),
        EventV::ThinkingDelta { text, .. } => reasoned(begun(e, p), text),
        EventV::RedactedThinking { data, .. } => match openai::blob_of(data) {
            Some(blob) => reasoned(begun(e, p), blob),
            None => openai::at_rest(p),
        },
        EventV::ToolUseStart { index, id, name } => if openai::block_slot(e.tool_slots, index, 0) is Some {
            begun(e, p)
        } else {
            called(begun(e, p), e.slot(index), id, name)
        },
        EventV::ToolUseDelta { index, partial_json } => if partial_json.len() == 0 {
            begun(e, p)
        } else {
            begun(e, p).emit(
                EventV::ToolUseDelta { index: openai::slot_block(p.tool_slots, e.slot(index), 0)->0, partial_json },
            )
        },
        EventV::Stop { stop_reason, usage, .. } => ended(begun(e, p), e, stop_reason, usage),
        _ => openai::at_rest(p),
    }
}

// -------------------------------------------------------------------- frames

/// The names in the frames of a stream, as far as it takes to tell them apart.
proof fn chunk_names()
    ensures
        "id"@.len() == 2,
        "role"@.len() == 4 && "role"@[0] == 'r',
        "type"@.len() == 4 && "type"@[0] == 't',
        "name"@.len() == 4 && "name"@[0] == 'n',
        "model"@.len() == 5 && "model"@[0] == 'm',
        "usage"@.len() == 5 && "usage"@[0] == 'u',
        "error"@.len() == 5 && "error"@[0] == 'e',
        "index"@.len() == 5 && "index"@[0] == 'i',
        "delta"@.len() == 5 && "delta"@[0] == 'd',
        "object"@.len() == 6,
        "created"@.len() == 7 && "created"@[1] == 'r',
        "choices"@.len() == 7 && "choices"@[1] == 'h',
        "content"@.len() == 7 && "content"@[1] == 'o',
        "message"@.len() == 7 && "message"@[1] == 'e',
        "function"@.len() == 8 && "function"@[0] == 'f',
        "logprobs"@.len() == 8 && "logprobs"@[0] == 'l',
        "arguments"@.len() == 9 && "arguments"@[0] == 'a',
        "reasoning"@.len() == 9 && "reasoning"@[0] == 'r',
        "tool_calls"@.len() == 10,
        "finish_reason"@.len() == 13,
        "reasoning_content"@.len() == 17,
{
    reveal_strlit("id");
    reveal_strlit("role");
    reveal_strlit("type");
    reveal_strlit("name");
    reveal_strlit("model");
    reveal_strlit("usage");
    reveal_strlit("error");
    reveal_strlit("index");
    reveal_strlit("delta");
    reveal_strlit("object");
    reveal_strlit("created");
    reveal_strlit("choices");
    reveal_strlit("content");
    reveal_strlit("message");
    reveal_strlit("function");
    reveal_strlit("logprobs");
    reveal_strlit("arguments");
    reveal_strlit("reasoning");
    reveal_strlit("tool_calls");
    reveal_strlit("finish_reason");
    reveal_strlit("reasoning_content");
}

spec fn head(e: EncoderV) -> Seq<(Seq<char>, Tree)> {
    json::fs().with("id"@, json::st(e.id)).with("object"@, json::st("chat.completion.chunk"@)).with(
        "created"@,
        json::integer(e.created),
    ).with("model"@, json::st(e.model))
}

proof fn head_is_settled(e: EncoderV)
    ensures
        round_trips::settled(head(e)),
{
    chunk_names();
    reveal_with_fuel(json::find_from, 4);
    round_trips::nothing_is_settled();
    let a = json::fs();
    round_trips::grows(a, "id"@, json::st(e.id));
    let b = a.with("id"@, json::st(e.id));
    round_trips::grows(b, "object"@, json::st("chat.completion.chunk"@));
    let c = b.with("object"@, json::st("chat.completion.chunk"@));
    round_trips::grows(c, "created"@, json::integer(e.created));
    let d = c.with("created"@, json::integer(e.created));
    round_trips::grows(d, "model"@, json::st(e.model));
}

proof fn sets(m: Seq<(Seq<char>, Tree)>, key: Seq<char>, v: Tree)
    requires
        round_trips::settled(m),
        json::canonical(v) == v,
        json::field(m, key) is None,
    ensures
        round_trips::settled(m.set(key, v)),
        m.set(key, v) == m.push((key, v)),
{
    reveal(json::put);
    json::find_from_bounds(m, key, 0);
    json::new_fields_stay(m, key, v);
}

proof fn lists_are_settled(t: Tree)
    requires
        json::canonical(t) == t,
    ensures
        json::canonical(Tree::Arr(Seq::empty().push(t))) == Tree::Arr(Seq::empty().push(t)),
        json::canonical(Tree::Arr(Seq::empty())) == Tree::Arr(Seq::empty()),
{
    let one = Seq::empty().push(t);
    assert(json::canonical(Tree::Arr(one))->Arr_0 =~= one);
    assert(json::canonical(Tree::Arr(Seq::empty()))->Arr_0 =~= Seq::<Tree>::empty());
}

spec fn reason_tree(finish: Option<Seq<char>>) -> Tree {
    match finish {
        Some(r) => json::st(r),
        None => Tree::Null,
    }
}

spec fn choice(delta: Tree, finish: Option<Seq<char>>) -> Tree {
    Tree::Obj(
        json::fs().set("index"@, json::num(0)).set("delta"@, delta).set("logprobs"@, Tree::Null).set(
            "finish_reason"@,
            reason_tree(finish),
        ),
    )
}

proof fn choice_shows(delta: Tree, finish: Option<Seq<char>>)
    requires
        json::canonical(delta) == delta,
    ensures
        json::canonical(choice(delta, finish)) == choice(delta, finish),
        openai::is_first(choice(delta, finish)),
        openai::delta_of(choice(delta, finish)) == Some(delta),
        choice(delta, finish).at("finish_reason"@) == Some(reason_tree(finish)),
{
    chunk_names();
    reveal_with_fuel(json::find_from, 5);
    round_trips::nothing_is_settled();
    let a = json::fs();
    sets(a, "index"@, json::num(0));
    let b = a.set("index"@, json::num(0));
    sets(b, "delta"@, delta);
    let c = b.set("delta"@, delta);
    sets(c, "logprobs"@, Tree::Null);
    let d = c.set("logprobs"@, Tree::Null);
    sets(d, "finish_reason"@, reason_tree(finish));
}

proof fn document_is_read(f: FrameV, t: Tree)
    requires
        round_trips::legible(f),
        f.data == json::rendered(t),
        json::canonical(t) == t,
    ensures
        f.json() == Ok::<Tree, ErrorV>(t),
{
}

/// A chunk is read: the start, where it was not told yet, and the choice.
proof fn chunk_is_read(p: ParserV, e: EncoderV, delta: Tree, finish: Option<Seq<char>>, ids: Seq<Seq<char>>)
    requires
        round_trips::legible(e.chunk(delta, finish)),
        json::canonical(delta) == delta,
    ensures
        openai::push_frame(p, e.chunk(delta, finish), ids) == Ok::<Step, ErrorV>(
            openai::push_choice(Run { s: begun(e, p), used: 0 }, choice(delta, finish), ids).s,
        ),
{
    chunk_names();
    reveal_with_fuel(json::find_from, 6);
    choice_shows(delta, finish);
    let c = choice(delta, finish);
    let list = Tree::Arr(Seq::empty().push(c));
    lists_are_settled(c);
    head_is_settled(e);
    round_trips::grows(head(e), "choices"@, list);
    let chunk = Tree::Obj(head(e).with("choices"@, list));
    document_is_read(e.chunk(delta, finish), chunk);
    assert(chunk.at("choices"@) == Some(list));
    assert(chunk.at("id"@) == Some(json::st(e.id)));
    assert(chunk.at("model"@) == Some(json::st(e.model)));
    assert(chunk.at("usage"@) is None && chunk.at("error"@) is None);
    assert(openai::choices_of(chunk) == Seq::empty().push(c));
    assert(openai::choices_of(chunk)[0] == c);
    let r = Run { s: openai::at_rest(p).ensure_started(chunk), used: 0 };
    assert(r.s == begun(e, p));
    reveal_with_fuel(openai::push_choices, 2);
    assert(openai::push_choices(r, openai::choices_of(chunk), ids, 0) == openai::push_choice(r, c, ids));
}

proof fn delta_shows(key: Seq<char>, v: Tree)
    requires
        json::canonical(v) == v,
    ensures
        json::canonical(openai::delta1(key, v)) == openai::delta1(key, v),
        openai::delta1(key, v).at(key) == Some(v),
        forall|other: Seq<char>| other != key ==> (#[trigger] openai::delta1(key, v).at(other)) is None,
{
    round_trips::nothing_is_settled();
    reveal_with_fuel(json::find_from, 2);
    round_trips::grows(json::fs(), key, v);
}

proof fn words_are_read(p: ParserV, e: EncoderV, text: Seq<char>, ids: Seq<Seq<char>>)
    requires
        round_trips::legible(e.chunk(openai::delta1("content"@, json::st(text)), None)),
    ensures
        openai::push_frame(p, e.chunk(openai::delta1("content"@, json::st(text)), None), ids) == Ok::<Step, ErrorV>(
            worded(begun(e, p), text),
        ),
{
    chunk_names();
    let d = openai::delta1("content"@, json::st(text));
    delta_shows("content"@, json::st(text));
    choice_shows(d, None);
    chunk_is_read(p, e, d, None, ids);
    assert(d.at("reasoning_content"@) is None && d.at("reasoning"@) is None && d.at("tool_calls"@) is None);
    let c = choice(d, None);
    assert(openai::delta_calls(c) == Seq::<Tree>::empty());
    assert(openai::delta_reasoning(c) is None);
    assert(openai::delta_text(c) == if text.len() > 0 { Some(text) } else { None });
}

proof fn reasoning_is_read(p: ParserV, e: EncoderV, text: Seq<char>, ids: Seq<Seq<char>>)
    requires
        round_trips::legible(e.chunk(openai::delta1("reasoning_content"@, json::st(text)), None)),
    ensures
        openai::push_frame(p, e.chunk(openai::delta1("reasoning_content"@, json::st(text)), None), ids) == Ok::<
            Step,
            ErrorV,
        >(reasoned(begun(e, p), text)),
{
    chunk_names();
    let d = openai::delta1("reasoning_content"@, json::st(text));
    delta_shows("reasoning_content"@, json::st(text));
    choice_shows(d, None);
    chunk_is_read(p, e, d, None, ids);
    assert(d.at("content"@) is None && d.at("tool_calls"@) is None);
    let c = choice(d, None);
    assert(openai::delta_calls(c) == Seq::<Tree>::empty());
    assert(openai::delta_reasoning(c) == if text.len() > 0 { Some(text) } else { None });
    assert(openai::delta_text(c) is None);
}

spec fn role_delta() -> Tree {
    Tree::Obj(json::fs().with("role"@, json::st("assistant"@)).with("content"@, json::st(Seq::empty())))
}

proof fn role_is_read(p: ParserV, e: EncoderV, ids: Seq<Seq<char>>)
    requires
        round_trips::legible(e.chunk(role_delta(), None)),
    ensures
        openai::push_frame(p, e.chunk(role_delta(), None), ids) == Ok::<Step, ErrorV>(begun(e, p)),
{
    chunk_names();
    reveal_with_fuel(json::find_from, 3);
    round_trips::nothing_is_settled();
    let none = json::st(Seq::empty());
    round_trips::grows(json::fs(), "role"@, json::st("assistant"@));
    round_trips::grows(json::fs().with("role"@, json::st("assistant"@)), "content"@, none);
    let d = role_delta();
    choice_shows(d, None);
    chunk_is_read(p, e, d, None, ids);
    assert(d.at("reasoning_content"@) is None && d.at("reasoning"@) is None && d.at("tool_calls"@) is None);
    assert(d.at("content"@) == Some(none));
    let c = choice(d, None);
    assert(openai::delta_calls(c) == Seq::<Tree>::empty());
    assert(openai::delta_text(c) is None);
}

proof fn finish_is_read(p: ParserV, e: EncoderV, reason: StopReason, ids: Seq<Seq<char>>)
    requires
        round_trips::legible(e.chunk(openai::no_delta(), Some(openai::finish_or_stop(reason)))),
    ensures
        ({
            let s = begun(e, p);
            openai::push_frame(p, e.chunk(openai::no_delta(), Some(openai::finish_or_stop(reason))), ids) == Ok::<
                Step,
                ErrorV,
            >(Step { p: ParserV { pending_stop: Some(told_reason(reason)), ..s.p }, ..s })
        }),
{
    let finish = Some(openai::finish_or_stop(reason));
    let d = openai::no_delta();
    round_trips::nothing_is_settled();
    choice_shows(d, finish);
    chunk_is_read(p, e, d, finish, ids);
    openai::finish_reasons_round_trip(reason);
    openai::finish_reasons_round_trip(StopReason::EndTurn);
    reveal_strlit("stop");
    reveal_strlit("length");
    reveal_strlit("tool_calls");
    reveal_strlit("content_filter");
    assert(openai::finish_or_stop(reason).len() > 0);
    let c = choice(d, finish);
    assert(openai::delta_calls(c) == Seq::<Tree>::empty());
    assert(openai::delta_text(c) is None);
    assert(openai::delta_reasoning(c) is None);
}

spec fn start_call(slot: u64, id: Seq<char>, name: Seq<char>) -> Tree {
    Tree::Obj(
        json::fs().with("index"@, json::num(slot as int)).with("id"@, json::st(id)).with(
            "type"@,
            json::st("function"@),
        ).with(
            "function"@,
            Tree::Obj(json::fs().with("name"@, json::st(name)).with("arguments"@, json::st(Seq::empty()))),
        ),
    )
}

spec fn more_call(slot: u64, args: Seq<char>) -> Tree {
    Tree::Obj(
        json::fs().with("index"@, json::num(slot as int)).with(
            "function"@,
            openai::delta1("arguments"@, json::st(args)),
        ),
    )
}

spec fn calls_delta(call: Tree) -> Tree {
    openai::delta1("tool_calls"@, Tree::Arr(Seq::empty().push(call)))
}

proof fn call_is_read(p: ParserV, e: EncoderV, call: Tree, ids: Seq<Seq<char>>)
    requires
        round_trips::legible(e.chunk(calls_delta(call), None)),
        json::canonical(call) == call,
    ensures
        openai::push_frame(p, e.chunk(calls_delta(call), None), ids) == Ok::<Step, ErrorV>(
            openai::push_call(Run { s: begun(e, p), used: 0 }, call, ids).s,
        ),
{
    chunk_names();
    let d = calls_delta(call);
    let list = Tree::Arr(Seq::empty().push(call));
    lists_are_settled(call);
    delta_shows("tool_calls"@, list);
    choice_shows(d, None);
    chunk_is_read(p, e, d, None, ids);
    assert(d.at("reasoning_content"@) is None && d.at("reasoning"@) is None && d.at("content"@) is None);
    let c = choice(d, None);
    assert(openai::delta_reasoning(c) is None);
    assert(openai::delta_text(c) is None);
    assert(openai::delta_calls(c) == Seq::empty().push(call));
    assert(openai::delta_calls(c)[0] == call);
    let r = Run { s: begun(e, p), used: 0 };
    reveal_with_fuel(openai::push_calls, 2);
    assert(openai::push_calls(r, openai::delta_calls(c), ids, 0) == openai::push_call(r, call, ids));
}

proof fn start_is_read(p: ParserV, e: EncoderV, slot: u64, id: Seq<char>, name: Seq<char>, ids: Seq<Seq<char>>)
    requires
        round_trips::legible(e.chunk(calls_delta(start_call(slot, id, name)), None)),
    ensures
        openai::push_frame(p, e.chunk(calls_delta(start_call(slot, id, name)), None), ids) == Ok::<Step, ErrorV>(
            if openai::slot_block(p.tool_slots, slot, 0) is Some {
                begun(e, p)
            } else {
                called(begun(e, p), slot, id, name)
            },
        ),
{
    chunk_names();
    reveal_with_fuel(json::find_from, 5);
    round_trips::nothing_is_settled();
    let none = json::st(Seq::empty());
    round_trips::grows(json::fs(), "name"@, json::st(name));
    round_trips::grows(json::fs().with("name"@, json::st(name)), "arguments"@, none);
    let f = Tree::Obj(json::fs().with("name"@, json::st(name)).with("arguments"@, none));
    let a = json::fs();
    round_trips::grows(a, "index"@, json::num(slot as int));
    let b = a.with("index"@, json::num(slot as int));
    round_trips::grows(b, "id"@, json::st(id));
    let c = b.with("id"@, json::st(id));
    round_trips::grows(c, "type"@, json::st("function"@));
    let d = c.with("type"@, json::st("function"@));
    round_trips::grows(d, "function"@, f);
    let call = start_call(slot, id, name);
    assert(call == Tree::Obj(d.with("function"@, f)));
    assert(call.at("index"@) == Some(json::num(slot as int)));
    assert(call.at("id"@) == Some(json::st(id)));
    assert(call.at("function"@) == Some(f));
    assert(f.at("name"@) == Some(json::st(name)) && f.at("arguments"@) == Some(none));
    call_is_read(p, e, call, ids);
}

proof fn more_is_read(p: ParserV, e: EncoderV, slot: u64, args: Seq<char>, ids: Seq<Seq<char>>)
    requires
        round_trips::legible(e.chunk(calls_delta(more_call(slot, args)), None)),
        openai::slot_block(p.tool_slots, slot, 0) is Some,
    ensures
        openai::push_frame(p, e.chunk(calls_delta(more_call(slot, args)), None), ids) == Ok::<Step, ErrorV>(
            if args.len() == 0 {
                begun(e, p)
            } else {
                begun(e, p).emit(
                    EventV::ToolUseDelta { index: openai::slot_block(p.tool_slots, slot, 0)->0, partial_json: args },
                )
            },
        ),
{
    chunk_names();
    reveal_with_fuel(json::find_from, 3);
    round_trips::nothing_is_settled();
    let f = openai::delta1("arguments"@, json::st(args));
    delta_shows("arguments"@, json::st(args));
    let a = json::fs();
    round_trips::grows(a, "index"@, json::num(slot as int));
    round_trips::grows(a.with("index"@, json::num(slot as int)), "function"@, f);
    let call = more_call(slot, args);
    assert(call.at("index"@) == Some(json::num(slot as int)));
    assert(call.at("function"@) == Some(f));
    call_is_read(p, e, call, ids);
}

proof fn usage_is_settled(u: Usage)
    ensures
        json::canonical(openai::usage_out(u)) == openai::usage_out(u),
{
    reveal_strlit("prompt_tokens");
    reveal_strlit("completion_tokens");
    reveal_strlit("total_tokens");
    reveal_strlit("prompt_tokens_details");
    reveal_strlit("completion_tokens_details");
    assert("prompt_tokens"@.len() == 13 && "completion_tokens"@.len() == 17 && "total_tokens"@.len() == 12
        && "prompt_tokens_details"@.len() == 21 && "completion_tokens_details"@.len() == 25);
    reveal_with_fuel(json::find_from, 5);
    round_trips::nothing_is_settled();
    let cached = json::num(u.cache_read_tokens as int);
    let reasoned = json::num(u.reasoning_tokens as int);
    round_trips::grows(json::fs(), "cached_tokens"@, cached);
    round_trips::grows(json::fs(), "reasoning_tokens"@, reasoned);
    let a = json::fs();
    round_trips::grows(a, "prompt_tokens"@, json::num(u.input_tokens as int));
    let b = a.with("prompt_tokens"@, json::num(u.input_tokens as int));
    round_trips::grows(b, "completion_tokens"@, json::num(u.output_tokens as int));
    let c = b.with("completion_tokens"@, json::num(u.output_tokens as int));
    let total = json::num(u.input_tokens + u.output_tokens);
    round_trips::grows(c, "total_tokens"@, total);
    let d = c.with("total_tokens"@, total);
    let x = Tree::Obj(json::fs().with("cached_tokens"@, cached));
    round_trips::grows(d, "prompt_tokens_details"@, x);
    let f = d.with("prompt_tokens_details"@, x);
    round_trips::grows(f, "completion_tokens_details"@, Tree::Obj(json::fs().with("reasoning_tokens"@, reasoned)));
}

proof fn counters_are_read(p: ParserV, e: EncoderV, u: Usage, ids: Seq<Seq<char>>)
    requires
        round_trips::legible(e.usage_chunk(u)),
        p.started,
        p.pending_stop is Some,
    ensures
        openai::push_frame(p, e.usage_chunk(u), ids) == Ok::<Step, ErrorV>(
            openai::at_rest(
                ParserV {
                    usage: if u.total_spec() > 0 { Usage { cache_write_tokens: 0, ..u } } else { p.usage },
                    ..p
                },
            ).emit_stop(),
        ),
{
    chunk_names();
    reveal_with_fuel(json::find_from, 7);
    head_is_settled(e);
    let list = Tree::Arr(Seq::empty());
    lists_are_settled(Tree::Null);
    usage_is_settled(u);
    round_trips::openai::usage_comes_back(u);
    round_trips::grows(head(e), "choices"@, list);
    let a = head(e).with("choices"@, list);
    round_trips::grows(a, "usage"@, openai::usage_out(u));
    let chunk = Tree::Obj(a.with("usage"@, openai::usage_out(u)));
    document_is_read(e.usage_chunk(u), chunk);
    assert(chunk.at("choices"@) == Some(list));
    assert(chunk.at("usage"@) == Some(openai::usage_out(u)));
    assert(chunk.at("error"@) is None);
}

proof fn done_is_read(p: ParserV, ids: Seq<Seq<char>>)
    requires
        p.started,
    ensures
        openai::push_frame(p, done_frame(), ids) == Ok::<Step, ErrorV>(openai::at_rest(p).emit_stop()),
{
    reveal_strlit("[DONE]");
    let d = "[DONE]"@;
    assert(d.len() == 6 && d[0] == '[' && d[5] == ']');
    assert(text::trimmed_start(d) == d);
    assert(text::trimmed_end(d) == d);
}

// ------------------------------------------------------------------- reading

/// The frames of a writer so far, read.
spec fn reads_as(p: ParserV, w: Written, s: Step, ids: Seq<Seq<char>>) -> bool {
    read(p, w.out, ids) == Ok::<Step, ErrorV>(s)
}

/// One frame more.
proof fn frame_more(p: ParserV, w: Written, s: Step, f: FrameV, ids: Seq<Seq<char>>)
    requires
        reads_as(p, w, s, ids),
        openai::push_frame(s.p, f, ids) is Ok,
    ensures
        ({
            let t = openai::push_frame(s.p, f, ids)->Ok_0;
            reads_as(p, w.emit(f), Step { p: t.p, out: s.out + t.out }, ids)
        }),
{
    assert(w.emit(f).out.drop_last() =~= w.out);
}

proof fn frames_before(w: Written, f: FrameV)
    requires
        round_trips::all_legible(w.emit(f).out),
    ensures
        round_trips::all_legible(w.out),
        round_trips::legible(f),
{
    let all = w.emit(f).out;
    assert forall|i: int| 0 <= i < w.out.len() implies round_trips::legible(#[trigger] w.out[i]) by {
        assert(all[i] == w.out[i]);
    }
    assert(all[w.out.len() as int] == f);
}

/// Nothing written yet.
spec fn blank(e: EncoderV) -> Written {
    Written { e, out: Seq::empty() }
}

proof fn begin_is_read(e: EncoderV, p: ParserV, ids: Seq<Seq<char>>)
    requires
        in_step(e, p),
        round_trips::all_legible(blank(e).ensure_role().out),
    ensures
        reads_as(p, blank(e).ensure_role(), begun(e, p), ids),
        blank(e).ensure_role().e == (EncoderV { role_sent: true, ..e }),
{
    let w = blank(e);
    assert(reads_as(p, w, openai::at_rest(p), ids));
    if !e.role_sent {
        let e1 = EncoderV { role_sent: true, ..e };
        let w1 = Written { e: e1, ..w };
        assert(reads_as(p, w1, openai::at_rest(p), ids));
        let f = e1.chunk(role_delta(), None);
        assert(w.ensure_role() == w1.emit(f));
        frames_before(w1, f);
        role_is_read(p, e1, ids);
        frame_more(p, w1, openai::at_rest(p), f, ids);
        assert(Seq::<EventV>::empty() + begun(e, p).out =~= begun(e, p).out);
    }
}

/// What is told later is told behind what was told before.
proof fn later(s: Step, text: Seq<char>, slot: u64, id: Seq<char>, name: Seq<char>)
    ensures
        ({
            let r = openai::at_rest(s.p);
            &&& worded(s, text) == (Step { p: worded(r, text).p, out: s.out + worded(r, text).out })
            &&& reasoned(s, text) == (Step { p: reasoned(r, text).p, out: s.out + reasoned(r, text).out })
            &&& called(s, slot, id, name) == (Step {
                p: called(r, slot, id, name).p,
                out: s.out + called(r, slot, id, name).out,
            })
            &&& s == (Step { p: r.p, out: s.out + r.out })
            &&& s.emit_stop() == (Step { p: r.emit_stop().p, out: s.out + r.emit_stop().out })
        }),
{
    let r = openai::at_rest(s.p);
    assert(worded(s, text).out =~= s.out + worded(r, text).out);
    assert(reasoned(s, text).out =~= s.out + reasoned(r, text).out);
    assert(called(s, slot, id, name).out =~= s.out + called(r, slot, id, name).out);
    assert(s.out + r.out =~= s.out);
    assert(s.emit_stop().out =~= s.out + r.emit_stop().out);
}

proof fn slots_are_counted(slots: Seq<(u32, u64)>, index: u32, i: int)
    requires
        0 <= i <= slots.len(),
        forall|j: int| 0 <= j < slots.len() ==> (#[trigger] slots[j]).1 == j,
    ensures
        openai::block_slot(slots, index, i) matches Some(s) ==> s < slots.len(),
    decreases slots.len() - i,
{
    if i < slots.len() && slots[i].0 != index {
        slots_are_counted(slots, index, i + 1);
    }
}

proof fn one_slot_more(slots: Seq<(u64, u32)>, slot: u64, index: u32, s: u64, i: int)
    requires
        0 <= i <= slots.len(),
    ensures
        openai::slot_block(slots.push((slot, index)), s, i) == match openai::slot_block(slots, s, i) {
            Some(b) => Some(b),
            None => if s == slot { Some(index) } else { None },
        },
    decreases slots.len() - i,
{
    let more = slots.push((slot, index));
    if i < slots.len() {
        assert(more[i] == slots[i]);
        if slots[i].0 != s {
            one_slot_more(slots, slot, index, s, i + 1);
        }
    } else {
        assert(more[i] == (slot, index));
        reveal_with_fuel(openai::slot_block, 2);
    }
}

/// A tool's block, once the writer has a slot for it.
proof fn slot_is_known(e: EncoderV, p: ParserV, index: u32)
    requires
        in_step(e, p),
        e.tool_slots.len() < u64::MAX,
    ensures
        openai::slot_block(p.tool_slots, e.slot(index), 0) is Some == openai::block_slot(e.tool_slots, index, 0) is Some,
{
    slots_are_counted(e.tool_slots, index, 0);
}

proof fn start_stays_in_step(e: EncoderV, p: ParserV, index: u32, id: Seq<char>, name: Seq<char>)
    requires
        in_step(e, p),
        e.tool_slots.len() < u64::MAX,
        openai::block_slot(e.tool_slots, index, 0) is None,
    ensures
        ({
            let e1 = EncoderV { role_sent: true, ..e };
            in_step(e1.with_slot(index), called(begun(e, p), e.slot(index), id, name).p)
        }),
{
    let slot = e.slot(index);
    let t = begun(e, p).open_block(Block::Tool);
    let q = called(begun(e, p), slot, id, name).p;
    assert(t.p.tool_slots == p.tool_slots);
    let n = EncoderV { role_sent: true, ..e }.with_slot(index);
    assert forall|s: u64| (#[trigger] openai::slot_block(q.tool_slots, s, 0)) is Some <==> s < n.tool_slots.len() by {
        one_slot_more(p.tool_slots, slot, t.index(), s, 0);
        assert(openai::slot_block(p.tool_slots, s, 0) is Some <==> s < e.tool_slots.len());
    }
}

proof fn end_is_read(e: EncoderV, p: ParserV, ev: EventV, ids: Seq<Seq<char>>)
    requires
        in_step(e, p),
        ev is Stop,
        round_trips::all_legible(documents(e, ev)),
    ensures
        ({
            let w = openai::encoded_event(e, ev);
            reads_as(p, w, told(e, p, ev), ids) && in_step(w.e, told(e, p, ev).p)
        }),
{
    let reason = ev->Stop_stop_reason;
    let usage = ev->Stop_usage;
    let w = blank(e).ensure_role();
    let w1 = Written { e: EncoderV { usage, ..w.e }, ..w };
    let f = w1.e.chunk(openai::no_delta(), Some(openai::finish_or_stop(reason)));
    let w2 = w1.emit(f);
    let g = w1.e.usage_chunk(usage);
    let w3 = if e.include_usage { w2.emit(g) } else { w2 };
    let all = openai::encoded_event(e, ev);
    assert(all.out == w3.emit(done_frame()).out);
    assert(all.out.drop_last() =~= w3.out);
    if e.include_usage {
        frames_before(w2, g);
    }
    frames_before(w1, f);
    begin_is_read(e, p, ids);
    let s = begun(e, p);
    assert(reads_as(p, w1, s, ids));
    finish_is_read(s.p, w1.e, reason, ids);
    frame_more(p, w1, s, f, ids);
    let waits = ParserV { pending_stop: Some(told_reason(reason)), ..s.p };
    let s2 = Step { p: waits, out: s.out };
    assert(s.out + Seq::empty() =~= s.out);
    assert(reads_as(p, w2, s2, ids));
    let counted = ParserV {
        usage: if e.include_usage && usage.total_spec() > 0 {
            Usage { cache_write_tokens: 0, ..usage }
        } else {
            s.p.usage
        },
        ..waits
    };
    let s3 = Step { p: counted, out: s.out };
    later(s3, Seq::empty(), 0, Seq::empty(), Seq::empty());
    let stop = openai::at_rest(counted).emit_stop();
    if e.include_usage {
        counters_are_read(waits, w1.e, usage, ids);
        frame_more(p, w2, s2, g, ids);
        let s4 = Step { p: stop.p, out: s.out + stop.out };
        assert(reads_as(p, w3, s4, ids));
        done_is_read(stop.p, ids);
        frame_more(p, w3, s4, done_frame(), ids);
        let again = openai::at_rest(stop.p).emit_stop();
        assert(again.out =~= Seq::empty());
        assert(again.p == stop.p);
        assert(s4.out + again.out =~= s4.out);
    } else {
        done_is_read(waits, ids);
        frame_more(p, w3, s2, done_frame(), ids);
    }
    assert(told(e, p, ev) == s3.emit_stop());
}

/// What a writer puts out for an event tells a reader the event, under the reader's
/// own count of the blocks, behind the start of the stream where that was not told
/// yet. Reader and writer stay in step, so a stream that is written and read again
/// tells the same words, reasoning, tool calls and end.
///
/// A tool call's arguments come behind its start.
pub proof fn openai_streams_come_back(e: EncoderV, p: ParserV, ev: EventV, ids: Seq<Seq<char>>)
    requires
        in_step(e, p),
        e.tool_slots.len() < u64::MAX,
        ev matches EventV::ToolUseDelta { index, .. } ==> openai::block_slot(e.tool_slots, index, 0) is Some,
        round_trips::all_legible(documents(e, ev)),
    ensures
        ({
            let w = openai::encoded_event(e, ev);
            let r = read(p, w.out, ids);
            r == Ok::<Step, ErrorV>(told(e, p, ev)) && in_step(w.e, told(e, p, ev).p)
        }),
{
    let w = openai::encoded_event(e, ev);
    let s = begun(e, p);
    let w1 = blank(e).ensure_role();
    let none = Seq::<char>::empty();
    match ev {
        EventV::Start { id, model, usage } => {
            let e1 = EncoderV { id: told_id(id), model, usage, ..e };
            assert(w == blank(e1).ensure_role());
            begin_is_read(e1, p, ids);
        },
        EventV::TextDelta { text, .. } => {
            let f = w1.e.chunk(openai::delta1("content"@, json::st(text)), None);
            frames_before(w1, f);
            begin_is_read(e, p, ids);
            words_are_read(s.p, w1.e, text, ids);
            frame_more(p, w1, s, f, ids);
            later(s, text, 0, none, none);
        },
        EventV::ThinkingDelta { text, .. } => {
            let f = w1.e.chunk(openai::delta1("reasoning_content"@, json::st(text)), None);
            frames_before(w1, f);
            begin_is_read(e, p, ids);
            reasoning_is_read(s.p, w1.e, text, ids);
            frame_more(p, w1, s, f, ids);
            later(s, text, 0, none, none);
        },
        EventV::RedactedThinking { data, .. } => {
            if let Some(text) = openai::blob_of(data) {
                let f = w1.e.chunk(openai::delta1("reasoning_content"@, json::st(text)), None);
                frames_before(w1, f);
                begin_is_read(e, p, ids);
                reasoning_is_read(s.p, w1.e, text, ids);
                frame_more(p, w1, s, f, ids);
                later(s, text, 0, none, none);
            }
        },
        EventV::ToolUseStart { index, id, name } => {
            let w2 = Written { e: w1.e.with_slot(index), ..w1 };
            let slot = e.slot(index);
            let f = w2.e.chunk(calls_delta(start_call(slot, id, name)), None);
            assert(w == w2.emit(f));
            frames_before(w2, f);
            begin_is_read(e, p, ids);
            assert(reads_as(p, w2, s, ids));
            slot_is_known(e, p, index);
            start_is_read(s.p, w2.e, slot, id, name, ids);
            frame_more(p, w2, s, f, ids);
            later(s, none, slot, id, name);
            if openai::block_slot(e.tool_slots, index, 0) is None {
                start_stays_in_step(e, p, index, id, name);
            }
        },
        EventV::ToolUseDelta { index, partial_json } => {
            let w2 = Written { e: w1.e.with_slot(index), ..w1 };
            let slot = e.slot(index);
            let f = w2.e.chunk(calls_delta(more_call(slot, partial_json)), None);
            assert(w == w2.emit(f));
            frames_before(w2, f);
            begin_is_read(e, p, ids);
            assert(reads_as(p, w2, s, ids));
            slot_is_known(e, p, index);
            more_is_read(s.p, w2.e, slot, partial_json, ids);
            frame_more(p, w2, s, f, ids);
            let t = openai::push_frame(s.p, f, ids)->Ok_0;
            assert(s.out + t.out =~= told(e, p, ev).out);
        },
        EventV::Stop { .. } => {
            end_is_read(e, p, ev, ids);
        },
        _ => {
            assert(reads_as(p, w, openai::at_rest(p), ids));
        },
    }
}

// -------------------------------------------------------------- whole streams

/// A writer after a number of events, with all their frames.
pub open spec fn written(e: EncoderV, es: Seq<EventV>) -> Written
    decreases es.len(),
{
    if es.len() == 0 {
        Written { e, out: Seq::empty() }
    } else {
        let w = written(e, es.drop_last());
        let x = openai::encoded_event(w.e, es.last());
        Written { e: x.e, out: w.out + x.out }
    }
}

/// An event that can be told: the documents of its frames are read as they were
/// written, and a tool call's arguments come behind its start.
pub open spec fn tellable(e: EncoderV, ev: EventV) -> bool {
    &&& e.tool_slots.len() < u64::MAX
    &&& ev matches EventV::ToolUseDelta { index, .. } ==> openai::block_slot(e.tool_slots, index, 0) is Some
    &&& round_trips::all_legible(documents(e, ev))
}

pub open spec fn all_tellable(e: EncoderV, es: Seq<EventV>) -> bool {
    forall|n: int| 0 <= n < es.len() ==> tellable(written(e, es.take(n)).e, #[trigger] es[n])
}

proof fn reading_goes_on(p: ParserV, a: Seq<FrameV>, b: Seq<FrameV>, ids: Seq<Seq<char>>)
    requires
        read(p, a, ids) is Ok,
    ensures
        read(p, a + b, ids) == match read(read(p, a, ids)->Ok_0.p, b, ids) {
            Ok(t) => Ok::<Step, ErrorV>(Step { p: t.p, out: read(p, a, ids)->Ok_0.out + t.out }),
            Err(e) => Err(e),
        },
    decreases b.len(),
{
    let s = read(p, a, ids)->Ok_0;
    if b.len() == 0 {
        assert(a + b =~= a);
        assert(s.out + Seq::empty() =~= s.out);
    } else {
        reading_goes_on(p, a, b.drop_last(), ids);
        assert((a + b).drop_last() =~= a + b.drop_last());
        assert((a + b).last() == b.last());
        if let Ok(t) = read(s.p, b.drop_last(), ids) {
            if let Ok(x) = openai::push_frame(t.p, b.last(), ids) {
                assert((s.out + t.out) + x.out =~= s.out + (t.out + x.out));
            }
        }
    }
}

/// A new writer and a new reader are in step.
pub proof fn beginners_are_in_step(model: Seq<char>, id: Seq<char>, created: i64, other: Seq<char>)
    ensures
        in_step(openai::fresh_encoder(model, id, created), openai::fresh_parser(other)),
{
}

/// What is told of a step: nothing but the event at its end.
proof fn last_is_told(s: Step, ev: EventV)
    ensures
        round_trips::words(s.emit(ev).out) == match ev {
            EventV::TextDelta { text, .. } => round_trips::words(s.out) + text,
            _ => round_trips::words(s.out),
        },
        round_trips::thoughts(s.emit(ev).out) == match ev {
            EventV::ThinkingDelta { text, .. } => round_trips::thoughts(s.out) + text,
            _ => round_trips::thoughts(s.out),
        },
{
    round_trips::one_telling_more(s.out, ev);
}

proof fn closing_tells_nothing(s: Step)
    ensures
        round_trips::words(s.close_current().out) == round_trips::words(s.out),
        round_trips::thoughts(s.close_current().out) == round_trips::thoughts(s.out),
        s.close_current().p == (ParserV { current: None, ..s.p }),
{
    if let Some((index, _)) = s.p.current {
        last_is_told(Step { p: ParserV { current: None, ..s.p }, ..s }, EventV::BlockStop { index });
    }
}

proof fn begin_tells_nothing(e: EncoderV, p: ParserV)
    ensures
        round_trips::words(begun(e, p).out) == Seq::<char>::empty(),
        round_trips::thoughts(begun(e, p).out) == Seq::<char>::empty(),
{
    if !p.started {
        let model = if e.model.len() > 0 { e.model } else { p.model };
        round_trips::one_telling_more(Seq::empty(), EventV::Start { id: e.id, model, usage: p.usage });
    }
}

proof fn events_are_told(e: EncoderV, p: ParserV, ev: EventV)
    requires
        !(ev is RedactedThinking),
    ensures
        round_trips::words(told(e, p, ev).out) == round_trips::words(Seq::empty().push(ev)),
        round_trips::thoughts(told(e, p, ev).out) == round_trips::thoughts(Seq::empty().push(ev)),
{
    let none = Seq::<EventV>::empty();
    let s = begun(e, p);
    round_trips::one_telling_more(none, ev);
    begin_tells_nothing(e, p);
    match ev {
        EventV::Start { id, model, usage } => {
            begin_tells_nothing(EncoderV { id: told_id(id), model, usage, ..e }, p);
        },
        EventV::TextDelta { text, .. } => {
            closing_tells_nothing(s);
            let b = s.block_for(Block::Text);
            last_is_told(b, EventV::TextDelta { index: b.index(), text });
            assert(text.len() == 0 ==> text =~= Seq::empty());
            assert(Seq::<char>::empty() + text =~= text);
        },
        EventV::ThinkingDelta { text, .. } => {
            closing_tells_nothing(s);
            let b = s.block_for(Block::Thinking);
            last_is_told(b, EventV::ThinkingDelta { index: b.index(), text });
            assert(text.len() == 0 ==> text =~= Seq::empty());
            assert(Seq::<char>::empty() + text =~= text);
        },
        EventV::ToolUseStart { index, id, name } => {
            closing_tells_nothing(s);
            let t = s.open_block(Block::Tool);
            let u = Step { p: ParserV { tool_slots: t.p.tool_slots.push((e.slot(index), t.index())), ..t.p }, ..t };
            last_is_told(u, EventV::ToolUseStart { index: t.index(), id, name });
        },
        EventV::ToolUseDelta { index, partial_json } => {
            last_is_told(
                s,
                EventV::ToolUseDelta { index: openai::slot_block(p.tool_slots, e.slot(index), 0)->0, partial_json },
            );
        },
        EventV::Stop { stop_reason, usage, .. } => {
            let counted = e.include_usage && usage.total_spec() > 0;
            let q = ParserV {
                pending_stop: Some(told_reason(stop_reason)),
                usage: if counted { Usage { cache_write_tokens: 0, ..usage } } else { s.p.usage },
                ..s.p
            };
            let t = Step { p: ParserV { pending_stop: None, ..q }, ..s };
            closing_tells_nothing(t);
            last_is_told(
                t.close_current(),
                EventV::Stop { stop_reason: told_reason(stop_reason), stop_sequence: None, usage: q.usage },
            );
        },
        _ => {},
    }
}

/// A stream that is written and read again tells the same words and the same reasoning,
/// and reader and writer are in step at its end. Hidden reasoning, which has no form of
/// its own here, is left out.
pub proof fn openai_streams_keep_their_words(e: EncoderV, p: ParserV, es: Seq<EventV>, ids: Seq<Seq<char>>)
    requires
        in_step(e, p),
        all_tellable(e, es),
        forall|n: int| 0 <= n < es.len() ==> !((#[trigger] es[n]) is RedactedThinking),
    ensures
        ({
            let r = read(p, written(e, es).out, ids);
            &&& r is Ok
            &&& round_trips::words(r->Ok_0.out) == round_trips::words(es)
            &&& round_trips::thoughts(r->Ok_0.out) == round_trips::thoughts(es)
            &&& in_step(written(e, es).e, r->Ok_0.p)
        }),
    decreases es.len(),
{
    if es.len() > 0 {
        let before = es.drop_last();
        let ev = es.last();
        let w = written(e, before);
        let x = openai::encoded_event(w.e, ev);
        let all = w.out + x.out;
        assert(es.take(es.len() - 1) =~= before);
        assert(es[es.len() - 1] == ev);
        assert(tellable(w.e, ev));
        assert forall|n: int| 0 <= n < before.len() implies tellable(
            written(e, before.take(n)).e,
            #[trigger] before[n],
        ) && !(before[n] is RedactedThinking) by {
            assert(before.take(n) =~= es.take(n));
            assert(before[n] == es[n]);
        }
        openai_streams_keep_their_words(e, p, before, ids);
        let s = read(p, w.out, ids)->Ok_0;
        openai_streams_come_back(w.e, s.p, ev, ids);
        reading_goes_on(p, w.out, x.out, ids);
        let more = told(w.e, s.p, ev);
        round_trips::tellings_join(s.out, more.out);
        events_are_told(w.e, s.p, ev);
        round_trips::one_telling_more(Seq::empty(), ev);
        assert(before.push(ev) =~= es);
        round_trips::one_telling_more(before, ev);
        let r = read(p, all, ids)->Ok_0;
        assert(round_trips::words(r.out) =~= round_trips::words(es));
        assert(round_trips::thoughts(r.out) =~= round_trips::thoughts(es));
    }
}

} // verus!
