//! What is read of a Responses stream, event by event.

use vstd::prelude::*;

use crate::error::ErrorV;
use crate::ir::{EventV, StopReason, Usage};
use crate::json::{Lookup, Tree};
use crate::protocol::responses;
use crate::protocol::responses::{ParserV, Step};
use crate::protocol::sse::FrameV;
use crate::text;

verus! {

/// The block under which a name was last numbered.
pub open spec fn numbered(m: Seq<(Seq<char>, u32)>, name: Seq<char>, n: Option<u32>) -> bool {
    match n {
        Some(x) => exists|k: int|
            0 <= k < m.len() && #[trigger] m[k] == (name, x) && forall|j: int| 0 <= j < k ==> (#[trigger] m[j]).0 != name,
        None => forall|j: int| 0 <= j < m.len() ==> (#[trigger] m[j]).0 != name,
    }
}

proof fn the_first_name(m: Seq<(Seq<char>, u32)>, name: Seq<char>, i: int)
    requires
        0 <= i <= m.len(),
        forall|j: int| 0 <= j < i ==> (#[trigger] m[j]).0 != name,
    ensures
        ({
            let at = responses::name_at(m, name, i);
            &&& i <= at <= m.len()
            &&& at < m.len() ==> m[at].0 == name
            &&& forall|j: int| 0 <= j < at ==> (#[trigger] m[j]).0 != name
        }),
    decreases m.len() - i,
{
    if i < m.len() && m[i].0 != name {
        the_first_name(m, name, i + 1);
    }
}

/// Names are found by themselves: a name that was numbered has its number, and the
/// number of any other name is what it was. The empty name has none.
pub proof fn names_are_numbered(m: Seq<(Seq<char>, u32)>, name: Seq<char>, n: u32, other: Seq<char>)
    ensures
        numbered(m, other, responses::number_of(m, other)),
        name.len() > 0 ==> responses::number_of(responses::with_number(m, name, n), name) == Some(n),
        other != name || name.len() == 0 ==> responses::number_of(responses::with_number(m, name, n), other)
            == responses::number_of(m, other),
{
    the_first_name(m, other, 0);
    the_first_name(m, name, 0);
    let at = responses::name_at(m, name, 0);
    let o = responses::name_at(m, other, 0);
    if o < m.len() {
        assert(m[o] == (other, m[o].1));
    }
    let z = responses::with_number(m, name, n);
    the_first_name(z, name, 0);
    the_first_name(z, other, 0);
    let zat = responses::name_at(z, name, 0);
    let zo = responses::name_at(z, other, 0);
    if name.len() > 0 {
        if at < m.len() {
            assert(z[at] == (name, n));
            if zat < at {
                assert(z[zat] == m[zat]);
            }
        } else {
            assert(z[m.len() as int] == (name, n));
            if zat < m.len() {
                assert(z[zat] == m[zat]);
            }
        }
        if other != name {
            if o < m.len() {
                assert(z[o] == m[o]);
                if zo < o {
                    assert(z[zo] == m[zo] || zo == at);
                }
            } else if zo < z.len() {
                if zo < m.len() {
                    assert(z[zo] == m[zo] || zo == at);
                }
            }
        }
    }
}

proof fn kinds_differ()
    ensures
        "response.created"@.len() == 16,
        "response.output_item.added"@.len() == 26 && "response.output_item.added"@[9] == 'o' && "response.output_item.added"@[16]
            == 'i',
        "response.content_part.added"@.len() == 27,
        "response.content_part.done"@.len() == 26 && "response.content_part.done"@[9] == 'c',
        "response.output_item.done"@.len() == 25,
        "response.output_text.delta"@.len() == 26 && "response.output_text.delta"@[9] == 'o'
            && "response.output_text.delta"@[16] == 't',
        "response.function_call_arguments.delta"@.len() == 38,
        "response.reasoning_summary_text.delta"@.len() == 37,
        "response.completed"@.len() == 18,
{
    reveal_strlit("response.created");
    reveal_strlit("response.output_item.added");
    reveal_strlit("response.content_part.added");
    reveal_strlit("response.content_part.done");
    reveal_strlit("response.output_item.done");
    reveal_strlit("response.output_text.delta");
    reveal_strlit("response.function_call_arguments.delta");
    reveal_strlit("response.reasoning_summary_text.delta");
    reveal_strlit("response.completed");
}

/// The block that words go to: the one that is open, or the next one.
pub open spec fn words_go_to(p: ParserV) -> u32 {
    if p.text_index is Some { p.text_index->0 } else { p.next_index }
}

/// The block that thoughts go to: the one that is open, or the next one.
pub open spec fn thoughts_go_to(p: ParserV) -> u32 {
    if p.thinking_index is Some { p.thinking_index->0 } else { p.next_index }
}

/// The first event of an answer starts it, with who answers.
pub proof fn beginnings_are_read(p: ParserV, e: Tree)
    requires
        e.at("type"@).text() == Some("response.created"@),
    ensures
        ({
            let r = responses::push_event(p, e);
            let id = e.at("response"@).at("id"@).text_or("resp_stream"@);
            let model = e.at("response"@).at("model"@).text_or(p.model);
            &&& r.out == seq![EventV::Start { id, model, usage: p.usage }]
            &&& r.p == (ParserV { id, model, started: true, ..p })
        }),
{
    kinds_differ();
    let r = responses::push_event(p, e);
    assert(r.out =~= seq![r.out[0]]);
}

/// Words and thoughts go on, whole, to the block that is open for them, and open one
/// where none is.
pub proof fn pieces_are_read(p: ParserV, e: Tree, text: Seq<char>)
    requires
        e.at("delta"@).text() == Some(text),
    ensures
        e.at("type"@).text() == Some("response.output_text.delta"@) ==> ({
            let r = responses::push_event(p, e);
            &&& r.out == seq![EventV::TextDelta { index: words_go_to(p), text }]
            &&& r.p.text_index == Some(words_go_to(p))
            &&& r.p.thinking_index == p.thinking_index
            &&& r.p.tool_indices == p.tool_indices
            &&& p.text_index is Some ==> r.p == p
            &&& p.text_index is None && p.next_index < u32::MAX ==> r.p.next_index == p.next_index + 1
        }),
        e.at("type"@).text() == Some("response.reasoning_summary_text.delta"@) ==> ({
            let r = responses::push_event(p, e);
            &&& r.out == seq![EventV::ThinkingDelta { index: thoughts_go_to(p), text }]
            &&& r.p.thinking_index == Some(thoughts_go_to(p))
            &&& r.p.text_index == p.text_index
            &&& r.p.tool_indices == p.tool_indices
            &&& p.thinking_index is Some ==> r.p == p
            &&& p.thinking_index is None && p.next_index < u32::MAX ==> r.p.next_index == p.next_index + 1
        }),
{
    kinds_differ();
    let r = responses::push_event(p, e);
    if e.at("type"@).text() == Some("response.output_text.delta"@) || e.at("type"@).text() == Some(
        "response.reasoning_summary_text.delta"@,
    ) {
        assert(r.out =~= seq![r.out[0]]);
    }
}

/// A call that begins has a block of its own, which its item and its call are known by
/// from then on.
pub proof fn calls_are_begun(p: ParserV, e: Tree)
    requires
        e.at("type"@).text() == Some("response.output_item.added"@),
        p.next_index < u32::MAX,
    ensures
        ({
            let item = e.at("item"@);
            let r = responses::push_event(p, e);
            let id = item.at("call_id"@).text_or(Seq::empty());
            &&& item.at("type"@).text() == Some("function_call"@) ==> {
                &&& r.out == seq![
                    EventV::ToolUseStart { index: p.next_index, id, name: item.at("name"@).text_or(Seq::empty()) },
                ]
                &&& r.p.next_index == p.next_index + 1
                &&& r.p.text_index == p.text_index
                &&& r.p.thinking_index == p.thinking_index
                &&& id.len() > 0 ==> responses::number_of(r.p.tool_indices, id) == Some(p.next_index)
                &&& item.at("id"@).words() is Some ==> responses::number_of(
                    r.p.tool_indices,
                    item.at("id"@).words()->0,
                ) == Some(p.next_index)
                &&& forall|other: Seq<char>|
                    other != id && Some(other) != item.at("id"@).text() ==> #[trigger] responses::number_of(
                        r.p.tool_indices,
                        other,
                    ) == responses::number_of(p.tool_indices, other)
            }
            &&& item.at("type"@).text() != Some("function_call"@) ==> r.out.len() == 0 && r.p == p
        }),
{
    kinds_differ();
    let item = e.at("item"@);
    let r = responses::push_event(p, e);
    let id = item.at("call_id"@).text_or(Seq::empty());
    let item_id = item.at("id"@).text_or(Seq::empty());
    let m = responses::with_number(p.tool_indices, item_id, p.next_index);
    names_are_numbered(p.tool_indices, item_id, p.next_index, item_id);
    names_are_numbered(m, id, p.next_index, id);
    names_are_numbered(m, id, p.next_index, item_id);
    if item.at("type"@).text() == Some("function_call"@) {
        assert(r.out =~= seq![r.out[0]]);
        assert forall|other: Seq<char>| other != id && Some(other) != item.at("id"@).text() implies
            #[trigger] responses::number_of(r.p.tool_indices, other) == responses::number_of(
            p.tool_indices,
            other,
        ) by {
            names_are_numbered(p.tool_indices, item_id, p.next_index, other);
            names_are_numbered(m, id, p.next_index, other);
        }
    }
}

/// Arguments go on, whole, to the block of their call, which is known by its item or
/// else by its id; arguments of no call that was begun are passed over.
pub proof fn arguments_are_read(p: ParserV, e: Tree)
    requires
        e.at("type"@).text() == Some("response.function_call_arguments.delta"@),
    ensures
        ({
            let r = responses::push_event(p, e);
            let by_item = responses::number_of(p.tool_indices, e.at("item_id"@).text_or(Seq::empty()));
            let by_call = responses::number_of(p.tool_indices, e.at("call_id"@).text_or(Seq::empty()));
            let known = by_item is Some || (e.at("call_id"@).text() is Some && by_call is Some);
            &&& r.p == p
            &&& known && e.at("delta"@).text() is Some ==> r.out == seq![
                EventV::ToolUseDelta {
                    index: if by_item is Some { by_item->0 } else { by_call->0 },
                    partial_json: e.at("delta"@).text()->0,
                },
            ]
            &&& !known || e.at("delta"@).text() is None ==> r.out.len() == 0
        }),
{
    kinds_differ();
    let r = responses::push_event(p, e);
    if r.out.len() > 0 {
        assert(r.out =~= seq![r.out[0]]);
    }
}

/// When a part of words or of thoughts is done, what follows has a block of its own;
/// when an item is done, both do.
pub proof fn endings_of_parts_are_read(p: ParserV, e: Tree)
    ensures
        e.at("type"@).text() == Some("response.content_part.done"@) ==> ({
            let kind = e.at("part"@).at("type"@).text();
            let r = responses::push_event(p, e);
            &&& r.out.len() == 0
            &&& r.p == (ParserV {
                text_index: if kind == Some("output_text"@) { None } else { p.text_index },
                thinking_index: if kind == Some("reasoning"@) { None } else { p.thinking_index },
                ..p
            })
        }),
        e.at("type"@).text() == Some("response.output_item.done"@) ==> responses::push_event(p, e).out.len() == 0
            && responses::push_event(p, e).p == (ParserV { text_index: None, thinking_index: None, ..p }),
        e.at("type"@).text() == Some("response.content_part.added"@) ==> ({
            let kind = e.at("part"@).at("type"@).text();
            let r = responses::push_event(p, e);
            &&& r.out.len() == 0
            &&& kind == Some("output_text"@) ==> r.p.text_index == Some(words_go_to(p))
            &&& kind == Some("reasoning"@) ==> r.p.thinking_index == Some(thoughts_go_to(p))
            &&& kind != Some("output_text"@) ==> r.p.text_index == p.text_index
            &&& kind != Some("reasoning"@) ==> r.p.thinking_index == p.thinking_index
            &&& r.p.tool_indices == p.tool_indices
        }),
{
    kinds_differ();
    reveal_strlit("output_text");
    reveal_strlit("reasoning");
    assert("output_text"@.len() == 11 && "reasoning"@.len() == 9);
}

/// The last event stops the answer with the usage that it reports, or else with the one
/// that was known; an answer that was never begun is begun first.
pub proof fn endings_are_read(p: ParserV, e: Tree)
    requires
        e.at("type"@).text() == Some("response.completed"@),
    ensures
        ({
            let r = responses::push_event(p, e);
            let told = e.at("response"@).at("usage"@);
            let usage: Usage = if told is Some { responses::usage_of(told) } else { p.usage };
            let stop = EventV::Stop { stop_reason: StopReason::EndTurn, stop_sequence: None, usage };
            &&& p.started ==> r.out == seq![stop]
            &&& !p.started ==> r.out == seq![EventV::Start { id: p.id, model: p.model, usage: p.usage }, stop]
            &&& r.p == (ParserV { started: true, stopped: true, usage, ..p })
        }),
{
    kinds_differ();
    let r = responses::push_event(p, e);
    if p.started {
        assert(r.out =~= seq![r.out[0]]);
    } else {
        assert(r.out =~= seq![r.out[0], r.out[1]]);
    }
}

/// An event of no known kind brings nothing, and neither does an empty frame or the
/// mark of the end. A frame that is no document is an error.
pub proof fn other_events_are_passed_over(p: ParserV, f: FrameV, e: Tree)
    ensures
        !(seq![
            "response.created"@,
            "response.output_item.added"@,
            "response.content_part.added"@,
            "response.content_part.done"@,
            "response.output_item.done"@,
            "response.output_text.delta"@,
            "response.function_call_arguments.delta"@,
            "response.reasoning_summary_text.delta"@,
            "response.completed"@,
        ].contains(e.at("type"@).text_or(Seq::empty()))) ==> responses::push_event(p, e) == (Step {
            p,
            out: Seq::empty(),
        }),
        text::trimmed(f.data).len() == 0 || text::trimmed(f.data) == "[DONE]"@ ==> responses::push_frame(p, f) == Ok::<
            Step,
            ErrorV,
        >(Step { p, out: Seq::empty() }),
        text::trimmed(f.data).len() > 0 && text::trimmed(f.data) != "[DONE]"@ ==> responses::push_frame(p, f)
            == match f.json() {
            Ok(v) => Ok::<Step, ErrorV>(responses::push_event(p, v)),
            Err(err) => Err::<Step, ErrorV>(err),
        },
{
    let known = seq![
        "response.created"@,
        "response.output_item.added"@,
        "response.content_part.added"@,
        "response.content_part.done"@,
        "response.output_item.done"@,
        "response.output_text.delta"@,
        "response.function_call_arguments.delta"@,
        "response.reasoning_summary_text.delta"@,
        "response.completed"@,
    ];
    assert(known[0] == "response.created"@ && known[1] == "response.output_item.added"@ && known[2]
        == "response.content_part.added"@ && known[3] == "response.content_part.done"@ && known[4]
        == "response.output_item.done"@ && known[5] == "response.output_text.delta"@ && known[6]
        == "response.function_call_arguments.delta"@ && known[7] == "response.reasoning_summary_text.delta"@
        && known[8] == "response.completed"@);
}

/// A stream that breaks off stops an answer that was begun, with the usage that is
/// known; one that was stopped or never begun brings nothing more.
pub proof fn broken_streams_are_stopped(p: ParserV)
    ensures
        p.started && !p.stopped ==> responses::finished(p).out == seq![
            EventV::Stop { stop_reason: StopReason::EndTurn, stop_sequence: None, usage: p.usage },
        ] && responses::finished(p).p == (ParserV { stopped: true, ..p }),
        !p.started || p.stopped ==> responses::finished(p).out.len() == 0 && responses::finished(p).p == p,
{
    if p.started && !p.stopped {
        assert(responses::finished(p).out =~= seq![p.stop_event()]);
    }
}

} // verus!
