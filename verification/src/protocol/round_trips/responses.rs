//! What reading gives back of Responses answers that were written.

use crate::error::ErrorV;
use crate::ir;
use crate::ir::{BlockV, ResponseV, StopReason, Usage};
use crate::json;
use crate::json::{Build, Lookup, Tree};
use crate::protocol::openai;
use crate::protocol::reasoning_bridge;
use crate::protocol::responses;
use vstd::prelude::*;

verus! {

/// A block that an output item carries whole. Reasoning that is signed or hidden
/// travels in a blob, which is read as it was written.
pub open spec fn block_carries(b: BlockV) -> bool {
    match b {
        BlockV::Text { cache_control, .. } => cache_control is None,
        BlockV::ToolUse { input, .. } => match json::parsed(openai::arguments_text(input)) {
            Ok(t) => t == input,
            Err(_) => input is Str,
        },
        BlockV::Thinking { signature, .. } => signature is Some ==> bridged(b),
        BlockV::RedactedThinking { .. } => bridged(b),
        _ => false,
    }
}

/// The bridge gives the block back.
pub open spec fn bridged(b: BlockV) -> bool {
    reasoning_bridge::item_of(b) matches Some(item) && reasoning_bridge::block_of(item) == Some(b)
}

/// What of an answer only this dialect keeps: the answer before it, and why it is not
/// complete.
pub open spec fn kept(resp: ResponseV) -> Seq<(Seq<char>, Tree)> {
    let from = Tree::Obj(resp.passthrough);
    let m = match from.at("previous_response_id"@).text() {
        Some(id) => json::fs().set("previous_response_id"@, json::st(id)),
        None => json::fs(),
    };
    let reason = match from.at("incomplete_details"@) {
        Some(d) => d.at("reason"@).text(),
        None => Some("max_output_tokens"@),
    };
    match reason {
        Some(r) => if resp.stop_reason == StopReason::MaxTokens {
            m.set("incomplete_details"@, Tree::Obj(json::fs().with("reason"@, json::st(r))))
        } else {
            m
        },
        None => m,
    }
}

/// The names in output items and answers, as far as it takes to tell them apart.
proof fn item_names()
    ensures
        "id"@.len() == 2,
        "type"@.len() == 4 && "type"@[0] == 't' && "type"@[1] == 'y',
        "text"@.len() == 4 && "text"@[0] == 't' && "text"@[1] == 'e',
        "role"@.len() == 4 && "role"@[0] == 'r',
        "name"@.len() == 4 && "name"@[0] == 'n',
        "model"@.len() == 5 && "model"@[0] == 'm',
        "usage"@.len() == 5 && "usage"@[0] == 'u',
        "error"@.len() == 5 && "error"@[0] == 'e',
        "object"@.len() == 6 && "object"@[0] == 'o' && "object"@[1] == 'b',
        "output"@.len() == 6 && "output"@[0] == 'o' && "output"@[1] == 'u',
        "status"@.len() == 6 && "status"@[0] == 's',
        "reason"@.len() == 6 && "reason"@[0] == 'r',
        "content"@.len() == 7 && "content"@[0] == 'c' && "content"@[1] == 'o',
        "call_id"@.len() == 7 && "call_id"@[0] == 'c' && "call_id"@[1] == 'a',
        "message"@.len() == 7 && "message"@[0] == 'm',
        "summary"@.len() == 7 && "summary"@[0] == 's',
        "metadata"@.len() == 8,
        "arguments"@.len() == 9 && "arguments"@[0] == 'a',
        "reasoning"@.len() == 9 && "reasoning"@[0] == 'r',
        "completed"@.len() == 9,
        "created_at"@.len() == 10,
        "incomplete"@.len() == 10,
        "output_text"@.len() == 11 && "output_text"@[0] == 'o',
        "annotations"@.len() == 11 && "annotations"@[0] == 'a',
        "function_call"@.len() == 13,
        "encrypted_content"@.len() == 17,
        "incomplete_details"@.len() == 18,
        "previous_response_id"@.len() == 20,
{
    reveal_strlit("id");
    reveal_strlit("type");
    reveal_strlit("text");
    reveal_strlit("role");
    reveal_strlit("name");
    reveal_strlit("model");
    reveal_strlit("usage");
    reveal_strlit("error");
    reveal_strlit("object");
    reveal_strlit("output");
    reveal_strlit("status");
    reveal_strlit("reason");
    reveal_strlit("content");
    reveal_strlit("call_id");
    reveal_strlit("message");
    reveal_strlit("summary");
    reveal_strlit("metadata");
    reveal_strlit("arguments");
    reveal_strlit("reasoning");
    reveal_strlit("completed");
    reveal_strlit("created_at");
    reveal_strlit("incomplete");
    reveal_strlit("output_text");
    reveal_strlit("annotations");
    reveal_strlit("function_call");
    reveal_strlit("encrypted_content");
    reveal_strlit("incomplete_details");
    reveal_strlit("previous_response_id");
}

proof fn text_comes_back(acc: Seq<BlockV>, b: BlockV)
    requires
        b is Text,
        block_carries(b),
    ensures
        responses::item_out(b) is Some,
        responses::output_item(acc, responses::item_out(b)->0) == acc.push(b),
{
    item_names();
    reveal_with_fuel(json::find_from, 5);
    let text = b->Text_text;
    let item = responses::item_out(b)->0;
    let parts = responses::output_content(text)->Arr_0;
    assert(item.at("type"@) == Some(json::st("message"@)));
    assert(item.at("content"@) == Some(responses::output_content(text)));
    assert(parts[0].at("type"@) == Some(json::st("output_text"@)));
    assert(parts[0].at("text"@) == Some(json::st(text)));
    reveal_with_fuel(responses::output_texts, 2);
    assert(ir::text_block(text) == b);
}

proof fn call_comes_back(acc: Seq<BlockV>, b: BlockV)
    requires
        b is ToolUse,
        block_carries(b),
    ensures
        responses::item_out(b) is Some,
        responses::output_item(acc, responses::item_out(b)->0) == acc.push(b),
{
    item_names();
    reveal_with_fuel(json::find_from, 7);
    let item = responses::item_out(b)->0;
    assert(item.at("type"@) == Some(json::st("function_call"@)));
    assert(item.at("call_id"@) == Some(json::st(b->ToolUse_id)));
    assert(item.at("name"@) == Some(json::st(b->ToolUse_name)));
    assert(item.at("arguments"@) == Some(json::st(openai::arguments_text(b->ToolUse_input))));
}

proof fn thinking_comes_back(acc: Seq<BlockV>, b: BlockV)
    requires
        b is Thinking || b is RedactedThinking,
        block_carries(b),
    ensures
        responses::item_out(b) is Some,
        responses::output_item(acc, responses::item_out(b)->0) == acc.push(b),
{
    broadcast use json::set_shows;

    item_names();
    reveal_with_fuel(json::find_from, 4);
    let item = responses::item_out(b)->0;
    match b {
        BlockV::Thinking { text, signature } => {
            let plain = responses::summary_item(text);
            assert(json::field(plain, "type"@) == Some(json::st("reasoning"@)));
            assert(json::field(plain, "encrypted_content"@) is None);
            let summary = Seq::empty().push(
                Tree::Obj(json::fs().with("type"@, json::st("summary_text"@)).with("text"@, json::st(text))),
            );
            assert(json::field(plain, "summary"@) == Some(Tree::Arr(summary)));
            assert(summary[0].at("text"@) == Some(json::st(text)));
            if signature is Some {
                let sealed = reasoning_bridge::item_of(b)->0;
                assert(item.at("encrypted_content"@) == sealed.at("encrypted_content"@));
                assert(item.at("type"@) == Some(json::st("reasoning"@)));
            } else {
                assert(reasoning_bridge::item_of(b) is None);
                assert(item == Tree::Obj(plain));
            }
        },
        _ => {
            assert(item.at("type"@) == Some(json::st("reasoning"@)));
        },
    }
}

proof fn items_come_back(bs: Seq<BlockV>, i: int, items: Seq<Tree>)
    requires
        0 <= i <= bs.len(),
        forall|j: int| 0 <= j < bs.len() ==> block_carries(#[trigger] bs[j]),
        responses::output_items(items, 0, Seq::empty()) == bs.take(i),
    ensures
        responses::output_items(responses::items_out(bs, i, items), 0, Seq::empty()) == bs,
    decreases bs.len() - i,
{
    if i < bs.len() {
        let b = bs[i];
        let acc = bs.take(i);
        assert(block_carries(b));
        match b {
            BlockV::Text { .. } => text_comes_back(acc, b),
            BlockV::ToolUse { .. } => call_comes_back(acc, b),
            _ => thinking_comes_back(acc, b),
        }
        let item = responses::item_out(b)->0;
        one_item_more(items, item, 0, Seq::empty());
        assert(acc.push(b) =~= bs.take(i + 1));
        items_come_back(bs, i + 1, items.push(item));
    } else {
        assert(bs.take(i) =~= bs);
    }
}

proof fn one_item_more(items: Seq<Tree>, item: Tree, i: int, acc: Seq<BlockV>)
    requires
        0 <= i <= items.len(),
    ensures
        responses::output_items(items.push(item), i, acc) == responses::output_item(
            responses::output_items(items, i, acc),
            item,
        ),
    decreases items.len() - i,
{
    let more = items.push(item);
    if i < items.len() {
        assert(more[i] == items[i]);
        one_item_more(items, item, i + 1, responses::output_item(acc, items[i]));
    } else {
        assert(more[i] == item);
        reveal_with_fuel(responses::output_items, 2);
    }
}

proof fn usage_comes_back(u: Usage)
    ensures
        responses::usage_of(Some(responses::usage_out(u))) == (Usage { cache_write_tokens: 0, ..u }),
{
    reveal_strlit("input_tokens");
    reveal_strlit("output_tokens");
    reveal_strlit("total_tokens");
    reveal_strlit("input_tokens_details");
    reveal_strlit("output_tokens_details");
    assert("input_tokens"@.len() == 12 && "input_tokens"@[0] == 'i' && "total_tokens"@.len() == 12
        && "total_tokens"@[0] == 't' && "output_tokens"@.len() == 13 && "input_tokens_details"@.len() == 20
        && "output_tokens_details"@.len() == 21);
    reveal_with_fuel(json::find_from, 6);
}

spec fn head(resp: ResponseV, created: i64) -> Seq<(Seq<char>, Tree)> {
    json::fs().with("id"@, json::st(resp.id)).with("object"@, json::st("response"@)).with(
        "created_at"@,
        json::integer(created),
    ).with("status"@, json::st(responses::status_text(resp.stop_reason))).with("model"@, json::st(resp.model)).with(
        "output"@,
        Tree::Arr(responses::items_out(resp.content, 0, Seq::empty())),
    ).with("output_text"@, json::st(ir::texts_of(resp.content, 0, Seq::empty()))).with(
        "usage"@,
        responses::usage_out(resp.usage),
    )
}

proof fn head_shows(resp: ResponseV, created: i64)
    ensures
        ({
            let m = head(resp, created);
            &&& json::field(m, "id"@) == Some(json::st(resp.id))
            &&& json::field(m, "status"@) == Some(json::st(responses::status_text(resp.stop_reason)))
            &&& json::field(m, "model"@) == Some(json::st(resp.model))
            &&& json::field(m, "output"@) == Some(Tree::Arr(responses::items_out(resp.content, 0, Seq::empty())))
            &&& json::field(m, "usage"@) == Some(responses::usage_out(resp.usage))
            &&& json::field(m, "error"@) is None
            &&& json::field(m, "previous_response_id"@) is None
            &&& json::field(m, "incomplete_details"@) is None
        }),
{
    item_names();
    reveal_with_fuel(json::find_from, 9);
}

proof fn answer_shows(resp: ResponseV, created: i64)
    ensures
        ({
            let t = responses::response_body(resp, created);
            let from = Tree::Obj(resp.passthrough);
            &&& t.at("id"@) == Some(json::st(resp.id))
            &&& t.at("status"@) == Some(json::st(responses::status_text(resp.stop_reason)))
            &&& t.at("model"@) == Some(json::st(resp.model))
            &&& t.at("output"@) == Some(Tree::Arr(responses::items_out(resp.content, 0, Seq::empty())))
            &&& t.at("usage"@) == Some(responses::usage_out(resp.usage))
            &&& t.at("error"@) is None
            &&& t.at("previous_response_id"@) == from.at("previous_response_id"@)
            &&& resp.stop_reason == StopReason::MaxTokens ==> t.at("incomplete_details"@) == Some(
                match from.at("incomplete_details"@) {
                    Some(d) => d,
                    None => Tree::Obj(json::fs().with("reason"@, json::st("max_output_tokens"@))),
                },
            )
        }),
{
    broadcast use json::set_shows;

    item_names();
    head_shows(resp, created);
}

/// An answer that is written for a Responses client and read again is the same answer:
/// every block in its place, and reasoning that is signed or hidden with it. But for
/// a stop sequence and the tokens written to a cache, which are not told, and the
/// reason to stop, of which only the limit is told apart.
pub proof fn responses_answers_come_back(resp: ResponseV, created: i64)
    requires
        forall|i: int| 0 <= i < resp.content.len() ==> block_carries(#[trigger] resp.content[i]),
    ensures
        responses::response_of(responses::response_body(resp, created)) == Ok::<ResponseV, ErrorV>(
            ResponseV {
                stop_reason: if resp.stop_reason == StopReason::MaxTokens {
                    StopReason::MaxTokens
                } else {
                    StopReason::EndTurn
                },
                stop_sequence: None,
                usage: Usage { cache_write_tokens: 0, ..resp.usage },
                passthrough: kept(resp),
                ..resp
            },
        ),
{
    item_names();
    answer_shows(resp, created);
    usage_comes_back(resp.usage);
    assert(resp.content.take(0) =~= Seq::empty());
    assert(responses::output_items(Seq::empty(), 0, Seq::empty()) =~= Seq::empty());
    items_come_back(resp.content, 0, Seq::empty());
    let t = responses::response_body(resp, created);
    assert(responses::is_incomplete(t) == (resp.stop_reason == StopReason::MaxTokens));
    assert(responses::kept_fields(t) == kept(resp)) by {
        reveal_with_fuel(json::find_from, 2);
    }
}

} // verus!
