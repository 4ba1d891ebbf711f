//! What reading gives back of Gemini answers that were written.

use crate::error::ErrorV;
use crate::ir;
use crate::ir::{BlockV, ResponseV, StopReason, Usage};
use crate::json;
use crate::json::{Build, Lookup, Tree};
use crate::protocol::gemini;
use vstd::prelude::*;

verus! {

/// Words and tool calls: what a Gemini answer carries.
pub open spec fn block_carries(b: BlockV) -> bool {
    match b {
        BlockV::Text { cache_control, .. } => cache_control is None,
        BlockV::ToolUse { .. } => true,
        _ => false,
    }
}

/// The names in an answer, as far as it takes to tell them apart.
proof fn answer_names()
    ensures
        "id"@.len() == 2,
        "text"@.len() == 4 && "text"@[0] == 't',
        "name"@.len() == 4 && "name"@[0] == 'n',
        "args"@.len() == 4 && "args"@[0] == 'a',
        "role"@.len() == 4 && "role"@[0] == 'r',
        "STOP"@.len() == 4,
        "parts"@.len() == 5 && "parts"@[0] == 'p',
        "model"@.len() == 5 && "model"@[0] == 'm',
        "error"@.len() == 5 && "error"@[0] == 'e',
        "SAFETY"@.len() == 6,
        "content"@.len() == 7,
        "candidates"@.len() == 10 && "candidates"@[0] == 'c',
        "MAX_TOKENS"@.len() == 10,
        "finishReason"@.len() == 12 && "finishReason"@[1] == 'i',
        "functionCall"@.len() == 12 && "functionCall"@[1] == 'u',
        "usageMetadata"@.len() == 13,
{
    reveal_strlit("id");
    reveal_strlit("text");
    reveal_strlit("name");
    reveal_strlit("args");
    reveal_strlit("role");
    reveal_strlit("STOP");
    reveal_strlit("parts");
    reveal_strlit("model");
    reveal_strlit("error");
    reveal_strlit("SAFETY");
    reveal_strlit("content");
    reveal_strlit("candidates");
    reveal_strlit("MAX_TOKENS");
    reveal_strlit("finishReason");
    reveal_strlit("functionCall");
    reveal_strlit("usageMetadata");
}

proof fn part_comes_back(b: BlockV)
    requires
        block_carries(b),
    ensures
        gemini::answer_part(b) is Some,
        gemini::answer_block(gemini::answer_part(b)->0) == Some(b),
{
    answer_names();
    reveal_with_fuel(json::find_from, 4);
    let p = gemini::answer_part(b)->0;
    match b {
        BlockV::Text { text, .. } => {
            assert(p.at("text"@) == Some(json::st(text)));
            assert(ir::text_block(text) == b);
        },
        BlockV::ToolUse { id, name, input } => {
            let call = Tree::Obj(
                json::fs().with("id"@, json::st(id)).with("name"@, json::st(name)).with("args"@, input),
            );
            assert(p.at("text"@) is None);
            assert(p.at("functionCall"@) == Some(call));
            assert(call.at("id"@) == Some(json::st(id)) && call.at("name"@) == Some(json::st(name)));
            assert(call.at("args"@) == Some(input));
        },
        _ => {},
    }
}

proof fn one_part_more(ps: Seq<Tree>, p: Tree, i: int, acc: Seq<BlockV>)
    requires
        0 <= i <= ps.len(),
        gemini::answer_block(p) is Some,
    ensures
        gemini::answer_blocks(ps.push(p), i, acc) == gemini::answer_blocks(ps, i, acc).push(gemini::answer_block(p)->0),
    decreases ps.len() - i,
{
    let more = ps.push(p);
    if i < ps.len() {
        assert(more[i] == ps[i]);
        one_part_more(
            ps,
            p,
            i + 1,
            match gemini::answer_block(ps[i]) {
                Some(b) => acc.push(b),
                None => acc,
            },
        );
    } else {
        assert(more[i] == p);
        reveal_with_fuel(gemini::answer_blocks, 2);
    }
}

proof fn parts_come_back(bs: Seq<BlockV>, i: int, ps: Seq<Tree>)
    requires
        0 <= i <= bs.len(),
        forall|j: int| 0 <= j < bs.len() ==> block_carries(#[trigger] bs[j]),
        gemini::answer_blocks(ps, 0, Seq::empty()) == bs.take(i),
    ensures
        gemini::answer_blocks(gemini::answer_parts(bs, i, ps), 0, Seq::empty()) == bs,
    decreases bs.len() - i,
{
    if i < bs.len() {
        part_comes_back(bs[i]);
        let p = gemini::answer_part(bs[i])->0;
        one_part_more(ps, p, 0, Seq::empty());
        assert(bs.take(i).push(bs[i]) =~= bs.take(i + 1));
        parts_come_back(bs, i + 1, ps.push(p));
    } else {
        assert(bs.take(i) =~= bs);
    }
}

proof fn usage_comes_back(u: Usage)
    ensures
        gemini::usage_of(Some(gemini::usage_out(u))) == (Usage { cache_read_tokens: 0, cache_write_tokens: 0, ..u }),
{
    reveal_strlit("promptTokenCount");
    reveal_strlit("candidatesTokenCount");
    reveal_strlit("totalTokenCount");
    reveal_strlit("thoughtsTokenCount");
    assert("promptTokenCount"@.len() == 16 && "candidatesTokenCount"@.len() == 20 && "totalTokenCount"@.len() == 15
        && "thoughtsTokenCount"@.len() == 18);
    reveal_with_fuel(json::find_from, 5);
}

/// An answer that is written for a Gemini client and read again has the same words and
/// tool calls, each in its place, and the same count of tokens but for those of a
/// cache. Gemini's answers have no name, and tell apart a limit and a refusal only.
pub proof fn gemini_answers_come_back(resp: ResponseV)
    requires
        forall|i: int| 0 <= i < resp.content.len() ==> block_carries(#[trigger] resp.content[i]),
    ensures
        gemini::response_of(gemini::response_body(resp)) == Ok::<ResponseV, ErrorV>(
            ResponseV {
                id: "gemini_unknown"@,
                model: Seq::empty(),
                content: resp.content,
                stop_reason: match resp.stop_reason {
                    StopReason::MaxTokens => StopReason::MaxTokens,
                    StopReason::Refusal => StopReason::Refusal,
                    _ => StopReason::EndTurn,
                },
                stop_sequence: None,
                usage: Usage { cache_read_tokens: 0, cache_write_tokens: 0, ..resp.usage },
                passthrough: Seq::empty(),
            },
        ),
{
    answer_names();
    reveal_with_fuel(json::find_from, 3);
    usage_comes_back(resp.usage);
    assert(resp.content.take(0) =~= Seq::empty());
    assert(gemini::answer_blocks(Seq::empty(), 0, Seq::empty()) =~= Seq::empty());
    parts_come_back(resp.content, 0, Seq::empty());
    let t = gemini::response_body(resp);
    let parts = gemini::answer_parts(resp.content, 0, Seq::empty());
    let candidate = Tree::Obj(
        json::fs().with("content"@, gemini::model_content(parts)).with(
            "finishReason"@,
            json::st(gemini::finish_reason(resp.stop_reason)),
        ),
    );
    assert(t.at("candidates"@) == Some(Tree::Arr(Seq::empty().push(candidate))));
    assert(gemini::first_candidate(t) == Some(candidate));
    assert(candidate.at("content"@) == Some(gemini::model_content(parts)));
    assert(gemini::model_content(parts).at("parts"@) == Some(Tree::Arr(parts)));
    assert(t.at("usageMetadata"@) == Some(gemini::usage_out(resp.usage)));
}

} // verus!
