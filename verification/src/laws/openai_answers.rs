//! What OpenAI answers are read and written as.

use crate::error::ErrorV;
use crate::ir;
use crate::ir::{BlockV, ResponseV, StopReason, Usage};
use crate::json;
use crate::json::{Lookup, Tree};
use crate::laws;
use crate::laws::openai_out;
use crate::protocol::openai;
use crate::protocol::openai::Said;
use vstd::prelude::*;

verus! {

/// Why an answer ended, by the word for it.
pub proof fn finish_reasons_are_read(w: Seq<char>)
    ensures
        openai::stop_reason("stop"@) == StopReason::EndTurn,
        openai::stop_reason("length"@) == StopReason::MaxTokens,
        openai::stop_reason("tool_calls"@) == StopReason::ToolUse,
        openai::stop_reason("function_call"@) == StopReason::ToolUse,
        openai::stop_reason("content_filter"@) == StopReason::Refusal,
        openai::stop_reason(w) == StopReason::Unknown <==> w != "stop"@ && w != "length"@ && w != "tool_calls"@ && w
            != "function_call"@ && w != "content_filter"@,
{
    reveal_strlit("stop");
    reveal_strlit("length");
    reveal_strlit("tool_calls");
    reveal_strlit("function_call");
    reveal_strlit("content_filter");
    assert("stop"@.len() == 4 && "length"@.len() == 6 && "tool_calls"@.len() == 10 && "function_call"@.len() == 13
        && "content_filter"@.len() == 14);
}

/// The word for why an answer ended.
pub proof fn finish_reasons_are_told(r: StopReason)
    ensures
        openai::finish_or_stop(StopReason::MaxTokens) == "length"@,
        openai::finish_or_stop(StopReason::ToolUse) == "tool_calls"@,
        openai::finish_or_stop(StopReason::Refusal) == "content_filter"@,
        r == StopReason::EndTurn || r == StopReason::StopSequence || r == StopReason::Unknown
            ==> openai::finish_or_stop(r) == "stop"@,
{
}

/// Every counter of an answer is read to its place. Cached tokens go by their own name,
/// or else by the one that some providers use; no usage is no tokens.
pub proof fn usage_is_read(v: Option<Tree>)
    ensures
        ({
            let u = openai::usage_of(v);
            let cached = v.at("prompt_tokens_details"@).at("cached_tokens"@);
            &&& u.input_tokens == v.at("prompt_tokens"@).count()
            &&& u.output_tokens == v.at("completion_tokens"@).count()
            &&& u.reasoning_tokens == v.at("completion_tokens_details"@).at("reasoning_tokens"@).count()
            &&& u.cache_read_tokens == if cached.uint() is Some {
                cached.count()
            } else {
                v.at("prompt_cache_hit_tokens"@).count()
            }
            &&& u.cache_write_tokens == 0
        }),
{
}

/// Every counter of an answer is told under its name, and the total with them.
pub proof fn usage_is_told(u: Usage)
    ensures
        openai::usage_out(u).at("prompt_tokens"@) == Some(Tree::UInt(u.input_tokens as u64)),
        openai::usage_out(u).at("completion_tokens"@) == Some(Tree::UInt(u.output_tokens as u64)),
        openai::usage_out(u).at("total_tokens"@) == Some(Tree::UInt((u.input_tokens + u.output_tokens) as u64)),
        openai::usage_out(u).at("prompt_tokens_details"@).at("cached_tokens"@) == Some(
            Tree::UInt(u.cache_read_tokens as u64),
        ),
        openai::usage_out(u).at("completion_tokens_details"@).at("reasoning_tokens"@) == Some(
            Tree::UInt(u.reasoning_tokens as u64),
        ),
{
    reveal_strlit("prompt_tokens");
    reveal_strlit("completion_tokens");
    reveal_strlit("total_tokens");
    reveal_strlit("prompt_tokens_details");
    reveal_strlit("completion_tokens_details");
    assert("prompt_tokens"@.len() == 13 && "completion_tokens"@.len() == 17 && "total_tokens"@.len() == 12
        && "prompt_tokens_details"@.len() == 21 && "completion_tokens_details"@.len() == 25);
    reveal_with_fuel(json::find_from, 6);
}

// -------------------------------------------------------------------- reading

/// The calls of an answer, each under its own identifier or else the one drawn for it.
pub open spec fn calls_read(cs: Seq<Tree>, ids: Seq<Seq<char>>) -> Seq<BlockV> {
    Seq::new(
        cs.len(),
        |i: int|
            openai::called(
                cs[i],
                if cs[i].at("id"@).text() is Some {
                    cs[i].at("id"@).text()->0
                } else {
                    ids[i]
                },
            ),
    )
}

proof fn calls_are_read(cs: Seq<Tree>, ids: Seq<Seq<char>>, i: int, acc: Seq<BlockV>)
    requires
        0 <= i <= cs.len(),
        ids.len() == cs.len(),
    ensures
        openai::answered_calls(cs, ids, i, acc) == acc + calls_read(cs, ids).skip(i),
    decreases cs.len() - i,
{
    if i < cs.len() {
        let x = openai::called(cs[i], cs[i].at("id"@).text_or(openai::id_at(ids, i)));
        calls_are_read(cs, ids, i + 1, acc.push(x));
        assert(acc.push(x) + calls_read(cs, ids).skip(i + 1) =~= acc + calls_read(cs, ids).skip(i));
    } else {
        assert(acc + calls_read(cs, ids).skip(i) =~= acc);
    }
}

/// The calls in an answer.
pub open spec fn calls_in(msg: Tree) -> Seq<Tree> {
    if msg.at("tool_calls"@).list() is Some {
        msg.at("tool_calls"@).list()->0
    } else {
        Seq::empty()
    }
}

/// An answer is read whole: its reasoning, its text, where there is any, and all its
/// calls; and an answer that reports an error, or has no message, is an error.
pub proof fn answers_are_read_whole(body: Tree, ids: Seq<Seq<char>>)
    requires
        ids.len() == openai::call_list(body).len(),
    ensures
        ({
            let choices = body.at("choices"@).list();
            let choice = if choices is Some && choices->0.len() > 0 {
                Some(choices->0[0])
            } else {
                None
            };
            let msg = choice.at("message"@);
            let thought = if msg.at("reasoning_content"@) is Some {
                msg.at("reasoning_content"@).words()
            } else {
                msg.at("reasoning"@).words()
            };
            let words = openai::flat(msg.at("content"@));
            &&& openai::response_of(body, ids) is Ok <==> body.at("error"@) is None && msg is Some
            &&& body.at("error"@) is Some ==> openai::response_of(body, ids) == Err::<ResponseV, ErrorV>(
                ErrorV::BadUpstreamPayload(body.at("error"@).at("message"@).text_or("unknown upstream error"@)),
            )
            &&& openai::response_of(body, ids) matches Ok(r) ==> {
                &&& r.id == body.at("id"@).text_or("chatcmpl_unknown"@)
                &&& r.model == body.at("model"@).text_or(Seq::empty())
                &&& r.content == (if thought is Some {
                    seq![BlockV::Thinking { text: thought->0, signature: None }]
                } else {
                    Seq::empty()
                }) + (if words is Some && words->0.len() > 0 {
                    seq![BlockV::Text { text: words->0, cache_control: None }]
                } else {
                    Seq::empty()
                }) + calls_read(calls_in(msg->0), ids)
                &&& r.stop_reason == if choice.at("finish_reason"@).text() is Some {
                    openai::stop_reason(choice.at("finish_reason"@).text()->0)
                } else {
                    StopReason::Unknown
                }
                &&& r.stop_sequence is None
                &&& r.usage == openai::usage_of(body.at("usage"@))
            }
        }),
{
    if let Some(msg) = openai::first_choice(body).at("message"@) {
        let none = Seq::<BlockV>::empty();
        let thought = if msg.at("reasoning_content"@) is Some {
            msg.at("reasoning_content"@).words()
        } else {
            msg.at("reasoning"@).words()
        };
        let a = if thought is Some {
            seq![BlockV::Thinking { text: thought->0, signature: None }]
        } else {
            none
        };
        if thought is Some {
            assert(a =~= none.push(BlockV::Thinking { text: thought->0, signature: None }));
        }
        let words = openai::flat(msg.at("content"@));
        let b = if words is Some && words->0.len() > 0 {
            a + seq![BlockV::Text { text: words->0, cache_control: None }]
        } else {
            a + none
        };
        assert(a + none =~= a);
        if words is Some && words->0.len() > 0 {
            assert(b =~= a.push(ir::text_block(words->0)));
        }
        let cs = calls_in(msg);
        assert(openai::call_list(body) =~= cs);
        calls_are_read(cs, ids, 0, b);
        assert(calls_read(cs, ids).skip(0) =~= calls_read(cs, ids));
        if msg.at("tool_calls"@).list() is None {
            assert(b + calls_read(cs, ids) =~= b);
        }
    }
}

// -------------------------------------------------------------------- writing

/// The words of a block.
pub open spec fn words_said() -> spec_fn(BlockV) -> Seq<char> {
    |b: BlockV|
        match b {
            BlockV::Text { text, .. } => text,
            _ => Seq::empty(),
        }
}

/// The reasoning of a block.
pub open spec fn thoughts_said() -> spec_fn(BlockV) -> Seq<char> {
    |b: BlockV|
        match b {
            BlockV::Thinking { text, .. } => text,
            _ => Seq::empty(),
        }
}

/// The call that a block is.
pub open spec fn call_made() -> spec_fn(BlockV) -> Option<(Seq<char>, Seq<char>, Tree)> {
    |b: BlockV|
        match b {
            BlockV::ToolUse { id, name, input } => Some((id, name, input)),
            _ => None,
        }
}

/// Whether that is how a client is told of a call.
pub open spec fn is_told(t: Tree, at: int, call: (Seq<char>, Seq<char>, Tree)) -> bool {
    &&& t.at("index"@) == Some(json::num(at))
    &&& t.at("id"@) == Some(Tree::Str(call.0))
    &&& t.at("type"@) == Some(Tree::Str("function"@))
    &&& t.at("function"@).at("name"@) == Some(Tree::Str(call.1))
    &&& t.at("function"@).at("arguments"@) == Some(Tree::Str(openai::arguments_text(call.2)))
}

/// Every call is told, in order.
pub open spec fn all_told(ts: Seq<Tree>, calls: Seq<(Seq<char>, Seq<char>, Tree)>) -> bool {
    ts.len() == calls.len() && forall|i: int| 0 <= i < ts.len() ==> is_told(#[trigger] ts[i], i, calls[i])
}

proof fn block_is_uttered(s: Said, b: BlockV, calls: Seq<(Seq<char>, Seq<char>, Tree)>)
    requires
        all_told(s.calls, calls),
    ensures
        ({
            let x = openai::utter(s, b);
            &&& x.text == s.text + words_said()(b)
            &&& x.reasoning == s.reasoning + thoughts_said()(b)
            &&& x.items == s.items
            &&& all_told(
                x.calls,
                match call_made()(b) {
                    Some(c) => calls.push(c),
                    None => calls,
                },
            )
        }),
{
    assert(s.text + Seq::empty() =~= s.text);
    assert(s.reasoning + Seq::empty() =~= s.reasoning);
    if let BlockV::ToolUse { id, name, input } = b {
        let x = openai::utter(s, b).calls;
        let more = calls.push((id, name, input));
        reveal_strlit("index");
        reveal_strlit("id");
        reveal_strlit("type");
        reveal_strlit("function");
        reveal_strlit("name");
        reveal_strlit("arguments");
        assert("index"@.len() == 5 && "id"@.len() == 2 && "type"@.len() == 4 && "function"@.len() == 8 && "name"@.len()
            == 4 && "arguments"@.len() == 9);
        reveal_with_fuel(json::find_from, 5);
        assert(is_told(x.last(), s.calls.len() as int, (id, name, input)));
        assert forall|i: int| 0 <= i < x.len() implies is_told(#[trigger] x[i], i, more[i]) by {
            if i < s.calls.len() {
                assert(x[i] == s.calls[i]);
                assert(more[i] == calls[i]);
            }
        }
    }
}

proof fn blocks_are_uttered(s: Said, bs: Seq<BlockV>, i: int, calls: Seq<(Seq<char>, Seq<char>, Tree)>)
    requires
        0 <= i <= bs.len(),
        all_told(s.calls, calls),
    ensures
        ({
            let x = openai::utter_all(s, bs, i);
            &&& x.text == s.text + bs.skip(i).flat_map(words_said())
            &&& x.reasoning == s.reasoning + bs.skip(i).flat_map(thoughts_said())
            &&& x.items == s.items
            &&& all_told(x.calls, calls + bs.skip(i).filter_map(call_made()))
        }),
    decreases bs.len() - i,
{
    if i < bs.len() {
        let rest = bs.skip(i);
        laws::unfolding_first(bs, i, words_said());
        laws::unfolding_first(bs, i, thoughts_said());
        laws::keeping_first(bs, i, call_made());
        block_is_uttered(s, bs[i], calls);
        let more = match call_made()(bs[i]) {
            Some(c) => calls.push(c),
            None => calls,
        };
        let next = openai::utter(s, bs[i]);
        blocks_are_uttered(next, bs, i + 1, more);
        let x = openai::utter_all(next, bs, i + 1);
        assert(x.text =~= s.text + rest.flat_map(words_said()));
        assert(x.reasoning =~= s.reasoning + rest.flat_map(thoughts_said()));
        assert(more + bs.skip(i + 1).filter_map(call_made()) =~= calls + rest.filter_map(call_made()));
    } else {
        laws::nothing_is_left(bs, |b: BlockV| None::<char>, words_said());
        laws::nothing_is_left(bs, |b: BlockV| None::<char>, thoughts_said());
        laws::nothing_is_left(
            bs,
            call_made(),
            |b: BlockV| Seq::<(Seq<char>, Seq<char>, Tree)>::empty(),
        );
        assert(s.text + Seq::empty() =~= s.text);
        assert(s.reasoning + Seq::empty() =~= s.reasoning);
        assert(calls + Seq::empty() =~= calls);
    }
}

/// A client is told all of an answer: who gave it, all its words, all its reasoning, all
/// its calls, why it ended, and what it used.
pub proof fn answers_are_written_whole(resp: ResponseV, created: i64)
    ensures
        ({
            let body = openai::response_body(resp, created);
            let choices = body.at("choices"@).list();
            let choice = choices->0[0];
            let msg = choice.at("message"@);
            let words = resp.content.flat_map(words_said());
            let thoughts = resp.content.flat_map(thoughts_said());
            let calls = resp.content.filter_map(call_made());
            &&& body.at("id"@) == Some(Tree::Str(resp.id))
            &&& body.at("object"@) == Some(Tree::Str("chat.completion"@))
            &&& body.at("model"@) == Some(Tree::Str(resp.model))
            &&& body.at("created"@) == Some(json::integer(created))
            &&& body.at("usage"@) == Some(openai::usage_out(resp.usage))
            &&& choices is Some && choices->0.len() == 1
            &&& choice.at("index"@) == Some(Tree::UInt(0))
            &&& choice.at("finish_reason"@) == Some(Tree::Str(openai::finish_or_stop(resp.stop_reason)))
            &&& msg.at("role"@) == Some(Tree::Str("assistant"@))
            &&& msg.at("content"@) == Some(
                if words.len() == 0 && calls.len() > 0 {
                    Tree::Null
                } else {
                    Tree::Str(words)
                },
            )
            &&& msg.at("reasoning_content"@) == openai_out::some_text(thoughts)
            &&& calls.len() == 0 ==> msg.at("tool_calls"@) is None
            &&& calls.len() > 0 ==> msg.at("tool_calls"@).list() is Some && all_told(
                msg.at("tool_calls"@).list()->0,
                calls,
            )
        }),
{
    let n = openai::nothing_said();
    let s = openai::utter_all(n, resp.content, 0);
    blocks_are_uttered(n, resp.content, 0, Seq::empty());
    assert(resp.content.skip(0) =~= resp.content);
    let calls = resp.content.filter_map(call_made());
    assert(Seq::empty() + calls =~= calls);
    assert(s.text =~= resp.content.flat_map(words_said()));
    assert(s.reasoning =~= resp.content.flat_map(thoughts_said()));
    openai_out::message_shows(s);
    reveal_strlit("id");
    reveal_strlit("object");
    reveal_strlit("created");
    reveal_strlit("model");
    reveal_strlit("choices");
    reveal_strlit("usage");
    reveal_strlit("index");
    reveal_strlit("message");
    reveal_strlit("logprobs");
    reveal_strlit("finish_reason");
    assert("id"@.len() == 2 && "object"@.len() == 6 && "created"@.len() == 7 && "created"@[1] == 'r' && "model"@.len()
        == 5 && "model"@[0] == 'm' && "choices"@.len() == 7 && "choices"@[1] == 'h' && "usage"@.len() == 5
        && "usage"@[0] == 'u');
    assert("index"@.len() == 5 && "message"@.len() == 7 && "logprobs"@.len() == 8 && "finish_reason"@.len() == 13);
    reveal_with_fuel(json::find_from, 7);
}

} // verus!
