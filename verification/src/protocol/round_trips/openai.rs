//! What reading gives back of OpenAI bodies that were written.

use crate::error::ErrorV;
use crate::ir;
use crate::ir::{
    BlockV, Dialect, MessageV, PartV, RequestV, ResponseV, Role, StopReason, SystemV, UnsupportedContentPolicy, Usage,
};
use crate::json;
use crate::json::{Build, Lookup, Tree};
use crate::protocol::openai;
use crate::protocol::openai::{Conversation, Heard, Said};
use crate::protocol::round_trips;
use crate::protocol::ProviderQuirks;
use crate::text;
use vstd::prelude::*;

verus! {

/// One turn of a conversation, in a shape that OpenAI messages carry whole.
pub enum Turn {
    /// The user says something.
    Asked { text: Seq<char> },
    /// The user shows pictures, with or without words.
    Shown { blocks: Seq<BlockV> },
    /// The model answers: its reasoning, its words and the tools it calls.
    Answered { reasoning: Option<Seq<char>>, words: Option<Seq<char>>, calls: Seq<BlockV> },
    /// What the tools gave back: for each call its id and the text.
    Returned { results: Seq<(Seq<char>, Seq<char>)> },
}

/// A tool call whose arguments are read as they were written.
pub open spec fn call_carries(b: BlockV) -> bool {
    b matches BlockV::ToolUse { input, .. } && openai::arguments_of(Some(openai::arguments_text(input))) == input
}

/// Words, or a picture whose address says where it comes from.
pub open spec fn part_carries(b: BlockV) -> bool {
    match b {
        BlockV::Text { cache_control, .. } => cache_control is None,
        BlockV::Image { source } => ir::source_of_url(ir::url_of_source(source)) == source,
        _ => false,
    }
}

pub open spec fn result_out(id: Seq<char>, text: Seq<char>) -> BlockV {
    BlockV::ToolResult {
        tool_use_id: id,
        name: Seq::empty(),
        content: Seq::empty().push(PartV::Text { text }),
        is_error: false,
    }
}

impl Turn {
    /// Whether the turn is carried whole. Reasoning is only written for a client that
    /// sent it.
    pub open spec fn carries(self, echo: bool) -> bool {
        match self {
            Turn::Asked { .. } => true,
            Turn::Shown { blocks } => (forall|i: int|
                0 <= i < blocks.len() ==> part_carries(#[trigger] blocks[i])) && (exists|i: int|
                0 <= i < blocks.len() && (#[trigger] blocks[i]) is Image),
            Turn::Answered { reasoning, words, calls } => {
                &&& reasoning matches Some(t) ==> echo && t.len() > 0
                &&& words matches Some(t) ==> t.len() > 0
                &&& forall|i: int| 0 <= i < calls.len() ==> call_carries(#[trigger] calls[i])
            },
            Turn::Returned { results } => results.len() > 0,
        }
    }

    pub open spec fn message(self) -> MessageV {
        match self {
            Turn::Asked { text } => MessageV { role: Role::User, content: Seq::empty().push(ir::text_block(text)) },
            Turn::Shown { blocks } => MessageV { role: Role::User, content: blocks },
            Turn::Answered { reasoning, words, calls } => {
                let a = match reasoning {
                    Some(text) => Seq::empty().push(BlockV::Thinking { text, signature: None }),
                    None => Seq::empty(),
                };
                let b = match words {
                    Some(t) => a.push(ir::text_block(t)),
                    None => a,
                };
                MessageV { role: Role::Assistant, content: b + calls }
            },
            Turn::Returned { results } => MessageV { role: Role::User, content: results_of(results) },
        }
    }
}

pub open spec fn results_of(results: Seq<(Seq<char>, Seq<char>)>) -> Seq<BlockV> {
    Seq::new(results.len(), |i: int| result_out(results[i].0, results[i].1))
}

// ------------------------------------------------------------------- writing

spec fn tool_message(id: Seq<char>, text: Seq<char>) -> Tree {
    Tree::Obj(
        json::fs().with("role"@, json::st("tool"@)).with("tool_call_id"@, json::st(id)).with(
            "content"@,
            json::st(text),
        ),
    )
}

spec fn user_message(content: Tree) -> Tree {
    Tree::Obj(json::fs().with("role"@, json::st("user"@)).with("content"@, content))
}

spec fn picture_part(url: Seq<char>) -> Tree {
    Tree::Obj(
        json::fs().with("type"@, json::st("image_url"@)).with(
            "image_url"@,
            Tree::Obj(json::fs().with("url"@, json::st(url))),
        ),
    )
}

spec fn part_out(b: BlockV) -> Tree {
    match b {
        BlockV::Image { source } => picture_part(ir::url_of_source(source)),
        BlockV::Text { text, .. } => openai::text_part(text),
        _ => Tree::Null,
    }
}

spec fn parts_out(bs: Seq<BlockV>) -> Seq<Tree> {
    Seq::new(bs.len(), |i: int| part_out(bs[i]))
}

spec fn call_of(b: BlockV) -> Tree {
    match b {
        BlockV::ToolUse { id, name, input } => openai::call_out(id, name, input),
        _ => Tree::Null,
    }
}

spec fn calls_out(calls: Seq<BlockV>) -> Seq<Tree> {
    Seq::new(calls.len(), |i: int| call_of(calls[i]))
}

spec fn or_nothing(o: Option<Seq<char>>) -> Seq<char> {
    match o {
        Some(s) => s,
        None => Seq::empty(),
    }
}

spec fn said(reasoning: Option<Seq<char>>, words: Option<Seq<char>>, calls: Seq<BlockV>) -> Said {
    Said {
        text: or_nothing(words),
        reasoning: or_nothing(reasoning),
        items: Seq::empty(),
        calls: calls_out(calls),
    }
}

spec fn tool_messages(results: Seq<(Seq<char>, Seq<char>)>) -> Seq<Tree> {
    Seq::new(results.len(), |i: int| tool_message(results[i].0, results[i].1))
}

/// The messages that a turn is written as.
spec fn wire(t: Turn) -> Seq<Tree> {
    match t {
        Turn::Asked { text } => Seq::empty().push(user_message(json::st(text))),
        Turn::Shown { blocks } => Seq::empty().push(user_message(Tree::Arr(parts_out(blocks)))),
        Turn::Answered { reasoning, words, calls } => Seq::empty().push(
            openai::assistant_message(said(reasoning, words, calls)),
        ),
        Turn::Returned { results } => tool_messages(results),
    }
}

proof fn calls_are_said(s: Said, bs: Seq<BlockV>, from: int, i: int, echo: bool, policy: UnsupportedContentPolicy)
    requires
        0 <= from <= i <= bs.len(),
        forall|j: int| from <= j < bs.len() ==> call_carries(#[trigger] bs[j]),
        s.calls == calls_out(bs.subrange(from, i)),
    ensures
        openai::say_all(s, bs, i, echo, policy) == Ok::<Said, ErrorV>(
            Said { calls: calls_out(bs.subrange(from, bs.len() as int)), ..s },
        ),
    decreases bs.len() - i,
{
    if i < bs.len() {
        assert(call_carries(bs[i]));
        let next = openai::say(s, bs[i], echo, policy)->Ok_0;
        assert(next.calls =~= calls_out(bs.subrange(from, i + 1)));
        calls_are_said(next, bs, from, i + 1, echo, policy);
    }
}

proof fn answer_is_said(
    reasoning: Option<Seq<char>>,
    words: Option<Seq<char>>,
    calls: Seq<BlockV>,
    echo: bool,
    policy: UnsupportedContentPolicy,
)
    requires
        (Turn::Answered { reasoning, words, calls }).carries(echo),
    ensures
        openai::say_all(
            openai::nothing_said(),
            (Turn::Answered { reasoning, words, calls }).message().content,
            0,
            echo,
            policy,
        ) == Ok::<Said, ErrorV>(said(reasoning, words, calls)),
{
    let bs = (Turn::Answered { reasoning, words, calls }).message().content;
    let n: int = (if reasoning is Some { 1int } else { 0int }) + (if words is Some { 1int } else { 0int });
    assert(bs.len() == n + calls.len());
    assert forall|j: int| n <= j < bs.len() implies call_carries(#[trigger] bs[j]) by {
        assert(bs[j] == calls[j - n]);
    }
    assert(bs.subrange(n, bs.len() as int) =~= calls);
    let s = Said { calls: Seq::empty(), ..said(reasoning, words, calls) };
    assert(calls_out(bs.subrange(n, n)) =~= Seq::empty());
    calls_are_said(s, bs, n, n, echo, policy);
    let s0 = openai::nothing_said();
    match reasoning {
        Some(r) => {
            assert(bs[0] == BlockV::Thinking { text: r, signature: None });
            let s1 = openai::say(s0, bs[0], echo, policy)->Ok_0;
            assert(s1.reasoning =~= r);
            match words {
                Some(t) => {
                    assert(bs[1] == ir::text_block(t));
                    let s2 = openai::say(s1, bs[1], echo, policy)->Ok_0;
                    assert(s2.text =~= t);
                    assert(s2 == s);
                    assert(openai::say_all(s1, bs, 1, echo, policy) == openai::say_all(s2, bs, 2, echo, policy));
                },
                None => {
                    assert(s1 == s);
                },
            }
            assert(openai::say_all(s0, bs, 0, echo, policy) == openai::say_all(s1, bs, 1, echo, policy));
        },
        None => match words {
            Some(t) => {
                assert(bs[0] == ir::text_block(t));
                let s1 = openai::say(s0, bs[0], echo, policy)->Ok_0;
                assert(s1.text =~= t);
                assert(s1 == s);
                assert(openai::say_all(s0, bs, 0, echo, policy) == openai::say_all(s1, bs, 1, echo, policy));
            },
            None => {
                assert(s0 == s);
            },
        },
    }
}

proof fn results_are_heard(
    out: Seq<Tree>,
    results: Seq<(Seq<char>, Seq<char>)>,
    i: int,
    policy: UnsupportedContentPolicy,
)
    requires
        0 <= i <= results.len(),
    ensures
        openai::hear_all(
            Heard { out: out + tool_messages(results).take(i), parts: Seq::empty() },
            results_of(results),
            i,
            policy,
        ) == Ok::<Heard, ErrorV>(Heard { out: out + tool_messages(results), parts: Seq::empty() }),
    decreases results.len() - i,
{
    let all = tool_messages(results);
    let h = Heard { out: out + all.take(i), parts: Seq::empty() };
    if i < results.len() {
        let b = results_of(results)[i];
        let content = Seq::empty().push(PartV::Text { text: results[i].1 });
        assert(openai::result_texts(content)[0] == results[i].1);
        assert(text::joined(openai::result_texts(content), "\n"@) == results[i].1);
        let next = openai::hear(h, b, policy)->Ok_0;
        assert(next.out =~= out + all.take(i + 1));
        results_are_heard(out, results, i + 1, policy);
    } else {
        assert(all.take(i) =~= all);
    }
}

proof fn parts_are_heard(out: Seq<Tree>, bs: Seq<BlockV>, i: int, policy: UnsupportedContentPolicy)
    requires
        0 <= i <= bs.len(),
        forall|j: int| 0 <= j < bs.len() ==> part_carries(#[trigger] bs[j]),
    ensures
        openai::hear_all(Heard { out, parts: parts_out(bs).take(i) }, bs, i, policy) == Ok::<Heard, ErrorV>(
            Heard { out, parts: parts_out(bs) },
        ),
    decreases bs.len() - i,
{
    let all = parts_out(bs);
    let h = Heard { out, parts: all.take(i) };
    if i < bs.len() {
        assert(part_carries(bs[i]));
        let next = openai::hear(h, bs[i], policy)->Ok_0;
        assert(next.parts =~= all.take(i + 1));
        parts_are_heard(out, bs, i + 1, policy);
    } else {
        assert(all.take(i) =~= all);
    }
}

/// The names of the fields, roles and kinds of OpenAI messages, as far as it takes to
/// tell them apart.
proof fn message_names()
    ensures
        "role"@.len() == 4 && "role"@[0] == 'r',
        "tool"@.len() == 4 && "tool"@[0] == 't' && "tool"@[1] == 'o',
        "user"@.len() == 4 && "user"@[0] == 'u',
        "text"@.len() == 4 && "text"@[0] == 't' && "text"@[1] == 'e',
        "type"@.len() == 4 && "type"@[0] == 't' && "type"@[1] == 'y',
        "name"@.len() == 4 && "name"@[0] == 'n',
        "id"@.len() == 2,
        "url"@.len() == 3,
        "system"@.len() == 6,
        "content"@.len() == 7,
        "function"@.len() == 8,
        "developer"@.len() == 9 && "developer"@[0] == 'd',
        "assistant"@.len() == 9 && "assistant"@[0] == 'a',
        "image_url"@.len() == 9 && "image_url"@[0] == 'i',
        "reasoning"@.len() == 9 && "reasoning"@[0] == 'r',
        "arguments"@.len() == 9 && "arguments"@[0] == 'a',
        "tool_calls"@.len() == 10,
        "tool_call_id"@.len() == 12,
        "reasoning_content"@.len() == 17,
{
    reveal_strlit("role");
    reveal_strlit("tool");
    reveal_strlit("user");
    reveal_strlit("text");
    reveal_strlit("type");
    reveal_strlit("name");
    reveal_strlit("id");
    reveal_strlit("url");
    reveal_strlit("system");
    reveal_strlit("content");
    reveal_strlit("function");
    reveal_strlit("developer");
    reveal_strlit("assistant");
    reveal_strlit("image_url");
    reveal_strlit("reasoning");
    reveal_strlit("arguments");
    reveal_strlit("tool_calls");
    reveal_strlit("tool_call_id");
    reveal_strlit("reasoning_content");
}

proof fn words_are_plain(t: Seq<char>)
    ensures
        openai::user_content(Seq::empty().push(openai::text_part(t))) == json::st(t),
{
    message_names();
    reveal_with_fuel(json::find_from, 3);
    let parts = Seq::empty().push(openai::text_part(t));
    assert(parts[0].at("type"@).text() == Some("text"@));
    assert(parts[0].at("text"@).text() == Some(t));
    reveal_with_fuel(openai::part_texts, 2);
    assert(openai::part_texts(parts, 0, Seq::empty()) =~= t);
}

proof fn pictures_are_no_text(bs: Seq<BlockV>)
    requires
        exists|i: int| 0 <= i < bs.len() && (#[trigger] bs[i]) is Image,
    ensures
        !openai::all_text(parts_out(bs)),
{
    message_names();
    reveal_with_fuel(json::find_from, 2);
    let i = choose|i: int| 0 <= i < bs.len() && (#[trigger] bs[i]) is Image;
    assert(parts_out(bs)[i].at("type"@).text() == Some("image_url"@));
}

proof fn turn_is_written(out: Seq<Tree>, t: Turn, echo: bool, policy: UnsupportedContentPolicy)
    requires
        t.carries(echo),
    ensures
        openai::message_out(out, t.message(), echo, policy) == Ok::<Seq<Tree>, ErrorV>(out + wire(t)),
{
    match t {
        Turn::Asked { text } => {
            let h = Heard { out, parts: Seq::empty() };
            let bs = t.message().content;
            assert(bs[0] == ir::text_block(text));
            reveal_with_fuel(openai::hear_all, 2);
            words_are_plain(text);
            let w = user_message(json::st(text));
            assert(out.push(w) =~= out + wire(t));
        },
        Turn::Shown { blocks } => {
            parts_are_heard(out, blocks, 0, policy);
            assert(parts_out(blocks).take(0) =~= Seq::empty());
            pictures_are_no_text(blocks);
            let w = user_message(Tree::Arr(parts_out(blocks)));
            assert(out.push(w) =~= out + wire(t));
        },
        Turn::Answered { reasoning, words, calls } => {
            answer_is_said(reasoning, words, calls, echo, policy);
            let w = openai::assistant_message(said(reasoning, words, calls));
            assert(out.push(w) =~= out + wire(t));
        },
        Turn::Returned { results } => {
            results_are_heard(out, results, 0, policy);
            assert(out + tool_messages(results).take(0) =~= out);
        },
    }
}

// ------------------------------------------------------------------- reading

proof fn part_comes_back(b: BlockV)
    requires
        part_carries(b),
    ensures
        openai::user_part(part_out(b)) == Some(b),
{
    message_names();
    reveal_with_fuel(json::find_from, 3);
}

proof fn parts_come_back(bs: Seq<BlockV>, i: int)
    requires
        0 <= i <= bs.len(),
        forall|j: int| 0 <= j < bs.len() ==> part_carries(#[trigger] bs[j]),
    ensures
        openai::user_parts(parts_out(bs), i, bs.take(i)) == bs,
    decreases bs.len() - i,
{
    if i < bs.len() {
        part_comes_back(bs[i]);
        assert(bs.take(i).push(bs[i]) =~= bs.take(i + 1));
        parts_come_back(bs, i + 1);
    } else {
        assert(bs.take(i) =~= bs);
    }
}

proof fn calls_come_back(calls: Seq<BlockV>, before: Seq<BlockV>, i: int)
    requires
        0 <= i <= calls.len(),
        forall|j: int| 0 <= j < calls.len() ==> call_carries(#[trigger] calls[j]),
    ensures
        openai::calls(calls_out(calls), i, before + calls.take(i)) == before + calls,
    decreases calls.len() - i,
{
    if i < calls.len() {
        assert(call_carries(calls[i]));
        let c = calls_out(calls)[i];
        message_names();
        reveal_with_fuel(json::find_from, 4);
        assert(openai::called(c, c.at("id"@).text_or(Seq::empty())) == calls[i]);
        assert((before + calls.take(i)).push(calls[i]) =~= before + calls.take(i + 1));
        calls_come_back(calls, before, i + 1);
    } else {
        assert(calls.take(i) =~= calls);
    }
}

proof fn answer_fields_show(s: Said)
    requires
        s.items.len() == 0,
    ensures
        ({
            let m = openai::assistant_message(s);
            &&& m.at("role"@) == Some(json::st("assistant"@))
            &&& m.at("content"@) == Some(
                if s.text.len() == 0 && s.calls.len() > 0 {
                    Tree::Null
                } else {
                    json::st(s.text)
                },
            )
            &&& m.at("reasoning_content"@) == if s.reasoning.len() > 0 {
                Some(json::st(s.reasoning))
            } else {
                None
            }
            &&& m.at("reasoning"@) is None
            &&& m.at("tool_calls"@) == if s.calls.len() > 0 {
                Some(Tree::Arr(s.calls))
            } else {
                None
            }
        }),
{
    broadcast use json::set_shows;

    message_names();
    assert(json::field(json::fs(), "reasoning_content"@) is None);
    assert(json::field(json::fs(), "reasoning"@) is None);
    assert(json::field(json::fs(), "tool_calls"@) is None);
}

proof fn answer_comes_back(reasoning: Option<Seq<char>>, words: Option<Seq<char>>, calls: Seq<BlockV>, echo: bool)
    requires
        (Turn::Answered { reasoning, words, calls }).carries(echo),
    ensures
        openai::assistant_blocks(openai::assistant_message(said(reasoning, words, calls))) == (Turn::Answered {
            reasoning,
            words,
            calls,
        }).message().content,
{
    let s = said(reasoning, words, calls);
    answer_fields_show(s);
    let a = match reasoning {
        Some(text) => Seq::empty().push(BlockV::Thinking { text, signature: None }),
        None => Seq::<BlockV>::empty(),
    };
    let b = match words {
        Some(t) => a.push(ir::text_block(t)),
        None => a,
    };
    calls_come_back(calls, b, 0);
    assert(b + calls.take(0) =~= b);
    if calls.len() == 0 {
        assert(b + calls =~= b);
    }
}

spec fn with_turn(c: Conversation, m: MessageV) -> Conversation {
    Conversation { system: c.system, messages: c.messages.push(m) }
}

/// Whether the next tool result starts a turn of its own.
spec fn settled(c: Conversation) -> bool {
    c.messages.len() > 0 ==> !openai::only_results(c.messages.last())
}

proof fn result_is_read(c: Conversation, id: Seq<char>, text: Seq<char>)
    ensures
        openai::turn(c, tool_message(id, text)) == Ok::<Conversation, ErrorV>(
            Conversation { system: c.system, messages: openai::with_result(c.messages, result_out(id, text)) },
        ),
{
    message_names();
    reveal_with_fuel(json::find_from, 4);
    let m = tool_message(id, text);
    assert(openai::result_block(m) == result_out(id, text));
}

proof fn results_are_read(
    c: Conversation,
    all: Seq<Tree>,
    at: int,
    results: Seq<(Seq<char>, Seq<char>)>,
    i: int,
)
    requires
        settled(c),
        0 <= at,
        at + results.len() <= all.len(),
        all.subrange(at, at + results.len()) == tool_messages(results),
        1 <= i <= results.len(),
    ensures
        openai::turns(
            with_turn(c, MessageV { role: Role::User, content: results_of(results).take(i) }),
            all,
            at + i,
        ) == openai::turns(
            with_turn(c, MessageV { role: Role::User, content: results_of(results) }),
            all,
            at + results.len(),
        ),
    decreases results.len() - i,
{
    let bs = results_of(results);
    let sofar = MessageV { role: Role::User, content: bs.take(i) };
    let d = with_turn(c, sofar);
    if i < results.len() {
        assert(all[at + i] == all.subrange(at, at + results.len())[i]);
        result_is_read(d, results[i].0, results[i].1);
        assert(d.messages.last() == sofar);
        assert(openai::only_results(sofar));
        assert(bs.take(i).push(bs[i]) =~= bs.take(i + 1));
        let next = MessageV { role: Role::User, content: bs.take(i + 1) };
        assert(openai::with_result(d.messages, bs[i]) =~= c.messages.push(next));
        results_are_read(c, all, at, results, i + 1);
    } else {
        assert(bs.take(i) =~= bs);
    }
}

proof fn turn_is_read(c: Conversation, all: Seq<Tree>, at: int, t: Turn, echo: bool)
    requires
        t.carries(echo),
        t is Returned ==> settled(c),
        0 <= at,
        at + wire(t).len() <= all.len(),
        all.subrange(at, at + wire(t).len()) == wire(t),
    ensures
        openai::turns(c, all, at) == openai::turns(with_turn(c, t.message()), all, at + wire(t).len()),
{
    let w = wire(t);
    assert(all[at] == all.subrange(at, at + w.len())[0]);
    match t {
        Turn::Asked { text } => {
            message_names();
            reveal_with_fuel(json::find_from, 3);
        },
        Turn::Shown { blocks } => {
            message_names();
            reveal_with_fuel(json::find_from, 3);
            parts_come_back(blocks, 0);
            assert(blocks.take(0) =~= Seq::empty());
        },
        Turn::Answered { reasoning, words, calls } => {
            message_names();
            answer_fields_show(said(reasoning, words, calls));
            answer_comes_back(reasoning, words, calls, echo);
        },
        Turn::Returned { results } => {
            result_is_read(c, results[0].0, results[0].1);
            let bs = results_of(results);
            assert(Seq::empty().push(bs[0]) =~= bs.take(1));
            results_are_read(c, all, at, results, 1);
        },
    }
}

/// The messages that the first `n` turns are written as, behind `before`.
spec fn wires(before: Seq<Tree>, ts: Seq<Turn>, n: int) -> Seq<Tree>
    decreases n,
{
    if n <= 0 {
        before
    } else {
        wires(before, ts, n - 1) + wire(ts[n - 1])
    }
}

spec fn messages(ts: Seq<Turn>) -> Seq<MessageV> {
    Seq::new(ts.len(), |i: int| ts[i].message())
}

proof fn later_turns_leave_the_front(before: Seq<Tree>, ts: Seq<Turn>, n: int, m: int)
    requires
        0 <= n <= m,
    ensures
        wires(before, ts, n).len() <= wires(before, ts, m).len(),
        wires(before, ts, m).take(wires(before, ts, n).len() as int) == wires(before, ts, n),
    decreases m - n,
{
    if n < m {
        later_turns_leave_the_front(before, ts, n, m - 1);
        let a = wires(before, ts, n);
        let b = wires(before, ts, m - 1);
        assert(wires(before, ts, m).take(a.len() as int) =~= b.take(a.len() as int));
    } else {
        assert(wires(before, ts, m).take(wires(before, ts, m).len() as int) =~= wires(before, ts, m));
    }
}

proof fn turns_are_written(
    before: Seq<Tree>,
    ts: Seq<Turn>,
    i: int,
    echo: bool,
    policy: UnsupportedContentPolicy,
)
    requires
        0 <= i <= ts.len(),
        forall|j: int| 0 <= j < ts.len() ==> (#[trigger] ts[j]).carries(echo),
    ensures
        openai::messages_out(wires(before, ts, i), messages(ts), i, echo, policy) == Ok::<Seq<Tree>, ErrorV>(
            wires(before, ts, ts.len() as int),
        ),
    decreases ts.len() - i,
{
    if i < ts.len() {
        turn_is_written(wires(before, ts, i), ts[i], echo, policy);
        turns_are_written(before, ts, i + 1, echo, policy);
    }
}

proof fn turns_are_read(before: Seq<Tree>, c: Conversation, ts: Seq<Turn>, i: int, echo: bool)
    requires
        0 <= i <= ts.len(),
        c.messages.len() == 0,
        forall|j: int| 0 <= j < ts.len() ==> (#[trigger] ts[j]).carries(echo),
        forall|j: int| 0 < j < ts.len() && (#[trigger] ts[j]) is Returned ==> !(ts[j - 1] is Returned),
    ensures
        openai::turns(
            Conversation { system: c.system, messages: messages(ts).take(i) },
            wires(before, ts, ts.len() as int),
            wires(before, ts, i).len() as int,
        ) == Ok::<Conversation, ErrorV>(Conversation { system: c.system, messages: messages(ts) }),
    decreases ts.len() - i,
{
    let all = wires(before, ts, ts.len() as int);
    let ms = messages(ts);
    let d = Conversation { system: c.system, messages: ms.take(i) };
    if i < ts.len() {
        let a = wires(before, ts, i);
        let b = wires(before, ts, i + 1);
        later_turns_leave_the_front(before, ts, i + 1, ts.len() as int);
        assert(all.subrange(a.len() as int, b.len() as int) =~= wire(ts[i])) by {
            assert(all.take(b.len() as int).skip(a.len() as int) =~= wire(ts[i]));
        }
        if ts[i] is Returned && i > 0 {
            let last = ts[i - 1];
            assert(d.messages.last() == last.message());
            assert(last.carries(echo));
            match last {
                Turn::Asked { text } => {
                    assert(last.message().content[0] == ir::text_block(text));
                },
                Turn::Shown { blocks } => {
                    let k = choose|k: int| 0 <= k < blocks.len() && (#[trigger] blocks[k]) is Image;
                    assert(last.message().content[k] is Image);
                },
                _ => {},
            }
        }
        turn_is_read(d, all, a.len() as int, ts[i], echo);
        assert(ms.take(i).push(ms[i]) =~= ms.take(i + 1));
        turns_are_read(before, c, ts, i + 1, echo);
    } else {
        assert(ms.take(i) =~= ms);
    }
}

proof fn filling_keeps(m: Seq<(Seq<char>, Tree)>, more: Seq<(Seq<char>, Tree)>, i: int, key: Seq<char>)
    requires
        json::field(m, key) is Some,
    ensures
        json::field(openai::filled(m, more, i), key) == json::field(m, key),
    decreases more.len() - i,
{
    if 0 <= i < more.len() {
        json::new_shows(m, more[i].0, more[i].1, key);
        filling_keeps(json::put_new(m, more[i].0, more[i].1), more, i + 1, key);
    }
}

/// The fields of a request body, one after the other.
pub open spec fn listed_fields(
    req: RequestV,
    model: Seq<char>,
    q: ProviderQuirks,
    ms: Seq<Tree>,
) -> Seq<(Seq<char>, Tree)> {
    let b = round_trips::with_some(json::fs(), "model"@, Some(json::st(model)));
    let b = round_trips::with_some(b, "messages"@, Some(Tree::Arr(ms)));
    let limit = if q.use_max_completion_tokens {
        "max_completion_tokens"@
    } else {
        "max_tokens"@
    };
    let b = round_trips::with_some(b, limit, round_trips::whole(req.max_tokens));
    let temperature = if q.drop_temperature {
        None
    } else {
        round_trips::fraction(req.temperature)
    };
    let b = round_trips::with_some(b, "temperature"@, temperature);
    let top_p = if q.drop_top_p {
        None
    } else {
        round_trips::fraction(req.top_p)
    };
    let b = round_trips::with_some(b, "top_p"@, top_p);
    let stops = req.stop_sequences.len() > 0 && !q.drop_stop;
    let b = round_trips::with_some(b, "stop"@, round_trips::when(stops, json::text_list(req.stop_sequences)));
    let b = round_trips::with_some(b, "stream"@, round_trips::when(req.stream, Tree::Bool(true)));
    let options = Tree::Obj(json::fs().with("include_usage"@, Tree::Bool(true)));
    let b = round_trips::with_some(b, "stream_options"@, round_trips::when(req.stream && q.stream_usage, options));
    let b = round_trips::with_some(
        b,
        "tools"@,
        round_trips::when(req.tools.len() > 0, openai::tools_out(req.tools)),
    );
    let choice = match req.tool_choice {
        Some(c) => Some(openai::choice_out(c)),
        None => None,
    };
    let b = round_trips::with_some(b, "tool_choice"@, choice);
    let effort = match req.thinking {
        Some(t) => round_trips::when(q.send_reasoning_effort, json::st(openai::effort_out(t))),
        None => None,
    };
    let b = round_trips::with_some(b, "reasoning_effort"@, effort);
    let user = match req.metadata_user {
        Some(u) => Some(json::st(u)),
        None => None,
    };
    round_trips::with_some(b, "user"@, user)
}

pub(crate) proof fn fields_are_listed(req: RequestV, model: Seq<char>, q: ProviderQuirks, ms: Seq<Tree>)
    ensures
        openai::request_fields(RequestV { passthrough: Seq::empty(), ..req }, model, q, ms) == listed_fields(
            req,
            model,
            q,
            ms,
        ),
{
    reveal(round_trips::with_some);
}

proof fn listed_fields_show(req: RequestV, model: Seq<char>, q: ProviderQuirks, ms: Seq<Tree>)
    ensures
        json::field(listed_fields(req, model, q, ms), "model"@) == Some(json::st(model)),
        json::field(listed_fields(req, model, q, ms), "messages"@) == Some(Tree::Arr(ms)),
{
    broadcast use round_trips::some_shows;

    reveal_strlit("model");
    reveal_strlit("messages");
    reveal_strlit("max_completion_tokens");
    reveal_strlit("max_tokens");
    reveal_strlit("temperature");
    reveal_strlit("top_p");
    reveal_strlit("stop");
    reveal_strlit("stream");
    reveal_strlit("stream_options");
    reveal_strlit("tools");
    reveal_strlit("tool_choice");
    reveal_strlit("reasoning_effort");
    reveal_strlit("user");
    assert("model"@.len() == 5 && "model"@[0] == 'm' && "messages"@.len() == 8 && "max_completion_tokens"@.len() == 21
        && "max_tokens"@.len() == 10 && "temperature"@.len() == 11 && "top_p"@.len() == 5 && "top_p"@[0] == 't'
        && "stop"@.len() == 4 && "stream"@.len() == 6 && "stream_options"@.len() == 14 && "tools"@.len() == 5
        && "tools"@[0] == 't' && "tool_choice"@.len() == 11 && "reasoning_effort"@.len() == 16 && "user"@.len()
        == 4);
}

proof fn request_fields_show(req: RequestV, model: Seq<char>, q: ProviderQuirks, ms: Seq<Tree>)
    ensures
        ({
            let t = Tree::Obj(openai::request_fields(req, model, q, ms));
            &&& t.at("model"@) == Some(json::st(model))
            &&& t.at("messages"@) == Some(Tree::Arr(ms))
        }),
{
    let own = openai::request_fields(RequestV { passthrough: Seq::empty(), ..req }, model, q, ms);
    fields_are_listed(req, model, q, ms);
    listed_fields_show(req, model, q, ms);
    filling_keeps(own, req.passthrough, 0, "model"@);
    filling_keeps(own, req.passthrough, 0, "messages"@);
}

/// A conversation that is written for an OpenAI upstream and read again is the same
/// conversation: its system prompt, and every turn with its tool calls and results.
pub proof fn openai_histories_come_back(req: RequestV, ts: Seq<Turn>, model: Seq<char>, q: ProviderQuirks)
    requires
        req.messages == Seq::new(ts.len(), |i: int| ts[i].message()),
        forall|i: int| 0 <= i < ts.len() ==> (#[trigger] ts[i]).carries(req.source_dialect == Dialect::OpenAI),
        forall|i: int| 0 < i < ts.len() && (#[trigger] ts[i]) is Returned ==> !(ts[i - 1] is Returned),
        req.system.len() <= 1,
        req.system.len() == 1 ==> req.system[0].cache_control is None,
    ensures
        openai::request_body(req, model, q) is Ok,
        ({
            let back = openai::request_of(openai::request_body(req, model, q)->Ok_0);
            &&& back is Ok
            &&& back->Ok_0.messages == req.messages
            &&& back->Ok_0.system == req.system
            &&& back->Ok_0.model == model
        }),
{
    let echo = req.source_dialect == Dialect::OpenAI;
    let policy = req.unsupported_content_policy;
    let before = openai::system_out(req.system, q);
    assert(req.messages =~= messages(ts));
    turns_are_written(before, ts, 0, echo, policy);
    let all = wires(before, ts, ts.len() as int);
    later_turns_leave_the_front(before, ts, 0, ts.len() as int);
    let c = Conversation { system: req.system, messages: Seq::empty() };
    assert(openai::turns(openai::no_conversation(), all, 0) == openai::turns(c, all, before.len() as int)) by {
        if req.system.len() == 1 {
            message_names();
            reveal_with_fuel(json::find_from, 3);
            assert(all[0] == all.take(before.len() as int)[0]);
            let texts = openai::system_texts(req.system);
            assert(text::joined(texts, "\n\n"@) == req.system[0].text);
            assert(Seq::empty().push(ir::system_part(req.system[0].text)) =~= req.system);
        } else {
            assert(req.system =~= Seq::<SystemV>::empty());
        }
    }
    turns_are_read(before, c, ts, 0, echo);
    assert(messages(ts).take(0) =~= Seq::empty());
    request_fields_show(req, model, q, all);
}

// ------------------------------------------------------------------- answers

/// The words of the blocks from index `i` on, one after the other.
pub open spec fn words_in(bs: Seq<BlockV>, i: int, acc: Seq<char>) -> Seq<char>
    decreases bs.len() - i,
{
    if i < 0 || i >= bs.len() {
        acc
    } else {
        match bs[i] {
            BlockV::Text { text, .. } => words_in(bs, i + 1, acc + text),
            _ => words_in(bs, i + 1, acc),
        }
    }
}

/// The reasoning in the blocks from index `i` on, one after the other.
pub open spec fn reasoning_in(bs: Seq<BlockV>, i: int, acc: Seq<char>) -> Seq<char>
    decreases bs.len() - i,
{
    if i < 0 || i >= bs.len() {
        acc
    } else {
        match bs[i] {
            BlockV::Thinking { text, .. } => reasoning_in(bs, i + 1, acc + text),
            _ => reasoning_in(bs, i + 1, acc),
        }
    }
}

/// The tool calls among the blocks from index `i` on.
pub open spec fn calls_in(bs: Seq<BlockV>, i: int, acc: Seq<BlockV>) -> Seq<BlockV>
    decreases bs.len() - i,
{
    if i < 0 || i >= bs.len() {
        acc
    } else {
        calls_in(bs, i + 1, if bs[i] is ToolUse { acc.push(bs[i]) } else { acc })
    }
}

/// The blocks of an answer as OpenAI tells them apart: the reasoning, the words and
/// the tool calls.
pub open spec fn regrouped(bs: Seq<BlockV>) -> Seq<BlockV> {
    let r = reasoning_in(bs, 0, Seq::empty());
    let w = words_in(bs, 0, Seq::empty());
    let a = if r.len() > 0 { Seq::empty().push(BlockV::Thinking { text: r, signature: None }) } else { Seq::empty() };
    let b = if w.len() > 0 { a.push(ir::text_block(w)) } else { a };
    b + calls_in(bs, 0, Seq::empty())
}

/// A tool call of an answer, which has its place among them.
spec fn answered_call(b: BlockV, at: int) -> Tree {
    match b {
        BlockV::ToolUse { id, name, input } => Tree::Obj(
            json::fs().with("index"@, json::num(at)).with("id"@, json::st(id)).with("type"@, json::st("function"@)).with(
                "function"@,
                Tree::Obj(
                    json::fs().with("name"@, json::st(name)).with(
                        "arguments"@,
                        json::st(openai::arguments_text(input)),
                    ),
                ),
            ),
        ),
        _ => Tree::Null,
    }
}

spec fn answered_calls(calls: Seq<BlockV>) -> Seq<Tree> {
    Seq::new(calls.len(), |i: int| answered_call(calls[i], i))
}

proof fn blocks_are_uttered(s: Said, bs: Seq<BlockV>, calls: Seq<BlockV>, i: int)
    requires
        0 <= i <= bs.len(),
        s.calls == answered_calls(calls),
        forall|j: int| 0 <= j < calls.len() ==> call_carries(#[trigger] calls[j]),
        forall|j: int| 0 <= j < bs.len() && (#[trigger] bs[j]) is ToolUse ==> call_carries(bs[j]),
    ensures
        openai::utter_all(s, bs, i) == (Said {
            text: words_in(bs, i, s.text),
            reasoning: reasoning_in(bs, i, s.reasoning),
            items: s.items,
            calls: answered_calls(calls_in(bs, i, calls)),
        }),
        forall|j: int|
            0 <= j < calls_in(bs, i, calls).len() ==> call_carries(#[trigger] calls_in(bs, i, calls)[j]),
    decreases bs.len() - i,
{
    if i < bs.len() {
        let next = openai::utter(s, bs[i]);
        if bs[i] is ToolUse {
            assert(next.calls =~= answered_calls(calls.push(bs[i])));
            blocks_are_uttered(next, bs, calls.push(bs[i]), i + 1);
        } else {
            blocks_are_uttered(next, bs, calls, i + 1);
        }
    }
}

proof fn answered_call_is_read(b: BlockV, at: int, id: Seq<char>)
    requires
        call_carries(b),
    ensures
        ({
            let c = answered_call(b, at);
            openai::called(c, c.at("id"@).text_or(id)) == b
        }),
{
    message_names();
    reveal_strlit("index");
    assert("index"@.len() == 5);
    reveal_with_fuel(json::find_from, 5);
}

proof fn answered_calls_are_read(calls: Seq<BlockV>, before: Seq<BlockV>, ids: Seq<Seq<char>>, i: int)
    requires
        0 <= i <= calls.len(),
        forall|j: int| 0 <= j < calls.len() ==> call_carries(#[trigger] calls[j]),
    ensures
        openai::answered_calls(answered_calls(calls), ids, i, before + calls.take(i)) == before + calls,
    decreases calls.len() - i,
{
    if i < calls.len() {
        answered_call_is_read(calls[i], i, openai::id_at(ids, i));
        assert((before + calls.take(i)).push(calls[i]) =~= before + calls.take(i + 1));
        answered_calls_are_read(calls, before, ids, i + 1);
    } else {
        assert(calls.take(i) =~= calls);
    }
}

pub(crate) proof fn usage_comes_back(u: Usage)
    ensures
        openai::usage_of(Some(openai::usage_out(u))) == (Usage { cache_write_tokens: 0, ..u }),
{
    reveal_strlit("prompt_tokens");
    reveal_strlit("completion_tokens");
    reveal_strlit("total_tokens");
    reveal_strlit("prompt_tokens_details");
    reveal_strlit("completion_tokens_details");
    assert("prompt_tokens"@.len() == 13 && "completion_tokens"@.len() == 17 && "total_tokens"@.len() == 12
        && "prompt_tokens_details"@.len() == 21 && "completion_tokens_details"@.len() == 25);
    reveal_with_fuel(json::find_from, 6);
}

proof fn response_fields_show(resp: ResponseV, created: i64)
    ensures
        ({
            let t = openai::response_body(resp, created);
            let s = openai::utter_all(openai::nothing_said(), resp.content, 0);
            &&& t.at("error"@) is None
            &&& t.at("id"@) == Some(json::st(resp.id))
            &&& t.at("model"@) == Some(json::st(resp.model))
            &&& t.at("usage"@) == Some(openai::usage_out(resp.usage))
            &&& openai::first_choice(t) is Some
            &&& openai::first_choice(t).at("message"@) == Some(openai::assistant_message(s))
            &&& openai::first_choice(t).at("finish_reason"@) == Some(json::st(openai::finish_or_stop(resp.stop_reason)))
        }),
{
    reveal_strlit("error");
    reveal_strlit("id");
    reveal_strlit("object");
    reveal_strlit("created");
    reveal_strlit("model");
    reveal_strlit("choices");
    reveal_strlit("usage");
    reveal_strlit("index");
    reveal_strlit("message");
    reveal_strlit("logprobs");
    reveal_strlit("finish_reason");
    assert("error"@.len() == 5 && "error"@[0] == 'e' && "model"@.len() == 5 && "model"@[0] == 'm' && "usage"@.len() == 5
        && "usage"@[0] == 'u' && "index"@.len() == 5 && "id"@.len() == 2 && "object"@.len() == 6);
    assert("created"@.len() == 7 && "created"@[1] == 'r' && "choices"@.len() == 7 && "choices"@[1] == 'h');
    assert("message"@.len() == 7 && "logprobs"@.len() == 8 && "finish_reason"@.len() == 13);
    reveal_with_fuel(json::find_from, 7);
}

/// An answer that is written for an OpenAI client and read again is the same answer,
/// with its reasoning, words and tool calls each in one place: but for a stop sequence
/// and the tokens written to a cache, which OpenAI does not tell, and what was left
/// over of another dialect's answer. A reason to stop that has no name is told as the
/// end of the turn.
pub proof fn openai_answers_come_back(resp: ResponseV, created: i64, ids: Seq<Seq<char>>)
    requires
        forall|i: int|
            0 <= i < resp.content.len() && (#[trigger] resp.content[i]) is ToolUse ==> call_carries(resp.content[i]),
    ensures
        openai::response_of(openai::response_body(resp, created), ids) == Ok::<ResponseV, ErrorV>(
            ResponseV {
                content: regrouped(resp.content),
                stop_reason: match resp.stop_reason {
                    StopReason::StopSequence => StopReason::EndTurn,
                    StopReason::Unknown => StopReason::EndTurn,
                    other => other,
                },
                stop_sequence: None,
                usage: Usage { cache_write_tokens: 0, ..resp.usage },
                passthrough: Seq::empty(),
                ..resp
            },
        ),
{
    let s = openai::utter_all(openai::nothing_said(), resp.content, 0);
    let calls = calls_in(resp.content, 0, Seq::empty());
    assert(openai::nothing_said().calls =~= answered_calls(Seq::empty()));
    blocks_are_uttered(openai::nothing_said(), resp.content, Seq::empty(), 0);
    response_fields_show(resp, created);
    usage_comes_back(resp.usage);
    openai::finish_reasons_round_trip(resp.stop_reason);
    openai::finish_reasons_round_trip(StopReason::EndTurn);
    answer_fields_show(s);
    let a = if s.reasoning.len() > 0 {
        Seq::empty().push(BlockV::Thinking { text: s.reasoning, signature: None })
    } else {
        Seq::<BlockV>::empty()
    };
    let b = if s.text.len() > 0 { a.push(ir::text_block(s.text)) } else { a };
    answered_calls_are_read(calls, b, ids, 0);
    assert(b + calls.take(0) =~= b);
    if calls.len() == 0 {
        assert(b + calls =~= b);
    }
    assert(openai::answered_blocks(openai::assistant_message(s), ids) == b + calls);
}

} // verus!
