//! What the body of an OpenAI request says of the request.

use crate::error::ErrorV;
use crate::ir;
use crate::ir::{
    BlockV, ChoiceV, Dialect, MessageV, PartV, RequestV, Role, SourceV, SystemV, ThinkingConfig, ToolV,
    UnsupportedContentPolicy,
};
use crate::json;
use crate::json::{Build, Lookup, Tree};
use crate::laws;
use crate::protocol;
use crate::protocol::openai;
use crate::protocol::openai::{Heard, Said};
use crate::protocol::reasoning_bridge;
use crate::protocol::round_trips;
use crate::protocol::ProviderQuirks;
use crate::text;
use vstd::prelude::*;

verus! {

broadcast use crate::json::set_shows;

// ----------------------------------------------------------------- user turns

/// The words of one part of a tool result.
pub open spec fn result_words() -> spec_fn(PartV) -> Seq<char> {
    |p: PartV|
        match p {
            PartV::Text { text } => text,
            PartV::Image { .. } => "[image]"@,
        }
}

/// The message of its own that a tool result is.
pub open spec fn tool_message() -> spec_fn(BlockV) -> Option<Tree> {
    |b: BlockV|
        match b {
            BlockV::ToolResult { tool_use_id, content, .. } => Some(
                Tree::Obj(
                    seq![
                        ("role"@, Tree::Str("tool"@)),
                        ("tool_call_id"@, Tree::Str(tool_use_id)),
                        ("content"@, Tree::Str(text::joined(content.map_values(result_words()), "\n"@))),
                    ],
                ),
            ),
            _ => None,
        }
}

/// A block that the dialect cannot carry.
pub open spec fn is_foreign(b: BlockV) -> bool {
    match b {
        BlockV::Audio { source: SourceV::Base64 { .. }, .. } => false,
        BlockV::Audio { .. } | BlockV::File { .. } | BlockV::Video { .. } | BlockV::Citation { .. }
        | BlockV::Annotation { .. } => true,
        _ => false,
    }
}

pub open spec fn words_part(t: Seq<char>) -> Tree {
    Tree::Obj(seq![("type"@, Tree::Str("text"@)), ("text"@, Tree::Str(t))])
}

/// The part of the user message that a block is.
pub open spec fn user_part_of(policy: UnsupportedContentPolicy) -> spec_fn(BlockV) -> Option<Tree> {
    |b: BlockV|
        match b {
            BlockV::Text { text, .. } => Some(words_part(text)),
            BlockV::Image { source } => Some(
                Tree::Obj(
                    seq![
                        ("type"@, Tree::Str("image_url"@)),
                        ("image_url"@, Tree::Obj(seq![("url"@, Tree::Str(ir::url_of_source(source)))])),
                    ],
                ),
            ),
            BlockV::Audio { source: SourceV::Base64 { data, .. }, media_type } => Some(
                Tree::Obj(
                    seq![
                        ("type"@, Tree::Str("input_audio"@)),
                        (
                            "input_audio"@,
                            Tree::Obj(
                                seq![
                                    ("data"@, Tree::Str(data)),
                                    ("format"@, Tree::Str(protocol::audio_format(media_type))),
                                ],
                            ),
                        ),
                    ],
                ),
            ),
            _ => if is_foreign(b) && policy == UnsupportedContentPolicy::Placeholder {
                Some(words_part("["@ + protocol::block_kind(b) + "]"@))
            } else {
                None
            },
        }
}

/// The request is refused for that block.
pub open spec fn refused(policy: UnsupportedContentPolicy, b: BlockV) -> bool {
    policy == UnsupportedContentPolicy::Reject && is_foreign(b)
}

proof fn block_is_heard(h: Heard, b: BlockV, policy: UnsupportedContentPolicy)
    ensures
        openai::hear(h, b, policy) is Err <==> refused(policy, b),
        openai::hear(h, b, policy) matches Ok(x) ==> {
            &&& x.out == match tool_message()(b) {
                Some(t) => h.out.push(t),
                None => h.out,
            }
            &&& x.parts == match user_part_of(policy)(b) {
                Some(t) => h.parts.push(t),
                None => h.parts,
            }
        },
{
    match b {
        BlockV::ToolResult { tool_use_id, content, .. } => {
            assert(openai::result_texts(content) =~= content.map_values(result_words()));
            assert(json::fs().with("role"@, json::st("tool"@)).with("tool_call_id"@, json::st(tool_use_id)).with(
                "content"@,
                json::st(text::joined(openai::result_texts(content), "\n"@)),
            ) =~= tool_message()(b)->0->Obj_0);
        },
        BlockV::Text { text, .. } => {
            part_is_words(text);
        },
        BlockV::Image { source } => {
            let inner = json::fs().with("url"@, json::st(ir::url_of_source(source)));
            assert(inner =~= seq![("url"@, Tree::Str(ir::url_of_source(source)))]);
            assert(json::fs().with("type"@, json::st("image_url"@)).with("image_url"@, Tree::Obj(inner))
                =~= user_part_of(policy)(b)->0->Obj_0);
        },
        BlockV::Audio { source: SourceV::Base64 { data, .. }, media_type } => {
            let inner = json::fs().with("data"@, json::st(data)).with(
                "format"@,
                json::st(protocol::audio_format(media_type)),
            );
            assert(inner =~= seq![
                ("data"@, Tree::Str(data)),
                ("format"@, Tree::Str(protocol::audio_format(media_type))),
            ]);
            assert(json::fs().with("type"@, json::st("input_audio"@)).with("input_audio"@, Tree::Obj(inner))
                =~= user_part_of(policy)(b)->0->Obj_0);
        },
        _ => {
            part_is_words("["@ + protocol::block_kind(b) + "]"@);
        },
    }
}

proof fn part_is_words(t: Seq<char>)
    ensures
        openai::text_part(t) == words_part(t),
{
    assert(json::fs().with("type"@, json::st("text"@)).with("text"@, json::st(t)) =~= words_part(t)->Obj_0);
}

proof fn blocks_are_heard(h: Heard, bs: Seq<BlockV>, i: int, policy: UnsupportedContentPolicy)
    requires
        0 <= i <= bs.len(),
    ensures
        openai::hear_all(h, bs, i, policy) is Err <==> exists|k: int|
            i <= k < bs.len() && #[trigger] refused(policy, bs[k]),
        openai::hear_all(h, bs, i, policy) matches Ok(x) ==> {
            &&& x.out == h.out + bs.skip(i).filter_map(tool_message())
            &&& x.parts == h.parts + bs.skip(i).filter_map(user_part_of(policy))
        },
    decreases bs.len() - i,
{
    let rest = bs.skip(i);
    if i < bs.len() {
        laws::keeping_first(bs, i, tool_message());
        laws::keeping_first(bs, i, user_part_of(policy));
        block_is_heard(h, bs[i], policy);
        if let Ok(next) = openai::hear(h, bs[i], policy) {
            blocks_are_heard(next, bs, i + 1, policy);
            if let Ok(x) = openai::hear_all(next, bs, i + 1, policy) {
                assert(x.out =~= h.out + rest.filter_map(tool_message()));
                assert(x.parts =~= h.parts + rest.filter_map(user_part_of(policy)));
            }
        } else {
            assert(refused(policy, bs[i]));
        }
    } else {
        assert(rest =~= Seq::empty());
        assert(h.out + rest.filter_map(tool_message()) =~= h.out);
        assert(h.parts + rest.filter_map(user_part_of(policy)) =~= h.parts);
    }
}

/// The words of a part that is text.
pub open spec fn words_in() -> spec_fn(Tree) -> Seq<char> {
    |p: Tree| p.at("text"@).text_or(Seq::empty())
}

pub open spec fn is_words(p: Tree) -> bool {
    p.at("type"@).text() == Some("text"@)
}

proof fn texts_are_words(parts: Seq<Tree>, i: int)
    requires
        0 <= i <= parts.len(),
    ensures
        openai::part_texts(parts, i, parts.take(i).flat_map(words_in())) == parts.flat_map(words_in()),
    decreases parts.len() - i,
{
    if i < parts.len() {
        laws::unfolding_takes(parts, i, words_in());
        texts_are_words(parts, i + 1);
    } else {
        assert(parts.take(i) =~= parts);
    }
}

/// The content of a user message is all its parts, or all their words where they are all
/// text.
pub proof fn user_content_is_whole(parts: Seq<Tree>)
    ensures
        (forall|i: int| 0 <= i < parts.len() ==> #[trigger] is_words(parts[i])) ==> openai::user_content(parts)
            == Tree::Str(parts.flat_map(words_in())),
        (exists|i: int| 0 <= i < parts.len() && !(#[trigger] is_words(parts[i]))) ==> openai::user_content(parts)
            == Tree::Arr(parts),
{
    assert(parts.take(0) =~= Seq::<Tree>::empty());
    assert(Seq::<Tree>::empty().map_values(words_in()) =~= Seq::empty());
    texts_are_words(parts, 0);
    assert(openai::all_text(parts) <==> forall|i: int| 0 <= i < parts.len() ==> #[trigger] is_words(parts[i])) by {
        if openai::all_text(parts) {
            assert forall|i: int| 0 <= i < parts.len() implies #[trigger] is_words(parts[i]) by {
                assert(parts[i].at("type"@).text() == Some("text"@));
            }
        } else {
            let i = choose|i: int|
                0 <= i < parts.len() && (#[trigger] parts[i]).at("type"@).text() != Some("text"@);
            assert(!is_words(parts[i]));
        }
    }
}

/// Whatever a user turn holds, it is written whole: a tool message for every tool result,
/// in order, and behind them, where the turn holds anything else that the dialect can
/// carry, one user message with all of that, in order. Only a policy that refuses what
/// the dialect cannot carry refuses the turn.
pub proof fn user_turns_are_written_whole(
    out: Seq<Tree>,
    m: MessageV,
    echo: bool,
    policy: UnsupportedContentPolicy,
)
    requires
        m.role == Role::User,
    ensures
        ({
            let results = m.content.filter_map(tool_message());
            let parts = m.content.filter_map(user_part_of(policy));
            &&& openai::message_out(out, m, echo, policy) is Err <==> exists|k: int|
                0 <= k < m.content.len() && #[trigger] refused(policy, m.content[k])
            &&& openai::message_out(out, m, echo, policy) matches Ok(r) ==> {
                &&& parts.len() == 0 ==> r == out + results
                &&& parts.len() > 0 ==> r == (out + results).push(
                    Tree::Obj(
                        seq![("role"@, Tree::Str("user"@)), ("content"@, openai::user_content(parts))],
                    ),
                )
            }
        }),
{
    let h = Heard { out, parts: Seq::empty() };
    blocks_are_heard(h, m.content, 0, policy);
    assert(m.content.skip(0) =~= m.content);
    let parts = m.content.filter_map(user_part_of(policy));
    assert(h.parts + parts =~= parts);
    assert(json::fs().with("role"@, json::st("user"@)).with("content"@, openai::user_content(parts)) =~= seq![
        ("role"@, Tree::Str("user"@)),
        ("content"@, openai::user_content(parts)),
    ]);
}

/// The texts of a turn.
pub open spec fn texts_said() -> spec_fn(BlockV) -> Option<Seq<char>> {
    |b: BlockV|
        match b {
            BlockV::Text { text, .. } => Some(text),
            _ => None,
        }
}

/// What the user wrote beside tool results reaches the provider: a turn of tool results
/// and texts ends in a user message that says all the texts, one behind the other.
pub proof fn words_beside_results_are_sent(out: Seq<Tree>, m: MessageV, echo: bool, policy: UnsupportedContentPolicy)
    requires
        m.role == Role::User,
        forall|k: int|
            0 <= k < m.content.len() ==> (#[trigger] m.content[k]) is ToolResult || m.content[k] is Text,
        exists|k: int| 0 <= k < m.content.len() && (#[trigger] m.content[k]) is Text,
    ensures
        openai::message_out(out, m, echo, policy) matches Ok(r) && r.len() == out.len() + m.content.filter_map(
            tool_message(),
        ).len() + 1 && r.last().at("role"@) == Some(Tree::Str("user"@)) && r.last().at("content"@) == Some(
            Tree::Str(m.content.filter_map(texts_said()).flatten()),
        ),
{
    user_turns_are_written_whole(out, m, echo, policy);
    let parts = m.content.filter_map(user_part_of(policy));
    words_are_parts(m.content, policy);
    assert forall|k: int| 0 <= k < m.content.len() implies !(#[trigger] refused(policy, m.content[k])) by {
        assert(m.content[k] is ToolResult || m.content[k] is Text);
    }
    user_content_is_whole(parts);
    reveal_strlit("role");
    reveal_strlit("content");
    assert("role"@.len() == 4 && "content"@.len() == 7);
    reveal_with_fuel(json::find_from, 3);
}

proof fn words_are_parts(bs: Seq<BlockV>, policy: UnsupportedContentPolicy)
    requires
        forall|k: int| 0 <= k < bs.len() ==> (#[trigger] bs[k]) is ToolResult || bs[k] is Text,
    ensures
        ({
            let parts = bs.filter_map(user_part_of(policy));
            &&& forall|i: int| 0 <= i < parts.len() ==> #[trigger] is_words(parts[i])
            &&& parts.flat_map(words_in()) == bs.filter_map(texts_said()).flatten()
            &&& (exists|k: int| 0 <= k < bs.len() && (#[trigger] bs[k]) is Text) ==> parts.len() > 0
        }),
    decreases bs.len(),
{
    let parts = bs.filter_map(user_part_of(policy));
    if bs.len() > 0 {
        let most = bs.drop_last();
        let b = bs.last();
        assert(b == bs[bs.len() - 1]);
        assert forall|k: int| 0 <= k < most.len() implies (#[trigger] most[k]) is ToolResult || most[k] is Text by {
            assert(most[k] == bs[k]);
        }
        words_are_parts(most, policy);
        let before = most.filter_map(user_part_of(policy));
        if let BlockV::Text { text, .. } = b {
            let p = words_part(text);
            assert(parts =~= before.push(p));
            before.lemma_flat_map_push(words_in(), p);
            reveal_strlit("type");
            reveal_strlit("text");
            assert("type"@.len() == 4 && "type"@[1] == 'y' && "text"@.len() == 4 && "text"@[1] == 'e');
            reveal_with_fuel(json::find_from, 3);
            assert(is_words(p) && words_in()(p) == text);
            let said = most.filter_map(texts_said());
            assert(bs.filter_map(texts_said()) =~= said.push(text));
            said.lemma_flatten_push(text);
            assert forall|i: int| 0 <= i < parts.len() implies #[trigger] is_words(parts[i]) by {
                if i < before.len() {
                    assert(parts[i] == before[i]);
                }
            }
        } else {
            assert(parts =~= before);
            if exists|k: int| 0 <= k < bs.len() && (#[trigger] bs[k]) is Text {
                let k = choose|k: int| 0 <= k < bs.len() && (#[trigger] bs[k]) is Text;
                assert(most[k] == bs[k]);
            }
        }
    } else {
        assert(parts.map_values(words_in()) =~= Seq::empty());
    }
}

// ------------------------------------------------------------ assistant turns

/// The words that a block of an answer says, with what stands in for what cannot be said.
pub open spec fn words_said(policy: UnsupportedContentPolicy) -> spec_fn(BlockV) -> Seq<char> {
    |b: BlockV|
        match b {
            BlockV::Text { text, .. } => text,
            BlockV::Audio { .. } | BlockV::File { .. } | BlockV::Video { .. } | BlockV::Citation { .. }
            | BlockV::Annotation { .. } => if policy == UnsupportedContentPolicy::Placeholder {
                "["@ + protocol::block_kind(b) + "]"@
            } else {
                Seq::empty()
            },
            _ => Seq::empty(),
        }
}

/// A tool call as it is sent.
pub open spec fn call_sent() -> spec_fn(BlockV) -> Option<Tree> {
    |b: BlockV|
        match b {
            BlockV::ToolUse { id, name, input } => Some(
                Tree::Obj(
                    seq![
                        ("id"@, Tree::Str(id)),
                        ("type"@, Tree::Str("function"@)),
                        (
                            "function"@,
                            Tree::Obj(
                                seq![
                                    ("name"@, Tree::Str(name)),
                                    ("arguments"@, Tree::Str(openai::arguments_text(input))),
                                ],
                            ),
                        ),
                    ],
                ),
            ),
            _ => None,
        }
}

/// Reasoning without a signature, which is told in words where it is told at all.
pub open spec fn thoughts_said(echo: bool) -> spec_fn(BlockV) -> Seq<char> {
    |b: BlockV|
        match b {
            BlockV::Thinking { text, .. } => if echo && reasoning_bridge::item_of(b) is None {
                text
            } else {
                Seq::empty()
            },
            _ => Seq::empty(),
        }
}

/// Reasoning that is bridged.
pub open spec fn item_sent(echo: bool) -> spec_fn(BlockV) -> Option<Tree> {
    |b: BlockV|
        match b {
            BlockV::Thinking { .. } | BlockV::RedactedThinking { .. } => if echo {
                reasoning_bridge::item_of(b)
            } else {
                None
            },
            _ => None,
        }
}

/// The request is refused for that block of an answer.
pub open spec fn refused_answer(policy: UnsupportedContentPolicy, b: BlockV) -> bool {
    policy == UnsupportedContentPolicy::Reject && match b {
        BlockV::Audio { .. } | BlockV::File { .. } | BlockV::Video { .. } | BlockV::Citation { .. }
        | BlockV::Annotation { .. } => true,
        _ => false,
    }
}

/// Arguments are sent as text: what was kept as text as it stands, and anything else as
/// its JSON.
pub proof fn arguments_are_sent(s: Seq<char>, t: Tree)
    ensures
        openai::arguments_text(Tree::Str(s)) == s,
        !(t is Str) ==> openai::arguments_text(t) == json::rendered(t),
{
}

proof fn block_is_said(s: Said, b: BlockV, echo: bool, policy: UnsupportedContentPolicy)
    ensures
        openai::say(s, b, echo, policy) is Err <==> refused_answer(policy, b),
        openai::say(s, b, echo, policy) matches Ok(x) ==> {
            &&& x.text == s.text + words_said(policy)(b)
            &&& x.reasoning == s.reasoning + thoughts_said(echo)(b)
            &&& x.items == match item_sent(echo)(b) {
                Some(t) => s.items.push(t),
                None => s.items,
            }
            &&& x.calls == match call_sent()(b) {
                Some(t) => s.calls.push(t),
                None => s.calls,
            }
        },
{
    assert(s.text + Seq::empty() =~= s.text);
    assert(s.reasoning + Seq::empty() =~= s.reasoning);
    if let BlockV::ToolUse { id, name, input } = b {
        let inner = json::fs().with("name"@, json::st(name)).with(
            "arguments"@,
            json::st(openai::arguments_text(input)),
        );
        assert(inner =~= seq![("name"@, Tree::Str(name)), ("arguments"@, Tree::Str(openai::arguments_text(input)))]);
        assert(json::fs().with("id"@, json::st(id)).with("type"@, json::st("function"@)).with(
            "function"@,
            Tree::Obj(inner),
        ) =~= call_sent()(b)->0->Obj_0);
    }
}

proof fn blocks_are_said(s: Said, bs: Seq<BlockV>, i: int, echo: bool, policy: UnsupportedContentPolicy)
    requires
        0 <= i <= bs.len(),
    ensures
        openai::say_all(s, bs, i, echo, policy) is Err <==> exists|k: int|
            i <= k < bs.len() && #[trigger] refused_answer(policy, bs[k]),
        openai::say_all(s, bs, i, echo, policy) matches Ok(x) ==> {
            &&& x.text == s.text + bs.skip(i).flat_map(words_said(policy))
            &&& x.reasoning == s.reasoning + bs.skip(i).flat_map(thoughts_said(echo))
            &&& x.items == s.items + bs.skip(i).filter_map(item_sent(echo))
            &&& x.calls == s.calls + bs.skip(i).filter_map(call_sent())
        },
    decreases bs.len() - i,
{
    let rest = bs.skip(i);
    if i < bs.len() {
        laws::unfolding_first(bs, i, words_said(policy));
        laws::unfolding_first(bs, i, thoughts_said(echo));
        laws::keeping_first(bs, i, item_sent(echo));
        laws::keeping_first(bs, i, call_sent());
        block_is_said(s, bs[i], echo, policy);
        if let Ok(next) = openai::say(s, bs[i], echo, policy) {
            blocks_are_said(next, bs, i + 1, echo, policy);
            if let Ok(x) = openai::say_all(next, bs, i + 1, echo, policy) {
                assert(x.text =~= s.text + rest.flat_map(words_said(policy)));
                assert(x.reasoning =~= s.reasoning + rest.flat_map(thoughts_said(echo)));
                assert(x.items =~= s.items + rest.filter_map(item_sent(echo)));
                assert(x.calls =~= s.calls + rest.filter_map(call_sent()));
            }
        } else {
            assert(refused_answer(policy, bs[i]));
        }
    } else {
        laws::nothing_is_left(bs, item_sent(echo), |b: BlockV| Seq::<Tree>::empty());
        laws::nothing_is_left(bs, call_sent(), |b: BlockV| Seq::<Tree>::empty());
        laws::nothing_is_left(bs, |b: BlockV| None::<char>, words_said(policy));
        laws::nothing_is_left(bs, |b: BlockV| None::<char>, thoughts_said(echo));
        assert(s.text + Seq::empty() =~= s.text);
        assert(s.reasoning + Seq::empty() =~= s.reasoning);
        assert(s.items + Seq::empty() =~= s.items);
        assert(s.calls + Seq::empty() =~= s.calls);
    }
}

/// The names in an assistant message.
proof fn message_names()
    ensures
        "role"@ != "content"@,
        "role"@ != "reasoning_content"@,
        "role"@ != "reasoning"@,
        "role"@ != "tool_calls"@,
        "content"@ != "reasoning_content"@,
        "content"@ != "reasoning"@,
        "content"@ != "tool_calls"@,
        "reasoning_content"@ != "reasoning"@,
        "reasoning_content"@ != "tool_calls"@,
        "reasoning"@ != "tool_calls"@,
{
    reveal_strlit("role");
    reveal_strlit("content");
    reveal_strlit("reasoning_content");
    reveal_strlit("reasoning");
    reveal_strlit("tool_calls");
    assert("role"@.len() == 4 && "content"@.len() == 7 && "reasoning_content"@.len() == 17 && "reasoning"@.len() == 9
        && "tool_calls"@.len() == 10);
}

/// A field that is a list, where there is anything in it.
pub open spec fn some_list(s: Seq<Tree>) -> Option<Tree> {
    if s.len() > 0 {
        Some(Tree::Arr(s))
    } else {
        None
    }
}

/// A field that is text, where there is any.
pub open spec fn some_text(s: Seq<char>) -> Option<Tree> {
    if s.len() > 0 {
        Some(Tree::Str(s))
    } else {
        None
    }
}

/// What an assistant message says is what was gathered for it.
pub(crate) proof fn message_shows(s: Said)
    ensures
        ({
            let r = openai::assistant_message(s);
            &&& r.at("role"@) == Some(Tree::Str("assistant"@))
            &&& r.at("content"@) == Some(
                if s.text.len() == 0 && s.calls.len() > 0 {
                    Tree::Null
                } else {
                    Tree::Str(s.text)
                },
            )
            &&& r.at("reasoning_content"@) == some_text(s.reasoning)
            &&& r.at("reasoning"@) == some_list(s.items)
            &&& r.at("tool_calls"@) == some_list(s.calls)
        }),
{
    message_names();
}

/// An assistant turn is written whole, as one message: all its words one behind the
/// other, or none where it only calls tools; all its tool calls, in order; and its
/// reasoning where that is echoed.
pub proof fn assistant_turns_are_written_whole(
    out: Seq<Tree>,
    m: MessageV,
    echo: bool,
    policy: UnsupportedContentPolicy,
)
    requires
        m.role == Role::Assistant,
    ensures
        openai::message_out(out, m, echo, policy) is Err <==> exists|k: int|
            0 <= k < m.content.len() && #[trigger] refused_answer(policy, m.content[k]),
        openai::message_out(out, m, echo, policy) matches Ok(r) ==> {
            let words = m.content.flat_map(words_said(policy));
            let calls = m.content.filter_map(call_sent());
            &&& r.len() == out.len() + 1
            &&& r.drop_last() == out
            &&& r.last().at("role"@) == Some(Tree::Str("assistant"@))
            &&& r.last().at("content"@) == Some(
                if words.len() == 0 && calls.len() > 0 {
                    Tree::Null
                } else {
                    Tree::Str(words)
                },
            )
            &&& r.last().at("tool_calls"@) == some_list(calls)
            &&& r.last().at("reasoning_content"@) == some_text(m.content.flat_map(thoughts_said(echo)))
            &&& r.last().at("reasoning"@) == some_list(m.content.filter_map(item_sent(echo)))
        },
{
    let n = openai::nothing_said();
    blocks_are_said(n, m.content, 0, echo, policy);
    assert(m.content.skip(0) =~= m.content);
    if let Ok(s) = openai::say_all(n, m.content, 0, echo, policy) {
        assert(s.text =~= m.content.flat_map(words_said(policy)));
        assert(s.reasoning =~= m.content.flat_map(thoughts_said(echo)));
        assert(s.items =~= m.content.filter_map(item_sent(echo)));
        assert(s.calls =~= m.content.filter_map(call_sent()));
        message_shows(s);
        assert(out.push(openai::assistant_message(s)).drop_last() =~= out);
    }
}

// ------------------------------------------------------------- conversations

/// The messages for one turn.
pub open spec fn turn_sent(echo: bool, policy: UnsupportedContentPolicy) -> spec_fn(MessageV) -> Seq<Tree> {
    |m: MessageV| openai::message_out(Seq::empty(), m, echo, policy)->Ok_0
}

/// A turn is written alike whatever came before it.
pub(crate) proof fn turns_stand_alone(out: Seq<Tree>, m: MessageV, echo: bool, policy: UnsupportedContentPolicy)
    ensures
        openai::message_out(out, m, echo, policy) is Ok <==> openai::message_out(
            Seq::empty(),
            m,
            echo,
            policy,
        ) is Ok,
        openai::message_out(out, m, echo, policy) matches Ok(r) ==> r == out + turn_sent(echo, policy)(m),
{
    let none = Seq::<Tree>::empty();
    if m.role == Role::User {
        user_turns_are_written_whole(out, m, echo, policy);
        user_turns_are_written_whole(none, m, echo, policy);
        if let Ok(r) = openai::message_out(out, m, echo, policy) {
            assert(r =~= out + turn_sent(echo, policy)(m));
        }
    } else if let Ok(r) = openai::message_out(out, m, echo, policy) {
        assert(r =~= out + turn_sent(echo, policy)(m));
    }
}

proof fn history_is_sent(out: Seq<Tree>, ms: Seq<MessageV>, i: int, echo: bool, policy: UnsupportedContentPolicy)
    requires
        0 <= i <= ms.len(),
    ensures
        openai::messages_out(out, ms, i, echo, policy) is Ok <==> forall|k: int|
            i <= k < ms.len() ==> openai::message_out(Seq::empty(), #[trigger] ms[k], echo, policy) is Ok,
        openai::messages_out(out, ms, i, echo, policy) matches Ok(r) ==> r == out + ms.skip(i).flat_map(
            turn_sent(echo, policy),
        ),
    decreases ms.len() - i,
{
    if i < ms.len() {
        turns_stand_alone(out, ms[i], echo, policy);
        laws::unfolding_first(ms, i, turn_sent(echo, policy));
        if let Ok(next) = openai::message_out(out, ms[i], echo, policy) {
            history_is_sent(next, ms, i + 1, echo, policy);
            if let Ok(r) = openai::messages_out(next, ms, i + 1, echo, policy) {
                assert(r =~= out + ms.skip(i).flat_map(turn_sent(echo, policy)));
            }
        }
    } else {
        laws::nothing_is_left(ms, |m: MessageV| None::<Tree>, turn_sent(echo, policy));
        assert(out + Seq::empty() =~= out);
    }
}

/// The texts of a system prompt.
pub open spec fn prompt_texts() -> spec_fn(SystemV) -> Seq<char> {
    |p: SystemV| p.text
}

/// The messages of a body are the system prompt, where there is one, with all its parts
/// two lines apart, and then those of every turn, in order.
pub proof fn histories_are_sent_whole(req: RequestV, model: Seq<char>, q: ProviderQuirks)
    ensures
        ({
            let echo = req.source_dialect == Dialect::OpenAI;
            let policy = req.unsupported_content_policy;
            let r = openai::request_body(req, model, q);
            &&& r is Ok <==> forall|k: int|
                0 <= k < req.messages.len() ==> openai::message_out(
                    Seq::empty(),
                    #[trigger] req.messages[k],
                    echo,
                    policy,
                ) is Ok
            &&& r is Ok ==> r->Ok_0.at("messages"@) == Some(
                Tree::Arr(
                    (if req.system.len() > 0 {
                        seq![
                            Tree::Obj(
                                seq![
                                    ("role"@, Tree::Str(if q.system_as_developer { "developer"@ } else { "system"@ })),
                                    (
                                        "content"@,
                                        Tree::Str(text::joined(req.system.map_values(prompt_texts()), "

"@)),
                                    ),
                                ],
                            ),
                        ]
                    } else {
                        Seq::empty()
                    }) + req.messages.flat_map(turn_sent(echo, policy)),
                ),
            )
        }),
{
    let echo = req.source_dialect == Dialect::OpenAI;
    let policy = req.unsupported_content_policy;
    let out = openai::system_out(req.system, q);
    history_is_sent(out, req.messages, 0, echo, policy);
    assert(req.messages.skip(0) =~= req.messages);
    assert(openai::system_texts(req.system) =~= req.system.map_values(prompt_texts()));
    let role = if q.system_as_developer { "developer"@ } else { "system"@ };
    let words = text::joined(req.system.map_values(prompt_texts()), "

"@);
    let m = json::fs().with("role"@, json::st(role)).with("content"@, json::st(words));
    assert(m =~= seq![("role"@, Tree::Str(role)), ("content"@, Tree::Str(words))]);
    if req.system.len() > 0 {
        assert(out =~= seq![Tree::Obj(m)]);
    }
    openai_fields_are_sent(req, model, q, "messages"@);
}

// -------------------------------------------------------------------- fields

proof fn field_names()
    ensures
        "model"@.len() == 5 && "model"@[0] == 'm',
        "messages"@.len() == 8,
        "max_tokens"@.len() == 10,
        "max_completion_tokens"@.len() == 21,
        "temperature"@.len() == 11 && "temperature"@[1] == 'e',
        "top_p"@.len() == 5 && "top_p"@[0] == 't' && "top_p"@[2] == 'p',
        "stop"@.len() == 4 && "stop"@[0] == 's',
        "stream"@.len() == 6,
        "stream_options"@.len() == 14,
        "tools"@.len() == 5 && "tools"@[0] == 't' && "tools"@[2] == 'o',
        "tool_choice"@.len() == 11 && "tool_choice"@[1] == 'o',
        "reasoning_effort"@.len() == 16,
        "user"@.len() == 4 && "user"@[0] == 'u',
{
    reveal_strlit("model");
    reveal_strlit("messages");
    reveal_strlit("max_tokens");
    reveal_strlit("max_completion_tokens");
    reveal_strlit("temperature");
    reveal_strlit("top_p");
    reveal_strlit("stop");
    reveal_strlit("stream");
    reveal_strlit("stream_options");
    reveal_strlit("tools");
    reveal_strlit("tool_choice");
    reveal_strlit("reasoning_effort");
    reveal_strlit("user");
}

/// A field that fills in only where it is not there.
pub(crate) proof fn filling_shows(m: Seq<(Seq<char>, Tree)>, more: Seq<(Seq<char>, Tree)>, i: int, k: Seq<char>)
    requires
        0 <= i <= more.len(),
    ensures
        json::field(openai::filled(m, more, i), k) == if json::field(m, k) is Some {
            json::field(m, k)
        } else {
            json::field(more.skip(i), k)
        },
    decreases more.len() - i,
{
    let rest = more.skip(i);
    if i < more.len() {
        let next = json::put_new(m, more[i].0, more[i].1);
        json::new_shows(m, more[i].0, more[i].1, k);
        filling_shows(next, more, i + 1, k);
        first_or_rest(rest, k);
        assert(rest.skip(1) =~= more.skip(i + 1));
        assert(rest[0] == more[i]);
    } else {
        assert(rest =~= Seq::empty());
    }
}

proof fn first_or_rest(m: Seq<(Seq<char>, Tree)>, k: Seq<char>)
    requires
        m.len() > 0,
    ensures
        json::field(m, k) == if m[0].0 == k {
            Some(m[0].1)
        } else {
            json::field(m.skip(1), k)
        },
{
    json::find_from_bounds(m, k, 0);
    json::find_from_bounds(m.skip(1), k, 0);
    if m[0].0 != k {
        shifted(m, k, 1);
        let j = json::find_from(m.skip(1), k, 0);
        if j < m.len() - 1 {
            assert(m.skip(1)[j] == m[j + 1]);
        }
    }
}

proof fn shifted(m: Seq<(Seq<char>, Tree)>, k: Seq<char>, i: int)
    requires
        1 <= i <= m.len(),
    ensures
        json::find_from(m, k, i) == json::find_from(m.skip(1), k, i - 1) + 1,
    decreases m.len() - i,
{
    if i < m.len() {
        assert(m.skip(1)[i - 1] == m[i]);
        if m[i].0 != k {
            shifted(m, k, i + 1);
        }
    }
}

/// A tool as it is sent.
pub open spec fn tool_sent() -> spec_fn(ToolV) -> Tree {
    |t: ToolV|
        Tree::Obj(
            seq![
                ("type"@, Tree::Str("function"@)),
                (
                    "function"@,
                    Tree::Obj(
                        seq![
                            ("name"@, Tree::Str(t.name)),
                            ("description"@, Tree::Str(if t.description is Some { t.description->0 } else { Seq::empty() })),
                            ("parameters"@, t.input_schema),
                        ],
                    ),
                ),
            ],
        )
}

/// A tool choice as it is sent.
pub open spec fn choice_sent(c: ChoiceV) -> Tree {
    match c {
        ChoiceV::Specific { name } => Tree::Obj(
            seq![("type"@, Tree::Str("function"@)), ("function"@, Tree::Obj(seq![("name"@, Tree::Str(name))]))],
        ),
        ChoiceV::Any => Tree::Str("required"@),
        ChoiceV::NoTool => Tree::Str("none"@),
        ChoiceV::Auto => Tree::Str("auto"@),
    }
}

/// How hard a budget lets a model think.
pub open spec fn effort_sent(t: ThinkingConfig) -> Seq<char> {
    if !t.enabled {
        "none"@
    } else if t.budget_tokens is None || 1024 < t.budget_tokens->0 < 16384 {
        "medium"@
    } else if t.budget_tokens->0 <= 1024 {
        "low"@
    } else {
        "high"@
    }
}

/// How hard a model is asked to think is what its budget lets it.
pub proof fn efforts_are_sent(t: ThinkingConfig)
    ensures
        openai::effort_out(t) == effort_sent(t),
{
}

proof fn tools_are_sent(ts: Seq<ToolV>, c: ChoiceV, t: ThinkingConfig)
    ensures
        openai::tools_out(ts) == Tree::Arr(ts.map_values(tool_sent())),
        openai::choice_out(c) == choice_sent(c),
        openai::effort_out(t) == effort_sent(t),
{
    assert forall|i: int| 0 <= i < ts.len() implies #[trigger] openai::tool_out(ts[i]) == tool_sent()(ts[i]) by {
        let x = ts[i];
        let words = if x.description is Some {
            x.description->0
        } else {
            Seq::empty()
        };
        let inner = json::fs().with("name"@, json::st(x.name)).with("description"@, json::st(words)).with(
            "parameters"@,
            x.input_schema,
        );
        assert(inner =~= seq![
            ("name"@, Tree::Str(x.name)),
            ("description"@, Tree::Str(words)),
            ("parameters"@, x.input_schema),
        ]);
        assert(json::fs().with("type"@, json::st("function"@)).with("function"@, Tree::Obj(inner))
            =~= tool_sent()(x)->Obj_0);
    }
    assert(openai::tools_out(ts)->Arr_0 =~= ts.map_values(tool_sent()));
    if let ChoiceV::Specific { name } = c {
        let inner = json::fs().with("name"@, json::st(name));
        assert(inner =~= seq![("name"@, Tree::Str(name))]);
        assert(json::fs().with("type"@, json::st("function"@)).with("function"@, Tree::Obj(inner))
            =~= choice_sent(c)->Obj_0);
    }
}

/// The value, where it is sent.
pub open spec fn when(c: bool, t: Tree) -> Option<Tree> {
    if c {
        Some(t)
    } else {
        None
    }
}

pub open spec fn stop_sent() -> spec_fn(Seq<char>) -> Tree {
    |s: Seq<char>| Tree::Str(s)
}

/// What a request itself says under that name; the messages aside.
pub open spec fn own_field(req: RequestV, model: Seq<char>, q: ProviderQuirks, k: Seq<char>) -> Option<Tree> {
    if k == "model"@ {
        Some(Tree::Str(model))
    } else if k == "max_tokens"@ {
        when(req.max_tokens is Some && !q.use_max_completion_tokens, json::num(req.max_tokens->0 as int))
    } else if k == "max_completion_tokens"@ {
        when(req.max_tokens is Some && q.use_max_completion_tokens, json::num(req.max_tokens->0 as int))
    } else if k == "temperature"@ {
        when(req.temperature is Some && !q.drop_temperature, Tree::Float(req.temperature->0))
    } else if k == "top_p"@ {
        when(req.top_p is Some && !q.drop_top_p, Tree::Float(req.top_p->0))
    } else if k == "stop"@ {
        when(
            req.stop_sequences.len() > 0 && !q.drop_stop,
            Tree::Arr(req.stop_sequences.map_values(stop_sent())),
        )
    } else if k == "stream"@ {
        when(req.stream, Tree::Bool(true))
    } else if k == "stream_options"@ {
        when(req.stream && q.stream_usage, Tree::Obj(seq![("include_usage"@, Tree::Bool(true))]))
    } else if k == "tools"@ {
        when(req.tools.len() > 0, Tree::Arr(req.tools.map_values(tool_sent())))
    } else if k == "tool_choice"@ {
        when(req.tool_choice is Some, choice_sent(req.tool_choice->0))
    } else if k == "reasoning_effort"@ {
        when(req.thinking is Some && q.send_reasoning_effort, Tree::Str(effort_sent(req.thinking->0)))
    } else if k == "user"@ {
        when(req.metadata_user is Some, Tree::Str(req.metadata_user->0))
    } else {
        None
    }
}

/// The fields as they are set, one after the other.
spec fn own_fields(req: RequestV, model: Seq<char>, q: ProviderQuirks, messages: Seq<Tree>) -> Seq<(Seq<char>, Tree)> {
    let b = json::fs().set("model"@, Tree::Str(model)).set("messages"@, Tree::Arr(messages));
    let b = round_trips::with_some(b, "max_tokens"@, own_field(req, model, q, "max_tokens"@));
    let b = round_trips::with_some(b, "max_completion_tokens"@, own_field(req, model, q, "max_completion_tokens"@));
    let b = round_trips::with_some(b, "temperature"@, own_field(req, model, q, "temperature"@));
    let b = round_trips::with_some(b, "top_p"@, own_field(req, model, q, "top_p"@));
    let b = round_trips::with_some(b, "stop"@, own_field(req, model, q, "stop"@));
    let b = round_trips::with_some(b, "stream"@, own_field(req, model, q, "stream"@));
    let b = round_trips::with_some(b, "stream_options"@, own_field(req, model, q, "stream_options"@));
    let b = round_trips::with_some(b, "tools"@, own_field(req, model, q, "tools"@));
    let b = round_trips::with_some(b, "tool_choice"@, own_field(req, model, q, "tool_choice"@));
    let b = round_trips::with_some(b, "reasoning_effort"@, own_field(req, model, q, "reasoning_effort"@));
    round_trips::with_some(b, "user"@, own_field(req, model, q, "user"@))
}

proof fn fields_are_own(req: RequestV, model: Seq<char>, q: ProviderQuirks, messages: Seq<Tree>)
    requires
        req.source_dialect != Dialect::OpenAI,
    ensures
        openai::request_fields(req, model, q, messages) == own_fields(req, model, q, messages),
{
    field_names();
    reveal(round_trips::with_some);
    tools_are_sent(
        req.tools,
        if req.tool_choice is Some { req.tool_choice->0 } else { ChoiceV::Auto },
        if req.thinking is Some {
            req.thinking->0
        } else {
            ThinkingConfig { enabled: false, budget_tokens: None }
        },
    );
    assert(json::text_list(req.stop_sequences)->Arr_0 =~= req.stop_sequences.map_values(stop_sent()));
    assert(json::fs().with("include_usage"@, Tree::Bool(true)) =~= seq![("include_usage"@, Tree::Bool(true))]);
    let b0 = json::fs().set("model"@, json::st(model)).set("messages"@, Tree::Arr(messages));
    let b1 = match req.max_tokens {
        Some(n) => b0.set(
            if q.use_max_completion_tokens { "max_completion_tokens"@ } else { "max_tokens"@ },
            json::num(n as int),
        ),
        None => b0,
    };
    let c1 = round_trips::with_some(b0, "max_tokens"@, own_field(req, model, q, "max_tokens"@));
    assert(b1 == round_trips::with_some(c1, "max_completion_tokens"@, own_field(req, model, q, "max_completion_tokens"@)));
    let b2 = match req.temperature {
        Some(t) => if q.drop_temperature { b1 } else { b1.set("temperature"@, Tree::Float(t)) },
        None => b1,
    };
    assert(b2 == round_trips::with_some(b1, "temperature"@, own_field(req, model, q, "temperature"@)));
    let b3 = match req.top_p {
        Some(p) => if q.drop_top_p { b2 } else { b2.set("top_p"@, Tree::Float(p)) },
        None => b2,
    };
    assert(b3 == round_trips::with_some(b2, "top_p"@, own_field(req, model, q, "top_p"@)));
    let b4 = if req.stop_sequences.len() > 0 && !q.drop_stop {
        b3.set("stop"@, json::text_list(req.stop_sequences))
    } else {
        b3
    };
    assert(b4 == round_trips::with_some(b3, "stop"@, own_field(req, model, q, "stop"@)));
    let b5 = if req.stream {
        let b = b4.set("stream"@, Tree::Bool(true));
        if q.stream_usage {
            b.set("stream_options"@, Tree::Obj(json::fs().with("include_usage"@, Tree::Bool(true))))
        } else {
            b
        }
    } else {
        b4
    };
    let c5 = round_trips::with_some(b4, "stream"@, own_field(req, model, q, "stream"@));
    assert(b5 == round_trips::with_some(c5, "stream_options"@, own_field(req, model, q, "stream_options"@)));
    let b6 = if req.tools.len() > 0 { b5.set("tools"@, openai::tools_out(req.tools)) } else { b5 };
    assert(b6 == round_trips::with_some(b5, "tools"@, own_field(req, model, q, "tools"@)));
    let b7 = match req.tool_choice {
        Some(c) => b6.set("tool_choice"@, openai::choice_out(c)),
        None => b6,
    };
    assert(b7 == round_trips::with_some(b6, "tool_choice"@, own_field(req, model, q, "tool_choice"@)));
    let b8 = match req.thinking {
        Some(t) => if q.send_reasoning_effort {
            b7.set("reasoning_effort"@, json::st(openai::effort_out(t)))
        } else {
            b7
        },
        None => b7,
    };
    assert(b8 == round_trips::with_some(b7, "reasoning_effort"@, own_field(req, model, q, "reasoning_effort"@)));
}

/// Every setting of a request is sent under its name, unless the provider's quirks say
/// not to; and what a request of the same dialect left as it was fills the rest.
pub proof fn openai_fields_are_sent(req: RequestV, model: Seq<char>, q: ProviderQuirks, k: Seq<char>)
    ensures
        openai::request_body(req, model, q) matches Ok(b) ==> {
            let own = own_field(req, model, q, k);
            let messages = openai::messages_out(
                openai::system_out(req.system, q),
                req.messages,
                0,
                req.source_dialect == Dialect::OpenAI,
                req.unsupported_content_policy,
            );
            &&& k == "messages"@ ==> b.at(k) == Some(Tree::Arr(messages->Ok_0))
            &&& k != "messages"@ ==> b.at(k) == if own is Some {
                own
            } else if req.source_dialect == Dialect::OpenAI {
                json::field(req.passthrough, k)
            } else {
                None
            }
        },
{
    if let Ok(b) = openai::request_body(req, model, q) {
        field_names();
        let messages = openai::messages_out(
            openai::system_out(req.system, q),
            req.messages,
            0,
            req.source_dialect == Dialect::OpenAI,
            req.unsupported_content_policy,
        )->Ok_0;
        let foreign = RequestV { source_dialect: Dialect::Anthropic, ..req };
        let m = openai::request_fields(foreign, model, q, messages);
        fields_are_own(foreign, model, q, messages);
        own_fields_show(foreign, model, q, messages, k);
        if req.source_dialect == Dialect::OpenAI {
            filling_shows(m, req.passthrough, 0, k);
            assert(req.passthrough.skip(0) =~= req.passthrough);
            assert(b->Obj_0 == openai::filled(m, req.passthrough, 0));
        } else {
            fields_are_own(req, model, q, messages);
            own_fields_show(req, model, q, messages, k);
        }
    }
}

proof fn own_fields_show(req: RequestV, model: Seq<char>, q: ProviderQuirks, messages: Seq<Tree>, k: Seq<char>)
    ensures
        json::field(own_fields(req, model, q, messages), k) == if k == "messages"@ {
            Some(Tree::Arr(messages))
        } else {
            own_field(req, model, q, k)
        },
{
    broadcast use crate::protocol::round_trips::some_shows;

    field_names();
    assert(json::field(json::fs(), k) is None);
}

/// Texts are joined with the separator between each two, and nowhere else.
pub proof fn joining_separates(parts: Seq<Seq<char>>, last: Seq<char>, sep: Seq<char>)
    ensures
        text::joined(Seq::empty(), sep) == Seq::<char>::empty(),
        text::joined(seq![last], sep) == last,
        parts.len() > 0 ==> text::joined(parts.push(last), sep) == text::joined(parts, sep) + sep + last,
{
    assert(parts.push(last).drop_last() =~= parts);
}

/// A block that a dialect cannot carry is left out, named, or refused by its name, as the
/// policy says; and every kind of block has a name of its own.
pub proof fn policies_hold(b: BlockV)
    ensures
        protocol::stand_in_text(UnsupportedContentPolicy::Drop, b) == Ok::<Option<Seq<char>>, ErrorV>(None),
        protocol::stand_in_text(UnsupportedContentPolicy::Placeholder, b) == Ok::<Option<Seq<char>>, ErrorV>(
            Some("["@ + protocol::block_kind(b) + "]"@),
        ),
        protocol::stand_in_text(UnsupportedContentPolicy::Reject, b) == Err::<Option<Seq<char>>, ErrorV>(
            ErrorV::InvalidRequest("the target model cannot take this content: "@ + protocol::block_kind(b)),
        ),
        b is Audio ==> protocol::block_kind(b) == "audio"@,
        b is Video ==> protocol::block_kind(b) == "video"@,
        b is File ==> protocol::block_kind(b) == "file"@,
        b is Image ==> protocol::block_kind(b) == "image"@,
        b is Document ==> protocol::block_kind(b) == "document"@,
        b is Citation ==> protocol::block_kind(b) == "citation"@,
        b is Annotation ==> protocol::block_kind(b) == "annotation"@,
{
}

} // verus!
