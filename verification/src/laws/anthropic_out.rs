//! What is written of a request and of an answer for Anthropic.

use vstd::prelude::*;

use crate::error::ErrorV;
use crate::ir::{BlockV, ChoiceV, Dialect, MessageV, PartV, RequestV, ResponseV, Role, SourceV, StopReason, SystemV};
use crate::ir::{ToolV, UnsupportedContentPolicy};
use crate::json;
use crate::json::{Build, Lookup, Tree};
use crate::laws;
use crate::laws::openai_out;
use crate::protocol;
use crate::protocol::anthropic;
use crate::protocol::openai;
use crate::protocol::round_trips;

verus! {

// -------------------------------------------------------------------- blocks

/// A picture as data goes with its kind; one that is somewhere goes by where it is.
pub open spec fn source_sent(s: SourceV) -> Tree {
    match s {
        SourceV::Base64 { media_type, data } => Tree::Obj(
            seq![
                ("type"@, Tree::Str("base64"@)),
                ("media_type"@, Tree::Str(media_type)),
                ("data"@, Tree::Str(data)),
            ],
        ),
        SourceV::Url { url } => Tree::Obj(seq![("type"@, Tree::Str("url"@)), ("url"@, Tree::Str(url))]),
        SourceV::Reference { id } => Tree::Obj(seq![("type"@, Tree::Str("url"@)), ("url"@, Tree::Str(id))]),
    }
}

proof fn sources_are_sent(s: SourceV)
    ensures
        anthropic::source_out(s) == source_sent(s),
{
    assert(anthropic::source_out(s)->Obj_0 =~= source_sent(s)->Obj_0);
}

pub open spec fn part_sent() -> spec_fn(PartV) -> Tree {
    |p: PartV|
        match p {
            PartV::Text { text } => Tree::Obj(seq![("type"@, Tree::Str("text"@)), ("text"@, Tree::Str(text))]),
            PartV::Image { source } => Tree::Obj(
                seq![("type"@, Tree::Str("image"@)), ("source"@, source_sent(source))],
            ),
        }
}

proof fn parts_are_sent(ps: Seq<PartV>)
    ensures
        anthropic::parts_out(ps) == Tree::Arr(ps.map_values(part_sent())),
{
    assert forall|i: int| 0 <= i < ps.len() implies anthropic::part_out(#[trigger] ps[i]) == part_sent()(ps[i]) by {
        match ps[i] {
            PartV::Text { text } => {
                assert(anthropic::part_out(ps[i])->Obj_0 =~= part_sent()(ps[i])->Obj_0);
            },
            PartV::Image { source } => {
                sources_are_sent(source);
                assert(anthropic::part_out(ps[i])->Obj_0 =~= part_sent()(ps[i])->Obj_0);
            },
        }
    }
    assert(anthropic::parts_out(ps)->Arr_0 =~= ps.map_values(part_sent()));
}

/// A block as it is written: each kind with all it carries.
pub open spec fn block_sent(b: BlockV) -> Tree {
    match b {
        BlockV::Text { text, cache_control: None } => Tree::Obj(
            seq![("type"@, Tree::Str("text"@)), ("text"@, Tree::Str(text))],
        ),
        BlockV::Text { text, cache_control: Some(c) } => Tree::Obj(
            seq![("type"@, Tree::Str("text"@)), ("text"@, Tree::Str(text)), ("cache_control"@, c)],
        ),
        BlockV::Thinking { text, signature } => Tree::Obj(
            seq![
                ("type"@, Tree::Str("thinking"@)),
                ("thinking"@, Tree::Str(text)),
                ("signature"@, Tree::Str(if signature is Some { signature->0 } else { Seq::empty() })),
            ],
        ),
        BlockV::RedactedThinking { data } => Tree::Obj(
            seq![("type"@, Tree::Str("redacted_thinking"@)), ("data"@, Tree::Str(data))],
        ),
        BlockV::Image { source } => Tree::Obj(
            seq![("type"@, Tree::Str("image"@)), ("source"@, source_sent(source))],
        ),
        BlockV::Document { source } => Tree::Obj(
            seq![("type"@, Tree::Str("document"@)), ("source"@, source_sent(source))],
        ),
        BlockV::ToolUse { id, name, input } => Tree::Obj(
            seq![
                ("type"@, Tree::Str("tool_use"@)),
                ("id"@, Tree::Str(id)),
                ("name"@, Tree::Str(name)),
                ("input"@, input),
            ],
        ),
        BlockV::ToolResult { tool_use_id, content, is_error, .. } => Tree::Obj(
            seq![
                ("type"@, Tree::Str("tool_result"@)),
                ("tool_use_id"@, Tree::Str(tool_use_id)),
                ("content"@, Tree::Arr(content.map_values(part_sent()))),
                ("is_error"@, Tree::Bool(is_error)),
            ],
        ),
        _ => Tree::Null,
    }
}

/// Whether Anthropic has no block of that kind.
pub open spec fn is_foreign(b: BlockV) -> bool {
    b is File || b is Audio || b is Video || b is Citation || b is Annotation
}

/// Every kind of block that Anthropic has is written with all that it carries.
pub proof fn blocks_are_sent(b: BlockV)
    ensures
        anthropic::block_out(b) == block_sent(b),
{
    reveal_strlit("type");
    reveal_strlit("text");
    reveal_strlit("cache_control");
    reveal_strlit("thinking");
    reveal_strlit("signature");
    assert("type"@.len() == 4 && "text"@.len() == 4 && "cache_control"@.len() == 13 && "thinking"@.len() == 8
        && "signature"@.len() == 9 && "type"@[1] == 'y' && "text"@[1] == 'e');
    reveal(json::put);
    reveal_with_fuel(json::find_from, 4);
    match b {
        BlockV::Image { source } => sources_are_sent(source),
        BlockV::Document { source } => sources_are_sent(source),
        BlockV::ToolResult { content, .. } => parts_are_sent(content),
        _ => {},
    }
    if !is_foreign(b) {
        assert(anthropic::block_out(b)->Obj_0 =~= block_sent(b)->Obj_0);
    }
}

/// What a message's block is sent as: itself, or for a foreign one what stands for it.
pub open spec fn sent(policy: UnsupportedContentPolicy) -> spec_fn(BlockV) -> Option<Tree> {
    |b: BlockV|
        if !is_foreign(b) {
            Some(block_sent(b))
        } else if policy == UnsupportedContentPolicy::Placeholder {
            Some(
                Tree::Obj(
                    seq![
                        ("type"@, Tree::Str("text"@)),
                        ("text"@, Tree::Str("["@ + protocol::block_kind(b) + "]"@)),
                    ],
                ),
            )
        } else {
            None
        }
}

proof fn blocks_are_kept(bs: Seq<BlockV>, policy: UnsupportedContentPolicy, i: int)
    requires
        0 <= i <= bs.len(),
        policy == UnsupportedContentPolicy::Reject ==> forall|j: int| 0 <= j < i ==> !is_foreign(#[trigger] bs[j]),
    ensures
        anthropic::blocks_out(bs, policy, 0, Seq::empty()) == anthropic::blocks_out(
            bs,
            policy,
            i,
            bs.take(i).filter_map(sent(policy)),
        ),
    decreases i,
{
    if i > 0 {
        blocks_are_kept(bs, policy, i - 1);
        laws::keeping_takes(bs, i - 1, sent(policy));
        let b = bs[i - 1];
        blocks_are_sent(b);
        openai_out::policies_hold(b);
        if is_foreign(b) {
            if let Ok(Some(t)) = protocol::stand_in(policy, b) {
                blocks_are_sent(t);
            }
        }
    } else {
        assert(bs.take(0).filter_map(sent(policy)) =~= Seq::empty());
    }
}

/// Every block of a message is sent in its place. What Anthropic has no block for is
/// left out, named, or has the request refused, as the policy says.
pub proof fn messages_are_sent_whole(m: MessageV, policy: UnsupportedContentPolicy)
    ensures
        policy != UnsupportedContentPolicy::Reject || (forall|j: int|
            0 <= j < m.content.len() ==> !is_foreign(#[trigger] m.content[j])) ==> anthropic::message_out(m, policy)
            == Ok::<Tree, ErrorV>(
            Tree::Obj(
                seq![
                    (
                        "role"@,
                        Tree::Str(
                            if m.role == Role::User {
                                "user"@
                            } else {
                                "assistant"@
                            },
                        ),
                    ),
                    ("content"@, Tree::Arr(m.content.filter_map(sent(policy)))),
                ],
            ),
        ),
        forall|k: int|
            policy == UnsupportedContentPolicy::Reject && 0 <= k < m.content.len() && is_foreign(
                #[trigger] m.content[k],
            ) ==> anthropic::message_out(m, policy) is Err,
{
    let bs = m.content;
    let n = bs.len() as int;
    if policy != UnsupportedContentPolicy::Reject || (forall|j: int|
        0 <= j < bs.len() ==> !is_foreign(#[trigger] bs[j])) {
        blocks_are_kept(bs, policy, n);
        assert(bs.take(n) =~= bs);
        let want = seq![
            (
                "role"@,
                Tree::Str(
                    if m.role == Role::User {
                        "user"@
                    } else {
                        "assistant"@
                    },
                ),
            ),
            ("content"@, Tree::Arr(bs.filter_map(sent(policy)))),
        ];
        assert(anthropic::message_out(m, policy)->Ok_0->Obj_0 =~= want);
    }
    assert forall|k: int|
        policy == UnsupportedContentPolicy::Reject && 0 <= k < bs.len() && is_foreign(
            #[trigger] bs[k],
        ) implies anthropic::message_out(m, policy) is Err by {
        let f = first_foreign(bs, 0, k);
        blocks_are_kept(bs, policy, f);
        openai_out::policies_hold(bs[f]);
    }
}

proof fn first_foreign(bs: Seq<BlockV>, i: int, k: int) -> (f: int)
    requires
        0 <= i <= k < bs.len(),
        is_foreign(bs[k]),
        forall|j: int| 0 <= j < i ==> !is_foreign(#[trigger] bs[j]),
    ensures
        i <= f <= k,
        is_foreign(bs[f]),
        forall|j: int| 0 <= j < f ==> !is_foreign(#[trigger] bs[j]),
    decreases k - i,
{
    if is_foreign(bs[i]) {
        i
    } else {
        first_foreign(bs, i + 1, k)
    }
}

proof fn messages_stay(ms: Seq<MessageV>, policy: UnsupportedContentPolicy, i: int, acc: Seq<Tree>)
    requires
        0 <= i <= ms.len(),
        acc.len() == i,
        forall|j: int| 0 <= j < i ==> Ok::<Tree, ErrorV>(acc[j]) == anthropic::message_out(#[trigger] ms[j], policy),
    ensures
        match anthropic::messages_out(ms, policy, i, acc) {
            Ok(out) => out.len() == ms.len() && forall|j: int|
                0 <= j < ms.len() ==> Ok::<Tree, ErrorV>(out[j]) == anthropic::message_out(#[trigger] ms[j], policy),
            Err(e) => exists|k: int|
                0 <= k < ms.len() && anthropic::message_out(#[trigger] ms[k], policy) == Err::<Tree, ErrorV>(e),
        },
    decreases ms.len() - i,
{
    if i < ms.len() {
        match anthropic::message_out(ms[i], policy) {
            Ok(m) => {
                messages_stay(ms, policy, i + 1, acc.push(m));
            },
            Err(e) => {
                assert(anthropic::message_out(ms[i], policy) == Err::<Tree, ErrorV>(e));
            },
        }
    }
}

/// The `k`th message that is sent is the `k`th message of the request.
pub proof fn conversations_are_sent_whole(ms: Seq<MessageV>, policy: UnsupportedContentPolicy)
    ensures
        match anthropic::messages_out(ms, policy, 0, Seq::empty()) {
            Ok(out) => out.len() == ms.len() && forall|j: int|
                0 <= j < ms.len() ==> Ok::<Tree, ErrorV>(out[j]) == anthropic::message_out(#[trigger] ms[j], policy),
            Err(e) => exists|k: int|
                0 <= k < ms.len() && anthropic::message_out(#[trigger] ms[k], policy) == Err::<Tree, ErrorV>(e),
        },
{
    messages_stay(ms, policy, 0, Seq::empty());
}

// ------------------------------------------------------------------- answers

/// Why an answer stopped is told by its name.
pub proof fn reasons_are_told()
    ensures
        anthropic::stop_reason_text(StopReason::EndTurn) == Some("end_turn"@),
        anthropic::stop_reason_text(StopReason::MaxTokens) == Some("max_tokens"@),
        anthropic::stop_reason_text(StopReason::StopSequence) == Some("stop_sequence"@),
        anthropic::stop_reason_text(StopReason::ToolUse) == Some("tool_use"@),
        anthropic::stop_reason_text(StopReason::Refusal) == Some("refusal"@),
        anthropic::stop_reason_text(StopReason::Unknown) is None,
{
}

/// An answer is told whole: who gave it, each of its blocks in order, why it stopped
/// and what it cost.
pub proof fn answers_are_told_whole(r: ResponseV)
    ensures
        anthropic::response_body(r) == Tree::Obj(
            seq![
                ("id"@, Tree::Str(r.id)),
                ("type"@, Tree::Str("message"@)),
                ("role"@, Tree::Str("assistant"@)),
                ("model"@, Tree::Str(r.model)),
                ("content"@, Tree::Arr(r.content.map_values(|b: BlockV| block_sent(b)))),
                (
                    "stop_reason"@,
                    match anthropic::stop_reason_text(r.stop_reason) {
                        Some(s) => Tree::Str(s),
                        None => Tree::Null,
                    },
                ),
                (
                    "stop_sequence"@,
                    match r.stop_sequence {
                        Some(s) => Tree::Str(s),
                        None => Tree::Null,
                    },
                ),
                (
                    "usage"@,
                    Tree::Obj(
                        seq![
                            ("input_tokens"@, json::num(r.usage.input_tokens as int)),
                            ("output_tokens"@, json::num(r.usage.output_tokens as int)),
                            ("cache_read_input_tokens"@, json::num(r.usage.cache_read_tokens as int)),
                            ("cache_creation_input_tokens"@, json::num(r.usage.cache_write_tokens as int)),
                        ],
                    ),
                ),
            ],
        ),
{
    let blocks = r.content.map_values(|b: BlockV| block_sent(b));
    assert forall|i: int| 0 <= i < r.content.len() implies anthropic::block_out(#[trigger] r.content[i])
        == block_sent(r.content[i]) by {
        blocks_are_sent(r.content[i]);
    }
    assert(anthropic::content_out(r.content)->Arr_0 =~= blocks);
    let usage = seq![
        ("input_tokens"@, json::num(r.usage.input_tokens as int)),
        ("output_tokens"@, json::num(r.usage.output_tokens as int)),
        ("cache_read_input_tokens"@, json::num(r.usage.cache_read_tokens as int)),
        ("cache_creation_input_tokens"@, json::num(r.usage.cache_write_tokens as int)),
    ];
    assert(anthropic::usage_out(r.usage)->Obj_0 =~= usage);
    assert(anthropic::response_body(r)->Obj_0 =~= seq![
        ("id"@, Tree::Str(r.id)),
        ("type"@, Tree::Str("message"@)),
        ("role"@, Tree::Str("assistant"@)),
        ("model"@, Tree::Str(r.model)),
        ("content"@, Tree::Arr(blocks)),
        (
            "stop_reason"@,
            match anthropic::stop_reason_text(r.stop_reason) {
                Some(s) => Tree::Str(s),
                None => Tree::Null,
            },
        ),
        (
            "stop_sequence"@,
            match r.stop_sequence {
                Some(s) => Tree::Str(s),
                None => Tree::Null,
            },
        ),
        ("usage"@, Tree::Obj(usage)),
    ]);
}

// -------------------------------------------------------------------- fields

pub open spec fn tool_sent() -> spec_fn(ToolV) -> Tree {
    |t: ToolV|
        Tree::Obj(
            seq![("name"@, Tree::Str(t.name))] + (match t.description {
                Some(d) => seq![("description"@, Tree::Str(d))],
                None => Seq::empty(),
            }) + seq![("input_schema"@, t.input_schema)] + (match t.cache_control {
                Some(c) => seq![("cache_control"@, c)],
                None => Seq::empty(),
            }),
        )
}

pub open spec fn choice_sent(c: ChoiceV) -> Tree {
    match c {
        ChoiceV::Auto => Tree::Obj(seq![("type"@, Tree::Str("auto"@))]),
        ChoiceV::Any => Tree::Obj(seq![("type"@, Tree::Str("any"@))]),
        ChoiceV::NoTool => Tree::Obj(seq![("type"@, Tree::Str("none"@))]),
        ChoiceV::Specific { name } => Tree::Obj(seq![("type"@, Tree::Str("tool"@)), ("name"@, Tree::Str(name))]),
    }
}

/// What a request itself says under that name; the messages aside. A request without a
/// limit gets one, and so does thinking without a budget.
pub open spec fn own_field(req: RequestV, model: Seq<char>, k: Seq<char>) -> Option<Tree> {
    if k == "model"@ {
        Some(Tree::Str(model))
    } else if k == "max_tokens"@ {
        Some(json::num(if req.max_tokens is Some { req.max_tokens->0 as int } else { 4096 }))
    } else if k == "system"@ {
        openai_out::when(
            req.system.len() > 0,
            Tree::Arr(
                req.system.map_values(
                    |p: SystemV| block_sent(BlockV::Text { text: p.text, cache_control: p.cache_control }),
                ),
            ),
        )
    } else if k == "temperature"@ {
        openai_out::when(req.temperature is Some, Tree::Float(req.temperature->0))
    } else if k == "top_p"@ {
        openai_out::when(req.top_p is Some, Tree::Float(req.top_p->0))
    } else if k == "top_k"@ {
        openai_out::when(req.top_k is Some, json::num(req.top_k->0 as int))
    } else if k == "stop_sequences"@ {
        openai_out::when(
            req.stop_sequences.len() > 0,
            Tree::Arr(req.stop_sequences.map_values(openai_out::stop_sent())),
        )
    } else if k == "stream"@ {
        openai_out::when(req.stream, Tree::Bool(true))
    } else if k == "tools"@ {
        openai_out::when(req.tools.len() > 0, Tree::Arr(req.tools.map_values(tool_sent())))
    } else if k == "tool_choice"@ {
        openai_out::when(req.tool_choice is Some, choice_sent(req.tool_choice->0))
    } else if k == "thinking"@ {
        openai_out::when(
            req.thinking is Some && req.thinking->0.enabled,
            Tree::Obj(
                seq![
                    ("type"@, Tree::Str("enabled"@)),
                    (
                        "budget_tokens"@,
                        json::num(
                            if req.thinking->0.budget_tokens is Some {
                                req.thinking->0.budget_tokens->0 as int
                            } else {
                                2048
                            },
                        ),
                    ),
                ],
            ),
        )
    } else if k == "metadata"@ {
        openai_out::when(
            req.metadata_user is Some,
            Tree::Obj(seq![("user_id"@, Tree::Str(req.metadata_user->0))]),
        )
    } else {
        None
    }
}

spec fn own_fields(req: RequestV, model: Seq<char>, messages: Seq<Tree>) -> Seq<(Seq<char>, Tree)> {
    let b = json::fs().set("model"@, json::st(model));
    let b = round_trips::with_some(b, "max_tokens"@, own_field(req, model, "max_tokens"@));
    let b = round_trips::with_some(b, "system"@, own_field(req, model, "system"@));
    let b = b.set("messages"@, Tree::Arr(messages));
    let b = round_trips::with_some(b, "temperature"@, own_field(req, model, "temperature"@));
    let b = round_trips::with_some(b, "top_p"@, own_field(req, model, "top_p"@));
    let b = round_trips::with_some(b, "top_k"@, own_field(req, model, "top_k"@));
    let b = round_trips::with_some(b, "stop_sequences"@, own_field(req, model, "stop_sequences"@));
    let b = round_trips::with_some(b, "stream"@, own_field(req, model, "stream"@));
    let b = round_trips::with_some(b, "tools"@, own_field(req, model, "tools"@));
    let b = round_trips::with_some(b, "tool_choice"@, own_field(req, model, "tool_choice"@));
    let b = round_trips::with_some(b, "thinking"@, own_field(req, model, "thinking"@));
    round_trips::with_some(b, "metadata"@, own_field(req, model, "metadata"@))
}

proof fn names_differ()
    ensures
        "model"@.len() == 5 && "model"@[0] == 'm',
        "top_p"@.len() == 5 && "top_p"@[0] == 't' && "top_p"@[4] == 'p',
        "top_k"@.len() == 5 && "top_k"@[0] == 't' && "top_k"@[4] == 'k',
        "tools"@.len() == 5 && "tools"@[0] == 't' && "tools"@[4] == 's',
        "system"@.len() == 6 && "system"@[1] == 'y',
        "stream"@.len() == 6 && "stream"@[1] == 't',
        "messages"@.len() == 8 && "messages"@[0] == 'm' && "messages"@[3] == 's',
        "thinking"@.len() == 8 && "thinking"@[0] == 't',
        "metadata"@.len() == 8 && "metadata"@[0] == 'm' && "metadata"@[3] == 'a',
        "max_tokens"@.len() == 10,
        "temperature"@.len() == 11 && "temperature"@[1] == 'e',
        "tool_choice"@.len() == 11 && "tool_choice"@[1] == 'o',
        "stop_sequences"@.len() == 14,
{
    reveal_strlit("model");
    reveal_strlit("top_p");
    reveal_strlit("top_k");
    reveal_strlit("tools");
    reveal_strlit("system");
    reveal_strlit("stream");
    reveal_strlit("messages");
    reveal_strlit("thinking");
    reveal_strlit("metadata");
    reveal_strlit("max_tokens");
    reveal_strlit("temperature");
    reveal_strlit("tool_choice");
    reveal_strlit("stop_sequences");
}

proof fn tools_are_sent(ts: Seq<ToolV>)
    ensures
        anthropic::tools_out(ts) == Tree::Arr(ts.map_values(tool_sent())),
{
    reveal_strlit("name");
    reveal_strlit("description");
    reveal_strlit("input_schema");
    reveal_strlit("cache_control");
    assert("name"@.len() == 4 && "description"@.len() == 11 && "input_schema"@.len() == 12 && "cache_control"@.len()
        == 13);
    assert forall|i: int| 0 <= i < ts.len() implies anthropic::tool_out(#[trigger] ts[i]) == tool_sent()(ts[i]) by {
        reveal(json::put);
        reveal_with_fuel(json::find_from, 5);
        assert(anthropic::tool_out(ts[i])->Obj_0 =~= tool_sent()(ts[i])->Obj_0);
    }
    assert(anthropic::tools_out(ts)->Arr_0 =~= ts.map_values(tool_sent()));
}

proof fn choices_are_sent(c: ChoiceV)
    ensures
        anthropic::choice_out(c) == choice_sent(c),
{
    assert(anthropic::choice_out(c)->Obj_0 =~= choice_sent(c)->Obj_0);
}

proof fn instructions_are_sent(s: Seq<SystemV>)
    ensures
        anthropic::system_out(s) == Tree::Arr(
            s.map_values(|p: SystemV| block_sent(BlockV::Text { text: p.text, cache_control: p.cache_control })),
        ),
{
    let f = |p: SystemV| block_sent(BlockV::Text { text: p.text, cache_control: p.cache_control });
    assert forall|i: int| 0 <= i < s.len() implies anthropic::system_out(s)->Arr_0[i] == f(#[trigger] s[i]) by {
        blocks_are_sent(BlockV::Text { text: s[i].text, cache_control: s[i].cache_control });
    }
    assert(anthropic::system_out(s)->Arr_0 =~= s.map_values(f));
}

proof fn fields_are_own(req: RequestV, model: Seq<char>, messages: Seq<Tree>)
    requires
        req.source_dialect != Dialect::Anthropic,
    ensures
        anthropic::request_fields(req, model, messages) == own_fields(req, model, messages),
{
    names_differ();
    reveal(round_trips::with_some);
    tools_are_sent(req.tools);
    instructions_are_sent(req.system);
    if let Some(c) = req.tool_choice {
        choices_are_sent(c);
    }
    assert(json::text_list(req.stop_sequences)->Arr_0 =~= req.stop_sequences.map_values(openai_out::stop_sent()));
    let b0 = json::fs().set("model"@, json::st(model)).set(
        "max_tokens"@,
        json::num(
            match req.max_tokens {
                Some(n) => n as int,
                None => 4096,
            },
        ),
    );
    assert(b0 == round_trips::with_some(
        json::fs().set("model"@, json::st(model)),
        "max_tokens"@,
        own_field(req, model, "max_tokens"@),
    ));
    let b1 = if req.system.len() > 0 { b0.set("system"@, anthropic::system_out(req.system)) } else { b0 };
    assert(b1 == round_trips::with_some(b0, "system"@, own_field(req, model, "system"@)));
    let b2 = b1.set("messages"@, Tree::Arr(messages));
    let b3 = match req.temperature {
        Some(t) => b2.set("temperature"@, Tree::Float(t)),
        None => b2,
    };
    assert(b3 == round_trips::with_some(b2, "temperature"@, own_field(req, model, "temperature"@)));
    let b4 = match req.top_p {
        Some(p) => b3.set("top_p"@, Tree::Float(p)),
        None => b3,
    };
    assert(b4 == round_trips::with_some(b3, "top_p"@, own_field(req, model, "top_p"@)));
    let b5 = match req.top_k {
        Some(k) => b4.set("top_k"@, json::num(k as int)),
        None => b4,
    };
    assert(b5 == round_trips::with_some(b4, "top_k"@, own_field(req, model, "top_k"@)));
    let b6 = if req.stop_sequences.len() > 0 {
        b5.set("stop_sequences"@, json::text_list(req.stop_sequences))
    } else {
        b5
    };
    assert(b6 == round_trips::with_some(b5, "stop_sequences"@, own_field(req, model, "stop_sequences"@)));
    let b7 = if req.stream { b6.set("stream"@, Tree::Bool(true)) } else { b6 };
    assert(b7 == round_trips::with_some(b6, "stream"@, own_field(req, model, "stream"@)));
    let b8 = if req.tools.len() > 0 { b7.set("tools"@, anthropic::tools_out(req.tools)) } else { b7 };
    assert(b8 == round_trips::with_some(b7, "tools"@, own_field(req, model, "tools"@)));
    let b9 = match req.tool_choice {
        Some(c) => b8.set("tool_choice"@, anthropic::choice_out(c)),
        None => b8,
    };
    assert(b9 == round_trips::with_some(b8, "tool_choice"@, own_field(req, model, "tool_choice"@)));
    let n = match req.thinking {
        Some(t) => match t.budget_tokens {
            Some(n) => n as int,
            None => 2048,
        },
        None => 2048,
    };
    let budget = json::fs().set("type"@, json::st("enabled"@)).set("budget_tokens"@, json::num(n));
    assert(budget =~= seq![("type"@, Tree::Str("enabled"@)), ("budget_tokens"@, json::num(n))]) by {
        reveal(json::put);
        reveal_strlit("type");
        reveal_strlit("budget_tokens");
        assert("type"@.len() == 4 && "budget_tokens"@.len() == 13);
        reveal_with_fuel(json::find_from, 3);
    }
    let b10 = match req.thinking {
        Some(t) => if t.enabled { b9.set("thinking"@, Tree::Obj(budget)) } else { b9 },
        None => b9,
    };
    assert(b10 == round_trips::with_some(b9, "thinking"@, own_field(req, model, "thinking"@)));
    let b11 = match req.metadata_user {
        Some(u) => b10.set("metadata"@, Tree::Obj(json::fs().with("user_id"@, json::st(u)))),
        None => b10,
    };
    if let Some(u) = req.metadata_user {
        assert(json::fs().with("user_id"@, json::st(u)) =~= seq![("user_id"@, Tree::Str(u))]);
    }
    assert(b11 == round_trips::with_some(b10, "metadata"@, own_field(req, model, "metadata"@)));
    assert(anthropic::request_fields(req, model, messages) == b11);
}

proof fn own_fields_show(req: RequestV, model: Seq<char>, messages: Seq<Tree>, k: Seq<char>)
    ensures
        json::field(own_fields(req, model, messages), k) == if k == "messages"@ {
            Some(Tree::Arr(messages))
        } else {
            own_field(req, model, k)
        },
{
    broadcast use crate::protocol::round_trips::some_shows;

    names_differ();
    assert(json::field(json::fs(), k) is None);
    let b = json::fs().set("model"@, json::st(model));
    json::set_is_found(json::fs(), "model"@, json::st(model), k);
    let c = round_trips::with_some(b, "max_tokens"@, own_field(req, model, "max_tokens"@));
    let d = round_trips::with_some(c, "system"@, own_field(req, model, "system"@));
    json::set_is_found(d, "messages"@, Tree::Arr(messages), k);
}

/// What a body for Anthropic says under any name: what the request itself has for it,
/// or else, for a request that came in Anthropic's own dialect, the field that was left
/// over.
pub proof fn anthropic_fields_are_sent(req: RequestV, model: Seq<char>, k: Seq<char>)
    ensures
        anthropic::request_body(req, model) matches Ok(b) ==> {
            let own = own_field(req, model, k);
            let messages = anthropic::messages_out(req.messages, req.unsupported_content_policy, 0, Seq::empty());
            &&& k == "messages"@ ==> b.at(k) == Some(Tree::Arr(messages->Ok_0))
            &&& k != "messages"@ ==> b.at(k) == if own is Some {
                own
            } else if req.source_dialect == Dialect::Anthropic {
                json::field(req.passthrough, k)
            } else {
                None
            }
        },
        anthropic::request_body(req, model) is Ok <==> anthropic::messages_out(
            req.messages,
            req.unsupported_content_policy,
            0,
            Seq::empty(),
        ) is Ok,
{
    if let Ok(b) = anthropic::request_body(req, model) {
        names_differ();
        let messages = anthropic::messages_out(req.messages, req.unsupported_content_policy, 0, Seq::empty())->Ok_0;
        let foreign = RequestV { source_dialect: Dialect::OpenAI, ..req };
        let m = anthropic::request_fields(foreign, model, messages);
        fields_are_own(foreign, model, messages);
        own_fields_show(foreign, model, messages, k);
        if req.source_dialect == Dialect::Anthropic {
            openai_out::filling_shows(m, req.passthrough, 0, k);
            assert(req.passthrough.skip(0) =~= req.passthrough);
            assert(b->Obj_0 == openai::filled(m, req.passthrough, 0));
        } else {
            fields_are_own(req, model, messages);
            own_fields_show(req, model, messages, k);
        }
    }
}

} // verus!
