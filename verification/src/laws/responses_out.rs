//! What is written of a request and of an answer in the Responses dialect.

use vstd::prelude::*;

use crate::error::ErrorV;
use crate::ir;
use crate::ir::{
    BlockV, ChoiceV, MessageV, RequestV, ResponseV, Role, SourceV, StopReason, SystemV, ToolV,
    UnsupportedContentPolicy, Usage,
};
use crate::json;
use crate::json::{Build, Lookup, Tree};
use crate::laws;
use crate::laws::openai_out;
use crate::laws::responses_in;
use crate::protocol;
use crate::protocol::openai;
use crate::protocol::reasoning_bridge;
use crate::protocol::responses;
use crate::protocol::responses::Gathered;
use crate::protocol::round_trips;
use crate::text;

verus! {

// -------------------------------------------------------------------- blocks

/// Words in a message.
pub open spec fn words_sent(t: Seq<char>) -> Tree {
    Tree::Obj(seq![("type"@, Tree::Str("input_text"@)), ("text"@, Tree::Str(t))])
}

/// A picture by its id, or by its address.
pub open spec fn picture_sent(s: SourceV) -> Tree {
    Tree::Obj(
        seq![
            ("type"@, Tree::Str("input_image"@)),
            match s {
                SourceV::Reference { id } => ("file_id"@, Tree::Str(id)),
                _ => ("image_url"@, Tree::Obj(seq![("url"@, Tree::Str(ir::url_of_source(s)))])),
            },
        ],
    )
}

/// A file by its data, its address or its id, with its name where it has one.
pub open spec fn file_sent(s: SourceV, name: Option<Seq<char>>) -> Tree {
    Tree::Obj(
        seq![
            ("type"@, Tree::Str("input_file"@)),
            match s {
                SourceV::Base64 { data, .. } => ("file_data"@, Tree::Str(data)),
                SourceV::Url { url } => ("file_url"@, Tree::Str(url)),
                SourceV::Reference { id } => ("file_id"@, Tree::Str(id)),
            },
        ] + (match name {
            Some(n) => seq![("filename"@, Tree::Str(n))],
            None => Seq::empty(),
        }),
    )
}

/// What of a block stands in the message itself: words, pictures, sounds as data and
/// files; of what the dialect cannot carry, its name where the policy asks for that.
pub open spec fn part_sent(policy: UnsupportedContentPolicy) -> spec_fn(BlockV) -> Option<Tree> {
    |b: BlockV|
        match b {
            BlockV::Text { text, .. } => Some(words_sent(text)),
            BlockV::Image { source } => Some(picture_sent(source)),
            BlockV::File { source, name, .. } => Some(file_sent(source, name)),
            BlockV::Audio { source: SourceV::Base64 { data, .. }, media_type } => Some(
                Tree::Obj(
                    seq![
                        ("type"@, Tree::Str("input_audio"@)),
                        (
                            "input_audio"@,
                            Tree::Obj(
                                seq![
                                    ("data"@, Tree::Str(data)),
                                    ("format"@, Tree::Str(protocol::audio_format(media_type))),
                                ],
                            ),
                        ),
                    ],
                ),
            ),
            _ => if is_foreign(b) && policy == UnsupportedContentPolicy::Placeholder {
                Some(words_sent("["@ + protocol::block_kind(b) + "]"@))
            } else {
                None
            },
        }
}

/// Whether the dialect has no place for a block.
pub open spec fn is_foreign(b: BlockV) -> bool {
    match b {
        BlockV::Audio { source: SourceV::Base64 { .. }, .. } => false,
        BlockV::Audio { .. } | BlockV::Document { .. } | BlockV::Video { .. } | BlockV::Citation { .. }
        | BlockV::Annotation { .. } => true,
        _ => false,
    }
}

/// A thought as an item of its own, by its first summary.
pub open spec fn summary_sent(t: Seq<char>) -> Seq<(Seq<char>, Tree)> {
    seq![
        ("type"@, Tree::Str("reasoning"@)),
        (
            "summary"@,
            Tree::Arr(seq![Tree::Obj(seq![("type"@, Tree::Str("summary_text"@)), ("text"@, Tree::Str(t))])]),
        ),
    ]
}

/// What of a block stands beside the message as an item: calls, what they returned,
/// and thoughts that this dialect can hold. A thought that somebody else has signed
/// is not passed off as an unsigned one.
pub open spec fn item_sent() -> spec_fn(BlockV) -> Option<Tree> {
    |b: BlockV|
        match b {
            BlockV::ToolUse { id, name, input } => Some(
                Tree::Obj(
                    seq![
                        ("type"@, Tree::Str("function_call"@)),
                        ("call_id"@, Tree::Str(id)),
                        ("name"@, Tree::Str(name)),
                        ("arguments"@, Tree::Str(openai::arguments_text(input))),
                    ],
                ),
            ),
            BlockV::ToolResult { tool_use_id, content, .. } => Some(
                Tree::Obj(
                    seq![
                        ("type"@, Tree::Str("function_call_output"@)),
                        ("call_id"@, Tree::Str(tool_use_id)),
                        (
                            "output"@,
                            Tree::Str(text::joined(content.map_values(openai_out::result_words()), "\n"@)),
                        ),
                    ],
                ),
            ),
            BlockV::Thinking { text, signature } => if reasoning_bridge::item_of(b) is Some {
                reasoning_bridge::item_of(b)
            } else if signature is None {
                Some(Tree::Obj(summary_sent(text)))
            } else {
                None
            },
            BlockV::RedactedThinking { .. } => reasoning_bridge::item_of(b),
            _ => None,
        }
}

proof fn summaries_are_sent(t: Seq<char>)
    ensures
        responses::summary_item(t) == summary_sent(t),
{
    let s = seq![("type"@, Tree::Str("summary_text"@)), ("text"@, Tree::Str(t))];
    assert(json::fs().with("type"@, json::st("summary_text"@)).with("text"@, json::st(t)) =~= s);
    assert(Seq::empty().push(Tree::Obj(s)) =~= seq![Tree::Obj(s)]);
    assert(responses::summary_item(t) =~= summary_sent(t));
}

proof fn one_block_more(g: Gathered, b: BlockV, policy: UnsupportedContentPolicy)
    ensures
        is_foreign(b) && policy == UnsupportedContentPolicy::Reject ==> responses::gather(g, b, policy) is Err,
        !(is_foreign(b) && policy == UnsupportedContentPolicy::Reject) ==> responses::gather(g, b, policy) == Ok::<
            Gathered,
            ErrorV,
        >(
            Gathered {
                parts: match part_sent(policy)(b) {
                    Some(t) => g.parts.push(t),
                    None => g.parts,
                },
                items: match item_sent()(b) {
                    Some(t) => g.items.push(t),
                    None => g.items,
                },
            },
        ),
{
    openai_out::policies_hold(b);
    match b {
        BlockV::Text { text, .. } => {
            assert(responses::input_text(text)->Obj_0 =~= words_sent(text)->Obj_0);
        },
        BlockV::Image { source } => {
            if !(source is Reference) {
                assert(json::fs().with("url"@, json::st(ir::url_of_source(source))) =~= seq![
                    ("url"@, Tree::Str(ir::url_of_source(source))),
                ]);
            }
            assert(responses::image_out(source)->Obj_0 =~= picture_sent(source)->Obj_0);
        },
        BlockV::File { source, name, .. } => {
            reveal_strlit("type");
            reveal_strlit("file_data");
            reveal_strlit("file_url");
            reveal_strlit("file_id");
            reveal_strlit("filename");
            assert("type"@.len() == 4 && "file_data"@.len() == 9 && "file_url"@.len() == 8 && "file_id"@.len() == 7
                && "filename"@.len() == 8 && "filename"@[4] == 'n' && "file_url"@[4] == '_');
            reveal(json::put);
            reveal_with_fuel(json::find_from, 4);
            assert(responses::file_out(source, name)->Obj_0 =~= file_sent(source, name)->Obj_0);
        },
        BlockV::ToolUse { id, name, input } => {
            let doc = json::fs().with("type"@, json::st("function_call"@)).with("call_id"@, json::st(id)).with(
                "name"@,
                json::st(name),
            ).with("arguments"@, json::st(openai::arguments_text(input)));
            assert(doc =~= item_sent()(b)->0->Obj_0);
        },
        BlockV::ToolResult { tool_use_id, content, .. } => {
            assert(openai::result_texts(content) =~= content.map_values(openai_out::result_words()));
            let doc = json::fs().with("type"@, json::st("function_call_output"@)).with(
                "call_id"@,
                json::st(tool_use_id),
            ).with("output"@, json::st(text::joined(openai::result_texts(content), "\n"@)));
            assert(doc =~= item_sent()(b)->0->Obj_0);
        },
        BlockV::Thinking { text, .. } => {
            summaries_are_sent(text);
        },
        BlockV::Audio { source: SourceV::Base64 { data, .. }, media_type } => {
            let inner = json::fs().with("data"@, json::st(data)).with(
                "format"@,
                json::st(protocol::audio_format(media_type)),
            );
            assert(inner =~= seq![
                ("data"@, Tree::Str(data)),
                ("format"@, Tree::Str(protocol::audio_format(media_type))),
            ]);
            let doc = json::fs().with("type"@, json::st("input_audio"@)).with("input_audio"@, Tree::Obj(inner));
            assert(doc =~= part_sent(policy)(b)->0->Obj_0);
        },
        _ => {
            let t = "["@ + protocol::block_kind(b) + "]"@;
            assert(responses::input_text(t)->Obj_0 =~= words_sent(t)->Obj_0);
        },
    }
}

proof fn blocks_are_gathered(bs: Seq<BlockV>, policy: UnsupportedContentPolicy, i: int)
    requires
        0 <= i <= bs.len(),
        policy == UnsupportedContentPolicy::Reject ==> forall|j: int| 0 <= j < i ==> !is_foreign(#[trigger] bs[j]),
    ensures
        responses::gather_all(Gathered { parts: Seq::empty(), items: Seq::empty() }, bs, 0, policy)
            == responses::gather_all(
            Gathered {
                parts: bs.take(i).filter_map(part_sent(policy)),
                items: bs.take(i).filter_map(item_sent()),
            },
            bs,
            i,
            policy,
        ),
    decreases i,
{
    if i > 0 {
        blocks_are_gathered(bs, policy, i - 1);
        laws::keeping_takes(bs, i - 1, part_sent(policy));
        laws::keeping_takes(bs, i - 1, item_sent());
        one_block_more(
            Gathered {
                parts: bs.take(i - 1).filter_map(part_sent(policy)),
                items: bs.take(i - 1).filter_map(item_sent()),
            },
            bs[i - 1],
            policy,
        );
    } else {
        assert(bs.take(0).filter_map(part_sent(policy)) =~= Seq::empty());
        assert(bs.take(0).filter_map(item_sent()) =~= Seq::empty());
    }
}

/// The items that are sent for a turn: a message with all its words, pictures, sounds
/// and files in order, where there are any, and behind it all its calls, results and
/// thoughts in order.
pub open spec fn turn_sent(m: MessageV, policy: UnsupportedContentPolicy) -> Seq<Tree> {
    let parts = m.content.filter_map(part_sent(policy));
    (if parts.len() > 0 {
        seq![
            Tree::Obj(
                seq![
                    ("type"@, Tree::Str("message"@)),
                    (
                        "role"@,
                        Tree::Str(
                            if m.role == Role::Assistant {
                                "assistant"@
                            } else {
                                "user"@
                            },
                        ),
                    ),
                    ("content"@, Tree::Arr(parts)),
                ],
            ),
        ]
    } else {
        Seq::empty()
    }) + m.content.filter_map(item_sent())
}

/// Every block of a turn is sent, each in its place. What the dialect has no place for
/// is left out, named, or has the request refused, as the policy says.
pub proof fn turns_are_sent_whole(out: Seq<Tree>, m: MessageV, policy: UnsupportedContentPolicy)
    ensures
        policy != UnsupportedContentPolicy::Reject || (forall|j: int|
            0 <= j < m.content.len() ==> !is_foreign(#[trigger] m.content[j])) ==> responses::turn_out(out, m, policy)
            == Ok::<Seq<Tree>, ErrorV>(out + turn_sent(m, policy)),
        forall|k: int|
            policy == UnsupportedContentPolicy::Reject && 0 <= k < m.content.len() && is_foreign(
                #[trigger] m.content[k],
            ) ==> responses::turn_out(out, m, policy) is Err,
{
    let bs = m.content;
    let n = bs.len() as int;
    if policy != UnsupportedContentPolicy::Reject || (forall|j: int|
        0 <= j < bs.len() ==> !is_foreign(#[trigger] bs[j])) {
        blocks_are_gathered(bs, policy, n);
        assert(bs.take(n) =~= bs);
        let parts = bs.filter_map(part_sent(policy));
        let role = if m.role == Role::Assistant { "assistant"@ } else { "user"@ };
        let doc = json::fs().with("type"@, json::st("message"@)).with("role"@, json::st(role)).with(
            "content"@,
            Tree::Arr(parts),
        );
        assert(doc =~= seq![
            ("type"@, Tree::Str("message"@)),
            ("role"@, Tree::Str(role)),
            ("content"@, Tree::Arr(parts)),
        ]);
        assert(responses::turn_out(out, m, policy)->Ok_0 =~= out + turn_sent(m, policy));
    }
    assert forall|k: int|
        policy == UnsupportedContentPolicy::Reject && 0 <= k < bs.len() && is_foreign(
            #[trigger] bs[k],
        ) implies responses::turn_out(out, m, policy) is Err by {
        let f = first_foreign(bs, 0, k);
        blocks_are_gathered(bs, policy, f);
        one_block_more(
            Gathered { parts: bs.take(f).filter_map(part_sent(policy)), items: bs.take(f).filter_map(item_sent()) },
            bs[f],
            policy,
        );
    }
}

proof fn first_foreign(bs: Seq<BlockV>, i: int, k: int) -> (f: int)
    requires
        0 <= i <= k < bs.len(),
        is_foreign(bs[k]),
        forall|j: int| 0 <= j < i ==> !is_foreign(#[trigger] bs[j]),
    ensures
        i <= f <= k,
        is_foreign(bs[f]),
        forall|j: int| 0 <= j < f ==> !is_foreign(#[trigger] bs[j]),
    decreases k - i,
{
    if is_foreign(bs[i]) {
        i
    } else {
        first_foreign(bs, i + 1, k)
    }
}

/// Whether the policy lets a turn be sent.
pub open spec fn can_be_sent(m: MessageV, policy: UnsupportedContentPolicy) -> bool {
    policy != UnsupportedContentPolicy::Reject || forall|j: int|
        0 <= j < m.content.len() ==> !is_foreign(#[trigger] m.content[j])
}

proof fn turns_stay(ms: Seq<MessageV>, policy: UnsupportedContentPolicy, i: int)
    requires
        0 <= i <= ms.len(),
        forall|k: int| 0 <= k < i ==> can_be_sent(#[trigger] ms[k], policy),
    ensures
        responses::turns_out(Seq::empty(), ms, 0, policy) == responses::turns_out(
            ms.take(i).flat_map(|m: MessageV| turn_sent(m, policy)),
            ms,
            i,
            policy,
        ),
    decreases i,
{
    let f = |m: MessageV| turn_sent(m, policy);
    if i > 0 {
        turns_stay(ms, policy, i - 1);
        laws::unfolding_takes(ms, i - 1, f);
        assert(can_be_sent(ms[i - 1], policy));
        turns_are_sent_whole(ms.take(i - 1).flat_map(f), ms[i - 1], policy);
    } else {
        assert(ms.take(0).map_values(f) =~= Seq::empty());
        assert(ms.take(0).flat_map(f) =~= Seq::empty());
    }
}

proof fn first_refused(ms: Seq<MessageV>, policy: UnsupportedContentPolicy, i: int, k: int) -> (f: int)
    requires
        0 <= i <= k < ms.len(),
        !can_be_sent(ms[k], policy),
        forall|j: int| 0 <= j < i ==> can_be_sent(#[trigger] ms[j], policy),
    ensures
        i <= f <= k,
        !can_be_sent(ms[f], policy),
        forall|j: int| 0 <= j < f ==> can_be_sent(#[trigger] ms[j], policy),
    decreases k - i,
{
    if !can_be_sent(ms[i], policy) {
        i
    } else {
        first_refused(ms, policy, i + 1, k)
    }
}

/// The input that is sent is what is sent for every turn, in order. It is refused where
/// the policy does not let one of the turns be sent.
pub proof fn conversations_are_sent_whole(ms: Seq<MessageV>, policy: UnsupportedContentPolicy)
    ensures
        (forall|k: int| 0 <= k < ms.len() ==> can_be_sent(#[trigger] ms[k], policy)) ==> responses::turns_out(
            Seq::empty(),
            ms,
            0,
            policy,
        ) == Ok::<Seq<Tree>, ErrorV>(ms.flat_map(|m: MessageV| turn_sent(m, policy))),
        (exists|k: int| 0 <= k < ms.len() && !can_be_sent(#[trigger] ms[k], policy)) ==> responses::turns_out(
            Seq::empty(),
            ms,
            0,
            policy,
        ) is Err,
{
    if forall|k: int| 0 <= k < ms.len() ==> can_be_sent(#[trigger] ms[k], policy) {
        turns_stay(ms, policy, ms.len() as int);
        assert(ms.take(ms.len() as int) =~= ms);
    } else {
        let k = choose|k: int| 0 <= k < ms.len() && !can_be_sent(#[trigger] ms[k], policy);
        let f = first_refused(ms, policy, 0, k);
        turns_stay(ms, policy, f);
        let m = ms[f];
        let j = choose|j: int| 0 <= j < m.content.len() && is_foreign(#[trigger] m.content[j]);
        turns_are_sent_whole(ms.take(f).flat_map(|m: MessageV| turn_sent(m, policy)), m, policy);
        assert(is_foreign(m.content[j]));
    }
}

// -------------------------------------------------------------------- fields

pub open spec fn tool_sent() -> spec_fn(ToolV) -> Tree {
    |t: ToolV|
        Tree::Obj(
            seq![
                ("type"@, Tree::Str("function"@)),
                ("name"@, Tree::Str(t.name)),
                ("description"@, Tree::Str(if t.description is Some { t.description->0 } else { Seq::empty() })),
                ("parameters"@, t.input_schema),
            ],
        )
}

pub open spec fn choice_sent(c: ChoiceV) -> Tree {
    match c {
        ChoiceV::Auto => Tree::Str("auto"@),
        ChoiceV::NoTool => Tree::Str("none"@),
        ChoiceV::Any => Tree::Str("required"@),
        ChoiceV::Specific { name } => Tree::Obj(
            seq![("type"@, Tree::Str("function"@)), ("name"@, Tree::Str(name))],
        ),
    }
}

/// What a request itself says under that name; the input aside.
pub open spec fn own_field(req: RequestV, model: Seq<char>, k: Seq<char>) -> Option<Tree> {
    if k == "model"@ {
        Some(Tree::Str(model))
    } else if k == "instructions"@ {
        openai_out::when(
            req.system.len() > 0,
            Tree::Str(text::joined(req.system.map_values(|p: SystemV| p.text), "\n\n"@)),
        )
    } else if k == "max_output_tokens"@ {
        openai_out::when(req.max_tokens is Some, json::num(req.max_tokens->0 as int))
    } else if k == "stream"@ {
        openai_out::when(req.stream, Tree::Bool(true))
    } else if k == "tools"@ {
        openai_out::when(req.tools.len() > 0, Tree::Arr(req.tools.map_values(tool_sent())))
    } else if k == "tool_choice"@ {
        openai_out::when(req.tool_choice is Some, choice_sent(req.tool_choice->0))
    } else if k == "reasoning"@ {
        openai_out::when(
            req.thinking is Some,
            Tree::Obj(seq![("effort"@, Tree::Str(openai_out::effort_sent(req.thinking->0)))]),
        )
    } else if k == "temperature"@ {
        openai_out::when(req.temperature is Some, Tree::Float(req.temperature->0))
    } else if k == "top_p"@ {
        openai_out::when(req.top_p is Some, Tree::Float(req.top_p->0))
    } else if k == "metadata"@ {
        openai_out::when(req.metadata_user is Some, Tree::Obj(seq![("user"@, Tree::Str(req.metadata_user->0))]))
    } else {
        None
    }
}

spec fn own_fields(req: RequestV, model: Seq<char>, input: Seq<Tree>) -> Seq<(Seq<char>, Tree)> {
    let b = round_trips::with_some(json::fs(), "model"@, own_field(req, model, "model"@));
    let b = round_trips::with_some(b, "instructions"@, own_field(req, model, "instructions"@));
    let b = round_trips::with_some(b, "input"@, Some(Tree::Arr(input)));
    let b = round_trips::with_some(b, "max_output_tokens"@, own_field(req, model, "max_output_tokens"@));
    let b = round_trips::with_some(b, "stream"@, own_field(req, model, "stream"@));
    let b = round_trips::with_some(b, "tools"@, own_field(req, model, "tools"@));
    let b = round_trips::with_some(b, "tool_choice"@, own_field(req, model, "tool_choice"@));
    let b = round_trips::with_some(b, "reasoning"@, own_field(req, model, "reasoning"@));
    let b = round_trips::with_some(b, "temperature"@, own_field(req, model, "temperature"@));
    let b = round_trips::with_some(b, "top_p"@, own_field(req, model, "top_p"@));
    round_trips::with_some(b, "metadata"@, own_field(req, model, "metadata"@))
}

proof fn names_differ()
    ensures
        "model"@.len() == 5 && "model"@[0] == 'm',
        "input"@.len() == 5 && "input"@[0] == 'i',
        "top_p"@.len() == 5 && "top_p"@[0] == 't' && "top_p"@[4] == 'p',
        "tools"@.len() == 5 && "tools"@[0] == 't' && "tools"@[4] == 's',
        "stream"@.len() == 6,
        "metadata"@.len() == 8,
        "reasoning"@.len() == 9,
        "temperature"@.len() == 11 && "temperature"@[1] == 'e',
        "tool_choice"@.len() == 11 && "tool_choice"@[1] == 'o',
        "instructions"@.len() == 12,
        "max_output_tokens"@.len() == 17,
{
    reveal_strlit("model");
    reveal_strlit("input");
    reveal_strlit("top_p");
    reveal_strlit("tools");
    reveal_strlit("stream");
    reveal_strlit("metadata");
    reveal_strlit("reasoning");
    reveal_strlit("temperature");
    reveal_strlit("tool_choice");
    reveal_strlit("instructions");
    reveal_strlit("max_output_tokens");
}

proof fn fields_are_own(req: RequestV, model: Seq<char>, input: Seq<Tree>)
    ensures
        responses::request_fields(req, model, input) == responses::carried_fields(
            own_fields(req, model, input),
            Tree::Obj(req.passthrough),
        ),
{
    names_differ();
    reveal(round_trips::with_some);
    assert(openai::system_texts(req.system) =~= req.system.map_values(|p: SystemV| p.text));
    assert forall|i: int| 0 <= i < req.tools.len() implies responses::tool_out(#[trigger] req.tools[i])
        == tool_sent()(req.tools[i]) by {
        assert(responses::tool_out(req.tools[i])->Obj_0 =~= tool_sent()(req.tools[i])->Obj_0);
    }
    assert(responses::tools_out(req.tools)->Arr_0 =~= req.tools.map_values(tool_sent()));
    if let Some(c) = req.tool_choice {
        if let ChoiceV::Specific { name } = c {
            assert(responses::choice_out(c)->Obj_0 =~= choice_sent(c)->Obj_0);
        }
    }
    let b1 = json::fs().set("model"@, json::st(model));
    let b2 = if req.system.len() > 0 {
        b1.set("instructions"@, json::st(text::joined(openai::system_texts(req.system), "\n\n"@)))
    } else {
        b1
    };
    assert(b2 == round_trips::with_some(b1, "instructions"@, own_field(req, model, "instructions"@)));
    let b3 = b2.set("input"@, Tree::Arr(input));
    let b4 = match req.max_tokens {
        Some(n) => b3.set("max_output_tokens"@, json::num(n as int)),
        None => b3,
    };
    assert(b4 == round_trips::with_some(b3, "max_output_tokens"@, own_field(req, model, "max_output_tokens"@)));
    let b5 = if req.stream { b4.set("stream"@, Tree::Bool(true)) } else { b4 };
    assert(b5 == round_trips::with_some(b4, "stream"@, own_field(req, model, "stream"@)));
    let b6 = if req.tools.len() > 0 { b5.set("tools"@, responses::tools_out(req.tools)) } else { b5 };
    assert(b6 == round_trips::with_some(b5, "tools"@, own_field(req, model, "tools"@)));
    let b7 = match req.tool_choice {
        Some(c) => b6.set("tool_choice"@, responses::choice_out(c)),
        None => b6,
    };
    assert(b7 == round_trips::with_some(b6, "tool_choice"@, own_field(req, model, "tool_choice"@)));
    let b8 = match req.thinking {
        Some(t) => b7.set("reasoning"@, Tree::Obj(json::fs().with("effort"@, json::st(openai::effort_out(t))))),
        None => b7,
    };
    if let Some(t) = req.thinking {
        openai_out::efforts_are_sent(t);
        assert(json::fs().with("effort"@, json::st(openai::effort_out(t))) =~= seq![
            ("effort"@, Tree::Str(openai_out::effort_sent(t))),
        ]);
    }
    assert(b8 == round_trips::with_some(b7, "reasoning"@, own_field(req, model, "reasoning"@)));
    let b9 = match req.temperature {
        Some(t) => b8.set("temperature"@, Tree::Float(t)),
        None => b8,
    };
    assert(b9 == round_trips::with_some(b8, "temperature"@, own_field(req, model, "temperature"@)));
    let b10 = match req.top_p {
        Some(p) => b9.set("top_p"@, Tree::Float(p)),
        None => b9,
    };
    assert(b10 == round_trips::with_some(b9, "top_p"@, own_field(req, model, "top_p"@)));
    let b11 = match req.metadata_user {
        Some(u) => b10.set("metadata"@, Tree::Obj(json::fs().with("user"@, json::st(u)))),
        None => b10,
    };
    if let Some(u) = req.metadata_user {
        assert(json::fs().with("user"@, json::st(u)) =~= seq![("user"@, Tree::Str(u))]);
    }
    assert(b11 == round_trips::with_some(b10, "metadata"@, own_field(req, model, "metadata"@)));
    assert(responses::request_fields(req, model, input) == responses::carried_fields(
        b11,
        Tree::Obj(req.passthrough),
    ));
}

/// What a Responses body says under any name: of the four fields that are carried
/// along, what was left over of the request; else what the request itself has for it.
pub proof fn responses_fields_are_sent(req: RequestV, model: Seq<char>, k: Seq<char>)
    ensures
        responses::request_body(req, model) is Ok <==> responses::turns_out(
            Seq::empty(),
            req.messages,
            0,
            req.unsupported_content_policy,
        ) is Ok,
        responses::request_body(req, model) matches Ok(b) ==> {
            let input = responses::turns_out(Seq::empty(), req.messages, 0, req.unsupported_content_policy);
            let left = json::field(req.passthrough, k);
            &&& k == "input"@ ==> b.at(k) == Some(Tree::Arr(input->Ok_0))
            &&& k != "input"@ ==> b.at(k) == if responses_in::is_carried(k) && left is Some {
                left
            } else {
                own_field(req, model, k)
            }
        },
{
    broadcast use crate::protocol::round_trips::some_shows;

    if let Ok(b) = responses::request_body(req, model) {
        let input = responses::turns_out(
            Seq::empty(),
            req.messages,
            0,
            req.unsupported_content_policy,
        )->Ok_0;
        let m = own_fields(req, model, input);
        names_differ();
        fields_are_own(req, model, input);
        responses_in::carrying_shows(m, Tree::Obj(req.passthrough), k);
        assert(json::field(json::fs(), k) is None);
        reveal_strlit("store");
        reveal_strlit("previous_response_id");
        reveal_strlit("truncation");
        reveal_strlit("include");
        assert("store"@.len() == 5 && "store"@[0] == 's' && "previous_response_id"@.len() == 20 && "truncation"@.len()
            == 10 && "include"@.len() == 7);
    }
}

// ------------------------------------------------------------------- answers

/// Words of an answer.
pub open spec fn words_told(t: Seq<char>) -> Tree {
    Tree::Arr(
        seq![
            Tree::Obj(
                seq![
                    ("type"@, Tree::Str("output_text"@)),
                    ("text"@, Tree::Str(t)),
                    ("annotations"@, Tree::Arr(Seq::empty())),
                ],
            ),
        ],
    )
}

/// The item that tells a block of an answer: words as a message, calls and thoughts as
/// themselves; what else there may be is not told.
pub open spec fn item_told() -> spec_fn(BlockV) -> Option<Tree> {
    |b: BlockV|
        match b {
            BlockV::Text { text, .. } => Some(
                Tree::Obj(
                    seq![
                        ("type"@, Tree::Str("message"@)),
                        ("role"@, Tree::Str("assistant"@)),
                        ("status"@, Tree::Str("completed"@)),
                        ("content"@, words_told(text)),
                    ],
                ),
            ),
            BlockV::ToolUse { id, name, input } => Some(
                Tree::Obj(
                    seq![
                        ("type"@, Tree::Str("function_call"@)),
                        ("id"@, Tree::Str("fc_"@ + id)),
                        ("call_id"@, Tree::Str(id)),
                        ("name"@, Tree::Str(name)),
                        ("arguments"@, Tree::Str(openai::arguments_text(input))),
                        ("status"@, Tree::Str("completed"@)),
                    ],
                ),
            ),
            BlockV::Thinking { text, .. } => {
                let sealed = reasoning_bridge::item_of(b);
                if sealed is Some && sealed->0.at("encrypted_content"@) is Some {
                    Some(
                        Tree::Obj(
                            summary_sent(text).push(
                                ("encrypted_content"@, sealed->0.at("encrypted_content"@)->0),
                            ),
                        ),
                    )
                } else {
                    Some(Tree::Obj(summary_sent(text)))
                }
            },
            BlockV::RedactedThinking { .. } => reasoning_bridge::item_of(b),
            _ => None,
        }
}

pub(crate) proof fn words_are_told(t: Seq<char>)
    ensures
        responses::output_content(t) == words_told(t),
{
    let doc = seq![
        ("type"@, Tree::Str("output_text"@)),
        ("text"@, Tree::Str(t)),
        ("annotations"@, Tree::Arr(Seq::empty())),
    ];
    assert(json::fs().with("type"@, json::st("output_text"@)).with("text"@, json::st(t)).with(
        "annotations"@,
        Tree::Arr(Seq::empty()),
    ) =~= doc);
    assert(responses::output_content(t)->Arr_0 =~= seq![Tree::Obj(doc)]);
}

proof fn items_are_told(b: BlockV)
    ensures
        responses::item_out(b) == item_told()(b),
{
    match b {
        BlockV::Text { text, .. } => {
            words_are_told(text);
            assert(responses::item_out(b)->0->Obj_0 =~= item_told()(b)->0->Obj_0);
        },
        BlockV::ToolUse { id, name, input } => {
            assert(responses::item_out(b)->0->Obj_0 =~= item_told()(b)->0->Obj_0);
        },
        BlockV::Thinking { text, .. } => {
            summaries_are_sent(text);
            reveal_strlit("type");
            reveal_strlit("summary");
            reveal_strlit("encrypted_content");
            assert("type"@.len() == 4 && "summary"@.len() == 7 && "encrypted_content"@.len() == 17);
            reveal(json::put);
            reveal_with_fuel(json::find_from, 4);
            assert(responses::item_out(b)->0->Obj_0 =~= item_told()(b)->0->Obj_0);
        },
        _ => {},
    }
}

proof fn items_are_kept(bs: Seq<BlockV>, i: int)
    requires
        0 <= i <= bs.len(),
    ensures
        responses::items_out(bs, 0, Seq::empty()) == responses::items_out(
            bs,
            i,
            bs.take(i).filter_map(item_told()),
        ),
    decreases i,
{
    if i > 0 {
        items_are_kept(bs, i - 1);
        laws::keeping_takes(bs, i - 1, item_told());
        items_are_told(bs[i - 1]);
    } else {
        assert(bs.take(0).filter_map(item_told()) =~= Seq::empty());
    }
}

pub open spec fn text_of() -> spec_fn(BlockV) -> Seq<char> {
    |b: BlockV|
        match b {
            BlockV::Text { text, .. } => text,
            _ => Seq::empty(),
        }
}

proof fn texts_join(bs: Seq<BlockV>, i: int)
    requires
        0 <= i <= bs.len(),
    ensures
        ir::texts_of(bs, 0, Seq::empty()) == ir::texts_of(bs, i, bs.take(i).flat_map(text_of())),
    decreases i,
{
    if i > 0 {
        texts_join(bs, i - 1);
        laws::unfolding_takes(bs, i - 1, text_of());
        assert(bs.take(i - 1).flat_map(text_of()) + Seq::<char>::empty() =~= bs.take(i - 1).flat_map(text_of()));
    } else {
        assert(bs.take(0).map_values(text_of()) =~= Seq::empty());
        assert(bs.take(0).flat_map(text_of()) =~= Seq::empty());
    }
}

/// The text of an answer is that of all its blocks of words, joined in order.
pub proof fn the_text_is_whole(bs: Seq<BlockV>)
    ensures
        ir::texts_of(bs, 0, Seq::empty()) == bs.flat_map(text_of()),
{
    texts_join(bs, bs.len() as int);
    assert(bs.take(bs.len() as int) =~= bs);
}

/// The usage is told number by number, with their sum.
pub proof fn usage_is_told(u: Usage)
    ensures
        responses::usage_out(u) == Tree::Obj(
            seq![
                ("input_tokens"@, json::num(u.input_tokens as int)),
                ("output_tokens"@, json::num(u.output_tokens as int)),
                ("total_tokens"@, json::num(u.input_tokens + u.output_tokens)),
                (
                    "input_tokens_details"@,
                    Tree::Obj(seq![("cached_tokens"@, json::num(u.cache_read_tokens as int))]),
                ),
                (
                    "output_tokens_details"@,
                    Tree::Obj(seq![("reasoning_tokens"@, json::num(u.reasoning_tokens as int))]),
                ),
            ],
        ),
{
    assert(json::fs().with("cached_tokens"@, json::num(u.cache_read_tokens as int)) =~= seq![
        ("cached_tokens"@, json::num(u.cache_read_tokens as int)),
    ]);
    assert(json::fs().with("reasoning_tokens"@, json::num(u.reasoning_tokens as int)) =~= seq![
        ("reasoning_tokens"@, json::num(u.reasoning_tokens as int)),
    ]);
    assert(responses::usage_out(u)->Obj_0 =~= seq![
        ("input_tokens"@, json::num(u.input_tokens as int)),
        ("output_tokens"@, json::num(u.output_tokens as int)),
        ("total_tokens"@, json::num(u.input_tokens + u.output_tokens)),
        ("input_tokens_details"@, Tree::Obj(seq![("cached_tokens"@, json::num(u.cache_read_tokens as int))])),
        (
            "output_tokens_details"@,
            Tree::Obj(seq![("reasoning_tokens"@, json::num(u.reasoning_tokens as int))]),
        ),
    ]);
}

proof fn answer_names()
    ensures
        "id"@.len() == 2,
        "object"@.len() == 6 && "object"@[1] == 'b',
        "created_at"@.len() == 10,
        "status"@.len() == 6 && "status"@[1] == 't',
        "model"@.len() == 5 && "model"@[0] == 'm',
        "output"@.len() == 6 && "output"@[1] == 'u',
        "output_text"@.len() == 11,
        "usage"@.len() == 5 && "usage"@[0] == 'u',
        "previous_response_id"@.len() == 20,
        "metadata"@.len() == 8,
        "incomplete_details"@.len() == 18,
{
    reveal_strlit("id");
    reveal_strlit("object");
    reveal_strlit("created_at");
    reveal_strlit("status");
    reveal_strlit("model");
    reveal_strlit("output");
    reveal_strlit("output_text");
    reveal_strlit("usage");
    reveal_strlit("previous_response_id");
    reveal_strlit("metadata");
    reveal_strlit("incomplete_details");
}

/// An answer is told whole: an item for every block that can be told, in order, all its
/// words in one text, what it cost, and whether it was cut off.
pub proof fn answers_are_told_whole(r: ResponseV, created: i64)
    ensures
        ({
            let t = responses::response_body(r, created);
            let cut = r.stop_reason == StopReason::MaxTokens;
            &&& t.at("id"@) == Some(Tree::Str(r.id))
            &&& t.at("object"@) == Some(Tree::Str("response"@))
            &&& t.at("created_at"@) == Some(json::integer(created))
            &&& t.at("status"@) == Some(Tree::Str(if cut { "incomplete"@ } else { "completed"@ }))
            &&& t.at("model"@) == Some(Tree::Str(r.model))
            &&& t.at("output"@) == Some(Tree::Arr(r.content.filter_map(item_told())))
            &&& t.at("output_text"@) == Some(Tree::Str(r.content.flat_map(text_of())))
            &&& t.at("usage"@) == Some(responses::usage_out(r.usage))
            &&& t.at("previous_response_id"@) == json::field(r.passthrough, "previous_response_id"@)
            &&& t.at("metadata"@) == json::field(r.passthrough, "metadata"@)
            &&& t.at("incomplete_details"@) == if !cut {
                None
            } else if json::field(r.passthrough, "incomplete_details"@) is Some {
                json::field(r.passthrough, "incomplete_details"@)
            } else {
                Some(Tree::Obj(seq![("reason"@, Tree::Str("max_output_tokens"@))]))
            }
        }),
{
    items_are_kept(r.content, r.content.len() as int);
    assert(r.content.take(r.content.len() as int) =~= r.content);
    the_text_is_whole(r.content);
    assert(json::fs().with("reason"@, json::st("max_output_tokens"@)) =~= seq![
        ("reason"@, Tree::Str("max_output_tokens"@)),
    ]);
    answer_names();
    let kept = Tree::Obj(r.passthrough);
    let m = json::fs().with("id"@, json::st(r.id)).with("object"@, json::st("response"@)).with(
        "created_at"@,
        json::integer(created),
    ).with("status"@, json::st(responses::status_text(r.stop_reason))).with("model"@, json::st(r.model)).with(
        "output"@,
        Tree::Arr(responses::items_out(r.content, 0, Seq::empty())),
    ).with("output_text"@, json::st(ir::texts_of(r.content, 0, Seq::empty()))).with(
        "usage"@,
        responses::usage_out(r.usage),
    );
    assert({
        &&& json::field(m, "id"@) == Some(Tree::Str(r.id))
        &&& json::field(m, "object"@) == Some(Tree::Str("response"@))
        &&& json::field(m, "created_at"@) == Some(json::integer(created))
        &&& json::field(m, "status"@) == Some(Tree::Str(responses::status_text(r.stop_reason)))
        &&& json::field(m, "model"@) == Some(Tree::Str(r.model))
        &&& json::field(m, "output"@) == Some(Tree::Arr(responses::items_out(r.content, 0, Seq::empty())))
        &&& json::field(m, "output_text"@) == Some(Tree::Str(ir::texts_of(r.content, 0, Seq::empty())))
        &&& json::field(m, "usage"@) == Some(responses::usage_out(r.usage))
        &&& json::field(m, "previous_response_id"@) is None
        &&& json::field(m, "metadata"@) is None
        &&& json::field(m, "incomplete_details"@) is None
    }) by {
        reveal_with_fuel(json::find_from, 9);
    }
    let a = responses::carried(m, "previous_response_id"@, kept.at("previous_response_id"@));
    let b = responses::carried(a, "metadata"@, kept.at("metadata"@));
    assert forall|k: Seq<char>| #[trigger] json::field(a, k) == if k == "previous_response_id"@ && kept.at(
        "previous_response_id"@,
    ) is Some { kept.at("previous_response_id"@) } else { json::field(m, k) } by {
        if let Some(t) = kept.at("previous_response_id"@) {
            json::set_is_found(m, "previous_response_id"@, t, k);
        }
    }
    assert forall|k: Seq<char>| #[trigger] json::field(b, k) == if k == "metadata"@ && kept.at(
        "metadata"@,
    ) is Some { kept.at("metadata"@) } else { json::field(a, k) } by {
        if let Some(t) = kept.at("metadata"@) {
            json::set_is_found(a, "metadata"@, t, k);
        }
    }
    let d = match kept.at("incomplete_details"@) {
        Some(d) => d,
        None => Tree::Obj(json::fs().with("reason"@, json::st("max_output_tokens"@))),
    };
    let z = b.set("incomplete_details"@, d);
    assert forall|k: Seq<char>| #[trigger] json::field(z, k) == if k == "incomplete_details"@ { Some(d) } else {
        json::field(b, k)
    } by {
        json::set_is_found(b, "incomplete_details"@, d, k);
    }
}

} // verus!
