//! What is read and written in Gemini's dialect.

use vstd::prelude::*;

use crate::error::ErrorV;
use crate::ir;
use crate::ir::{
    BlockV, ChoiceV, Dialect, EventV, MessageV, PartV, RequestV, ResponseV, Role, SourceV, StopReason, SystemV, ToolV,
    Usage,
};
use crate::json;
use crate::json::{Build, Lookup, Tree};
use crate::laws;
use crate::laws::openai_in;
use crate::laws::openai_out;
use crate::protocol::gemini;
use crate::protocol::gemini::{EncoderV, ParserV, Step, Written};
use crate::protocol::openai;
use crate::protocol::round_trips;
use crate::protocol::sse::FrameV;
use crate::text;

verus! {

// ------------------------------------------------------------------- reading

/// A call with its id, its name and its arguments.
pub open spec fn call_in(call: Tree) -> BlockV {
    BlockV::ToolUse {
        id: call.at("id"@).text_or(Seq::empty()),
        name: call.at("name"@).text_or(Seq::empty()),
        input: if call.at("args"@) is Some { call.at("args"@)->0 } else { Tree::Obj(Seq::empty()) },
    }
}

/// What a part of a turn is read as: the first of words, a call, what a call returned,
/// and data that it has.
pub open spec fn part_reader() -> spec_fn(Tree) -> Option<BlockV> {
    |p: Tree|
        {
            let returned = p.at("functionResponse"@);
            let data = p.at("inlineData"@);
            if p.at("text"@).text() is Some {
                Some(BlockV::Text { text: p.at("text"@).text()->0, cache_control: None })
            } else if p.at("functionCall"@) is Some {
                Some(call_in(p.at("functionCall"@)->0))
            } else if returned is Some {
                Some(
                    BlockV::ToolResult {
                        tool_use_id: returned.at("id"@).text_or(Seq::empty()),
                        name: Seq::empty(),
                        content: seq![
                            PartV::Text {
                                text: json::rendered(
                                    if returned.at("response"@) is Some {
                                        returned.at("response"@)->0
                                    } else {
                                        Tree::Null
                                    },
                                ),
                            },
                        ],
                        is_error: false,
                    },
                )
            } else if data is Some {
                Some(
                    BlockV::Image {
                        source: SourceV::Base64 {
                            media_type: data.at("mimeType"@).text_or("application/octet-stream"@),
                            data: data.at("data"@).text_or(Seq::empty()),
                        },
                    },
                )
            } else {
                None
            }
        }
}

proof fn parts_are_kept(ps: Seq<Tree>, i: int)
    requires
        0 <= i <= ps.len(),
    ensures
        gemini::part_blocks(ps, 0, Seq::empty()) == gemini::part_blocks(
            ps,
            i,
            ps.take(i).filter_map(part_reader()),
        ),
    decreases i,
{
    if i > 0 {
        parts_are_kept(ps, i - 1);
        laws::keeping_takes(ps, i - 1, part_reader());
        let p = ps[i - 1];
        if let Some(BlockV::ToolResult { content, .. }) = gemini::part_block(p) {
            assert(content =~= seq![content[0]]);
        }
        assert(gemini::part_block(p) == part_reader()(p));
    } else {
        assert(ps.take(0).filter_map(part_reader()) =~= Seq::empty());
    }
}

/// Each turn is read whole, every part of it in order: the model's as the assistant's,
/// any other as the user's.
pub proof fn turns_are_read_whole(cs: Seq<Tree>, k: int)
    requires
        0 <= k < cs.len(),
    ensures
        gemini::turns(cs).len() == cs.len(),
        gemini::turns(cs)[k].role == if cs[k].at("role"@).text() == Some("model"@) {
            Role::Assistant
        } else {
            Role::User
        },
        gemini::turns(cs)[k].content == match cs[k].at("parts"@).list() {
            Some(ps) => ps.filter_map(part_reader()),
            None => Seq::empty(),
        },
{
    if let Some(ps) = cs[k].at("parts"@).list() {
        parts_are_kept(ps, ps.len() as int);
        assert(ps.take(ps.len() as int) =~= ps);
    }
}

pub open spec fn instruction_reader() -> spec_fn(Tree) -> Option<SystemV> {
    |p: Tree|
        if p.at("text"@).text() is Some {
            Some(SystemV { text: p.at("text"@).text()->0, cache_control: None })
        } else {
            None
        }
}

proof fn instructions_are_kept(ps: Seq<Tree>, i: int)
    requires
        0 <= i <= ps.len(),
    ensures
        gemini::system_parts(ps, 0, Seq::empty()) == gemini::system_parts(
            ps,
            i,
            ps.take(i).filter_map(instruction_reader()),
        ),
    decreases i,
{
    if i > 0 {
        instructions_are_kept(ps, i - 1);
        laws::keeping_takes(ps, i - 1, instruction_reader());
    } else {
        assert(ps.take(0).filter_map(instruction_reader()) =~= Seq::empty());
    }
}

pub open spec fn tool_reader() -> spec_fn(Tree) -> Option<ToolV> {
    |t: Tree|
        match t.at("name"@).text() {
            Some(name) => Some(
                ToolV {
                    name,
                    description: t.at("description"@).text(),
                    input_schema: if t.at("parameters"@) is Some {
                        t.at("parameters"@)->0
                    } else {
                        openai::object_schema()
                    },
                    cache_control: None,
                },
            ),
            None => None,
        }
}

proof fn declarations_are_kept(ds: Seq<Tree>, i: int, acc: Seq<ToolV>)
    requires
        0 <= i <= ds.len(),
    ensures
        gemini::declarations(ds, i, acc) == acc + ds.skip(i).filter_map(tool_reader()),
    decreases ds.len() - i,
{
    if i < ds.len() {
        laws::keeping_first(ds, i, tool_reader());
        let rest = ds.skip(i + 1).filter_map(tool_reader());
        if let Some(t) = tool_reader()(ds[i]) {
            declarations_are_kept(ds, i + 1, acc.push(t));
            assert(acc + (Seq::empty().push(t) + rest) =~= acc.push(t) + rest);
        } else {
            declarations_are_kept(ds, i + 1, acc);
            assert(acc + (Seq::empty() + rest) =~= acc + rest);
        }
    } else {
        laws::nothing_is_left(ds, tool_reader(), |t: Tree| Seq::<ToolV>::empty());
        assert(acc + Seq::<ToolV>::empty() =~= acc);
    }
}

/// The tools of one group of declarations.
pub open spec fn declared() -> spec_fn(Tree) -> Seq<ToolV> {
    |g: Tree|
        match g.at("functionDeclarations"@).list() {
            Some(ds) => ds.filter_map(tool_reader()),
            None => Seq::empty(),
        }
}

proof fn tools_unfold(ts: Seq<Tree>, i: int)
    requires
        0 <= i <= ts.len(),
    ensures
        gemini::tools(ts, 0, Seq::empty()) == gemini::tools(ts, i, ts.take(i).flat_map(declared())),
    decreases i,
{
    if i > 0 {
        tools_unfold(ts, i - 1);
        laws::unfolding_takes(ts, i - 1, declared());
        let acc = ts.take(i - 1).flat_map(declared());
        if let Some(ds) = ts[i - 1].at("functionDeclarations"@).list() {
            declarations_are_kept(ds, 0, acc);
            assert(ds.skip(0) =~= ds);
        } else {
            assert(acc + Seq::<ToolV>::empty() =~= acc);
        }
    } else {
        assert(ts.take(0).map_values(declared()) =~= Seq::empty());
        assert(ts.take(0).flat_map(declared()) =~= Seq::empty());
    }
}

/// Which tools may be called is said by a mode: none, any, or else as the model likes.
pub proof fn choices_are_read(mode: Option<Seq<char>>)
    ensures
        mode is None ==> gemini::choice(mode) is None,
        mode == Some("NONE"@) ==> gemini::choice(mode) == Some(ChoiceV::NoTool),
        mode == Some("ANY"@) ==> gemini::choice(mode) == Some(ChoiceV::Any),
        mode is Some && mode != Some("NONE"@) && mode != Some("ANY"@) ==> gemini::choice(mode) == Some(ChoiceV::Auto),
{
    reveal_strlit("NONE");
    reveal_strlit("ANY");
    assert("NONE"@.len() == 4 && "ANY"@.len() == 3);
}

/// A request that is an object is read, every field of it to its place.
pub proof fn gemini_fields_are_read(body: Tree)
    ensures
        gemini::request_of(body) is Ok <==> body is Obj,
        gemini::request_of(body) matches Ok(r) ==> {
            let gc = body.at("generationConfig"@);
            &&& r.model == body.at("model"@).text_or(Seq::empty())
            &&& r.source_dialect == Dialect::Gemini
            &&& r.system == match body.at("system_instruction"@).at("parts"@).list() {
                Some(ps) => ps.filter_map(instruction_reader()),
                None => Seq::empty(),
            }
            &&& body.at("contents"@) matches Some(Tree::Arr(cs)) ==> r.messages == gemini::turns(cs)
            &&& body.at("contents"@).list() is None ==> r.messages.len() == 0
            &&& gc.at("maxOutputTokens"@).uint() is None ==> r.max_tokens is None
            &&& gc.at("maxOutputTokens"@) matches Some(Tree::UInt(n)) ==> r.max_tokens is Some && (n <= u32::MAX
                ==> r.max_tokens->0 == n)
            &&& r.temperature == gc.at("temperature"@).float()
            &&& r.top_p == gc.at("topP"@).float()
            &&& gc.at("stopSequences"@) matches Some(Tree::Arr(a)) ==> r.stop_sequences == a.filter_map(
                openai_in::text_reader(),
            )
            &&& gc.at("stopSequences"@).list() is None ==> r.stop_sequences.len() == 0
            &&& !r.stream
            &&& body.at("tools"@) matches Some(Tree::Arr(ts)) ==> r.tools == ts.flat_map(declared())
            &&& body.at("tools"@).list() is None ==> r.tools.len() == 0
            &&& r.tool_choice == gemini::choice(
                body.at("toolConfig"@).at("functionCallingConfig"@).at("mode"@).text(),
            )
            &&& r.thinking is None
            &&& r.metadata_user is None
        },
{
    if let Some(ps) = body.at("system_instruction"@).at("parts"@).list() {
        instructions_are_kept(ps, ps.len() as int);
        assert(ps.take(ps.len() as int) =~= ps);
    }
    let gc = body.at("generationConfig"@);
    if let Some(Tree::Arr(a)) = gc.at("stopSequences"@) {
        assert(a.take(0) =~= Seq::<Tree>::empty());
        openai_in::texts_are_kept(a, 0);
    }
    if let Some(Tree::Arr(ts)) = body.at("tools"@) {
        tools_unfold(ts, ts.len() as int);
        assert(ts.take(ts.len() as int) =~= ts);
    }
    if let Some(Tree::UInt(n)) = gc.at("maxOutputTokens"@) {
        if n <= u32::MAX {
            assert(n as int % 0x1_0000_0000 == n as int);
        }
    }
}

/// What a part of an answer is read as: words, or a call.
pub open spec fn answer_reader() -> spec_fn(Tree) -> Option<BlockV> {
    |p: Tree|
        if p.at("text"@).text() is Some {
            Some(BlockV::Text { text: p.at("text"@).text()->0, cache_control: None })
        } else if p.at("functionCall"@) is Some {
            Some(call_in(p.at("functionCall"@)->0))
        } else {
            None
        }
}

proof fn answer_parts_are_kept(ps: Seq<Tree>, i: int)
    requires
        0 <= i <= ps.len(),
    ensures
        gemini::answer_blocks(ps, 0, Seq::empty()) == gemini::answer_blocks(
            ps,
            i,
            ps.take(i).filter_map(answer_reader()),
        ),
    decreases i,
{
    if i > 0 {
        answer_parts_are_kept(ps, i - 1);
        laws::keeping_takes(ps, i - 1, answer_reader());
        assert(gemini::answer_block(ps[i - 1]) == answer_reader()(ps[i - 1]));
    } else {
        assert(ps.take(0).filter_map(answer_reader()) =~= Seq::empty());
    }
}

/// Why an answer stopped is read by name.
pub proof fn reasons_are_read(s: Seq<char>)
    ensures
        s == "STOP"@ <==> gemini::stop_reason(s) == StopReason::EndTurn,
        s == "MAX_TOKENS"@ <==> gemini::stop_reason(s) == StopReason::MaxTokens,
        s == "SAFETY"@ <==> gemini::stop_reason(s) == StopReason::Refusal,
        gemini::stop_reason(s) != StopReason::StopSequence && gemini::stop_reason(s) != StopReason::ToolUse,
{
    reveal_strlit("STOP");
    reveal_strlit("MAX_TOKENS");
    reveal_strlit("SAFETY");
    assert("STOP"@.len() == 4 && "MAX_TOKENS"@.len() == 10 && "SAFETY"@.len() == 6);
}

/// A number that does not fit loses the part above what fits.
pub proof fn large_numbers_wrap(n: u64)
    ensures
        gemini::low_half(n) == n as int % 0x1_0000_0000,
        n <= u32::MAX ==> gemini::low_half(n) == n,
{
}

/// The usage is read number by number: of what fits, exactly.
pub proof fn usage_is_read(v: Option<Tree>)
    ensures
        v.at("promptTokenCount"@).uint() is None ==> gemini::usage_of(v).input_tokens == 0,
        v.at("promptTokenCount"@) matches Some(Tree::UInt(n)) ==> n <= u32::MAX ==> gemini::usage_of(v).input_tokens
            == n,
        v.at("candidatesTokenCount"@).uint() is None ==> gemini::usage_of(v).output_tokens == 0,
        v.at("candidatesTokenCount"@) matches Some(Tree::UInt(n)) ==> n <= u32::MAX ==> gemini::usage_of(
            v,
        ).output_tokens == n,
        v.at("thoughtsTokenCount"@).uint() is None ==> gemini::usage_of(v).reasoning_tokens == 0,
        v.at("thoughtsTokenCount"@) matches Some(Tree::UInt(n)) ==> n <= u32::MAX ==> gemini::usage_of(
            v,
        ).reasoning_tokens == n,
        gemini::usage_of(v).cache_read_tokens == 0,
        gemini::usage_of(v).cache_write_tokens == 0,
{
    assert forall|n: u64| n <= u32::MAX implies #[trigger] gemini::low_half(n) == n by {
        assert(n as int % 0x1_0000_0000 == n as int);
    }
}

/// The first candidate of an answer is read whole: every part of it in order, why it
/// stopped and what it cost. An answer that reports an error is that error.
pub proof fn answers_are_read_whole(body: Tree)
    ensures
        body.at("error"@) matches Some(e) ==> gemini::response_of(body) == Err::<ResponseV, ErrorV>(
            ErrorV::BadUpstreamPayload(e.at("message"@).text_or("unknown Gemini error"@)),
        ),
        gemini::response_of(body) is Ok <==> body.at("error"@) is None,
        gemini::response_of(body) matches Ok(r) ==> {
            let all = body.at("candidates"@).list();
            let first = if all is Some && all->0.len() > 0 { Some(all->0[0]) } else { None };
            let parts = first.at("content"@).at("parts"@).list();
            &&& r.id == body.at("id"@).text_or("gemini_unknown"@)
            &&& r.model == body.at("model"@).text_or(Seq::empty())
            &&& parts is Some ==> r.content == parts->0.filter_map(answer_reader())
            &&& parts is None ==> r.content.len() == 0
            &&& r.stop_reason == gemini::stop_reason(first.at("finishReason"@).text_or(Seq::empty()))
            &&& r.stop_sequence is None
            &&& r.usage == gemini::usage_of(body.at("usageMetadata"@))
        },
{
    if let Some(ps) = gemini::first_candidate(body).at("content"@).at("parts"@).list() {
        answer_parts_are_kept(ps, ps.len() as int);
        assert(ps.take(ps.len() as int) =~= ps);
    }
}

// ------------------------------------------------------------------- writing

pub open spec fn one(key: Seq<char>, v: Tree) -> Tree {
    Tree::Obj(seq![(key, v)])
}

pub(crate) proof fn ones_are_one(key: Seq<char>, v: Tree)
    ensures
        gemini::one_field(key, v) == one(key, v),
{
    assert(gemini::one_field(key, v)->Obj_0 =~= one(key, v)->Obj_0);
}

pub open spec fn call_sent(id: Seq<char>, name: Seq<char>, input: Tree) -> Tree {
    one(
        "functionCall"@,
        Tree::Obj(seq![("id"@, Tree::Str(id)), ("name"@, Tree::Str(name)), ("args"@, input)]),
    )
}

proof fn calls_are_sent(id: Seq<char>, name: Seq<char>, input: Tree)
    ensures
        gemini::call_out(id, name, input) == call_sent(id, name, input),
{
    let doc = seq![("id"@, Tree::Str(id)), ("name"@, Tree::Str(name)), ("args"@, input)];
    assert(json::fs().with("id"@, json::st(id)).with("name"@, json::st(name)).with("args"@, input) =~= doc);
    ones_are_one("functionCall"@, Tree::Obj(doc));
}

/// What is sent for a block: words, a picture as data or else its address as words, a
/// call, what a call returned; nothing for what Gemini has no part for.
pub open spec fn part_sent() -> spec_fn(BlockV) -> Option<Tree> {
    |b: BlockV|
        match b {
            BlockV::Text { text, .. } => Some(one("text"@, Tree::Str(text))),
            BlockV::Image { source: SourceV::Base64 { media_type, data } } => Some(
                one(
                    "inlineData"@,
                    Tree::Obj(seq![("mimeType"@, Tree::Str(media_type)), ("data"@, Tree::Str(data))]),
                ),
            ),
            BlockV::Image { source } => Some(one("text"@, Tree::Str(ir::url_of_source(source)))),
            BlockV::ToolUse { id, name, input } => Some(call_sent(id, name, input)),
            BlockV::ToolResult { tool_use_id, content, .. } => Some(
                one(
                    "functionResponse"@,
                    Tree::Obj(
                        seq![
                            ("id"@, Tree::Str(tool_use_id)),
                            ("name"@, Tree::Str(Seq::empty())),
                            (
                                "response"@,
                                one(
                                    "text"@,
                                    Tree::Str(
                                        text::joined(content.map_values(openai_out::result_words()), "\n"@),
                                    ),
                                ),
                            ),
                        ],
                    ),
                ),
            ),
            _ => None,
        }
}

proof fn parts_are_sent(b: BlockV)
    ensures
        gemini::part_out(b) == part_sent()(b),
{
    match b {
        BlockV::Text { text, .. } => ones_are_one("text"@, Tree::Str(text)),
        BlockV::Image { source: SourceV::Base64 { media_type, data } } => {
            let doc = seq![("mimeType"@, Tree::Str(media_type)), ("data"@, Tree::Str(data))];
            assert(json::fs().with("mimeType"@, json::st(media_type)).with("data"@, json::st(data)) =~= doc);
            ones_are_one("inlineData"@, Tree::Obj(doc));
        },
        BlockV::Image { source } => ones_are_one("text"@, Tree::Str(ir::url_of_source(source))),
        BlockV::ToolUse { id, name, input } => calls_are_sent(id, name, input),
        BlockV::ToolResult { tool_use_id, content, .. } => {
            assert(openai::result_texts(content) =~= content.map_values(openai_out::result_words()));
            let said = Tree::Str(text::joined(content.map_values(openai_out::result_words()), "\n"@));
            ones_are_one("text"@, said);
            let doc = seq![
                ("id"@, Tree::Str(tool_use_id)),
                ("name"@, Tree::Str(Seq::empty())),
                ("response"@, one("text"@, said)),
            ];
            assert(json::fs().with("id"@, json::st(tool_use_id)).with("name"@, json::st(Seq::empty())).with(
                "response"@,
                one("text"@, said),
            ) =~= doc);
            ones_are_one("functionResponse"@, Tree::Obj(doc));
        },
        _ => {},
    }
}

proof fn sent_parts_are_kept(bs: Seq<BlockV>, i: int)
    requires
        0 <= i <= bs.len(),
    ensures
        gemini::parts_out(bs, 0, Seq::empty()) == gemini::parts_out(bs, i, bs.take(i).filter_map(part_sent())),
    decreases i,
{
    if i > 0 {
        sent_parts_are_kept(bs, i - 1);
        laws::keeping_takes(bs, i - 1, part_sent());
        parts_are_sent(bs[i - 1]);
    } else {
        assert(bs.take(0).filter_map(part_sent()) =~= Seq::empty());
    }
}

/// A turn as it is sent: the assistant's as the model's, with every part in order.
pub open spec fn turn_sent() -> spec_fn(MessageV) -> Tree {
    |m: MessageV|
        Tree::Obj(
            seq![
                (
                    "role"@,
                    Tree::Str(
                        if m.role == Role::Assistant {
                            "model"@
                        } else {
                            "user"@
                        },
                    ),
                ),
                ("parts"@, Tree::Arr(m.content.filter_map(part_sent()))),
            ],
        )
}

/// The conversation is sent whole, turn by turn.
pub proof fn conversations_are_sent_whole(ms: Seq<MessageV>)
    ensures
        gemini::turns_out(ms) == Tree::Arr(ms.map_values(turn_sent())),
{
    assert forall|i: int| 0 <= i < ms.len() implies gemini::turn_out(#[trigger] ms[i]) == turn_sent()(ms[i]) by {
        let bs = ms[i].content;
        sent_parts_are_kept(bs, bs.len() as int);
        assert(bs.take(bs.len() as int) =~= bs);
        assert(gemini::turn_out(ms[i])->Obj_0 =~= turn_sent()(ms[i])->Obj_0);
    }
    assert(gemini::turns_out(ms)->Arr_0 =~= ms.map_values(turn_sent()));
}

pub open spec fn declaration_sent() -> spec_fn(ToolV) -> Tree {
    |t: ToolV|
        Tree::Obj(
            seq![
                ("name"@, Tree::Str(t.name)),
                ("description"@, Tree::Str(if t.description is Some { t.description->0 } else { Seq::empty() })),
                ("parameters"@, t.input_schema),
            ],
        )
}

/// What a request says under that name in its settings.
pub open spec fn setting(req: RequestV, k: Seq<char>) -> Option<Tree> {
    if k == "maxOutputTokens"@ {
        openai_out::when(req.max_tokens is Some, json::num(req.max_tokens->0 as int))
    } else if k == "temperature"@ {
        openai_out::when(req.temperature is Some, Tree::Float(req.temperature->0))
    } else if k == "topP"@ {
        openai_out::when(req.top_p is Some, Tree::Float(req.top_p->0))
    } else if k == "stopSequences"@ {
        openai_out::when(
            req.stop_sequences.len() > 0,
            Tree::Arr(req.stop_sequences.map_values(openai_out::stop_sent())),
        )
    } else {
        None
    }
}

/// The settings that are sent are those of the request, and no others.
pub proof fn settings_are_sent(req: RequestV, k: Seq<char>)
    ensures
        json::field(gemini::generation_config(req), k) == setting(req, k),
{
    broadcast use crate::protocol::round_trips::some_shows;

    reveal_strlit("maxOutputTokens");
    reveal_strlit("temperature");
    reveal_strlit("topP");
    reveal_strlit("stopSequences");
    assert("maxOutputTokens"@.len() == 15 && "temperature"@.len() == 11 && "topP"@.len() == 4 && "stopSequences"@.len()
        == 13);
    assert(json::text_list(req.stop_sequences)->Arr_0 =~= req.stop_sequences.map_values(openai_out::stop_sent()));
    assert(json::field(json::fs(), k) is None);
    let a = round_trips::with_some(json::fs(), "maxOutputTokens"@, setting(req, "maxOutputTokens"@));
    let b = round_trips::with_some(a, "temperature"@, setting(req, "temperature"@));
    let c = round_trips::with_some(b, "topP"@, setting(req, "topP"@));
    let d = round_trips::with_some(c, "stopSequences"@, setting(req, "stopSequences"@));
    assert(gemini::generation_config(req) == d) by {
        reveal(round_trips::with_some);
    }
}

/// What a request itself says under that name; its settings aside.
pub open spec fn own_field(req: RequestV, model: Seq<char>, k: Seq<char>) -> Option<Tree> {
    if k == "model"@ {
        Some(Tree::Str(model))
    } else if k == "system_instruction"@ {
        openai_out::when(
            req.system.len() > 0,
            one("parts"@, Tree::Arr(req.system.map_values(|p: SystemV| one("text"@, Tree::Str(p.text))))),
        )
    } else if k == "contents"@ {
        Some(Tree::Arr(req.messages.map_values(turn_sent())))
    } else if k == "tools"@ {
        openai_out::when(
            req.tools.len() > 0,
            Tree::Arr(
                seq![one("functionDeclarations"@, Tree::Arr(req.tools.map_values(declaration_sent())))],
            ),
        )
    } else if k == "toolConfig"@ {
        openai_out::when(
            req.tool_choice is Some,
            one(
                "functionCallingConfig"@,
                one(
                    "mode"@,
                    Tree::Str(
                        match req.tool_choice->0 {
                            ChoiceV::Auto => "AUTO"@,
                            ChoiceV::NoTool => "NONE"@,
                            ChoiceV::Any => "ANY"@,
                            ChoiceV::Specific { .. } => "ANY"@,
                        },
                    ),
                ),
            ),
        )
    } else {
        None
    }
}

/// What a body for Gemini says under any name: what the request has for it, and its
/// settings where it has any.
pub proof fn gemini_fields_are_sent(req: RequestV, model: Seq<char>, k: Seq<char>)
    ensures
        ({
            let b = gemini::request_body(req, model);
            let settings = gemini::generation_config(req);
            &&& k != "generationConfig"@ ==> b.at(k) == own_field(req, model, k)
            &&& b.at("generationConfig"@) == openai_out::when(settings.len() > 0, Tree::Obj(settings))
        }),
{
    reveal_strlit("model");
    reveal_strlit("system_instruction");
    reveal_strlit("contents");
    reveal_strlit("generationConfig");
    reveal_strlit("tools");
    reveal_strlit("toolConfig");
    assert("model"@.len() == 5 && "model"@[0] == 'm' && "system_instruction"@.len() == 18 && "contents"@.len() == 8
        && "generationConfig"@.len() == 16 && "tools"@.len() == 5 && "tools"@[0] == 't' && "toolConfig"@.len() == 10);
    conversations_are_sent_whole(req.messages);
    let said = |p: SystemV| one("text"@, Tree::Str(p.text));
    assert forall|i: int| 0 <= i < req.system.len() implies gemini::system_out(req.system)->Arr_0[i] == said(
        #[trigger] req.system[i],
    ) by {
        ones_are_one("text"@, Tree::Str(req.system[i].text));
    }
    assert(gemini::system_out(req.system)->Arr_0 =~= req.system.map_values(said));
    ones_are_one("parts"@, gemini::system_out(req.system));
    assert forall|i: int| 0 <= i < req.tools.len() implies gemini::declaration_out(#[trigger] req.tools[i])
        == declaration_sent()(req.tools[i]) by {
        assert(gemini::declaration_out(req.tools[i])->Obj_0 =~= declaration_sent()(req.tools[i])->Obj_0);
    }
    assert(gemini::declarations_out(req.tools)->Arr_0 =~= req.tools.map_values(declaration_sent()));
    ones_are_one("functionDeclarations"@, gemini::declarations_out(req.tools));
    let group = one("functionDeclarations"@, gemini::declarations_out(req.tools));
    assert(Seq::empty().push(group) =~= seq![group]);
    if let Some(c) = req.tool_choice {
        let mode = Tree::Str(gemini::mode_out(c));
        ones_are_one("mode"@, mode);
        ones_are_one("functionCallingConfig"@, one("mode"@, mode));
    }
    let settings = gemini::generation_config(req);
    let g = openai_out::when(settings.len() > 0, Tree::Obj(settings));
    let b0 = round_trips::with_some(json::fs(), "model"@, own_field(req, model, "model"@));
    let b1 = round_trips::with_some(b0, "system_instruction"@, own_field(req, model, "system_instruction"@));
    let b2 = round_trips::with_some(b1, "contents"@, own_field(req, model, "contents"@));
    let b3 = round_trips::with_some(b2, "generationConfig"@, g);
    let b4 = round_trips::with_some(b3, "tools"@, own_field(req, model, "tools"@));
    let b5 = round_trips::with_some(b4, "toolConfig"@, own_field(req, model, "toolConfig"@));
    assert(gemini::request_body(req, model) == Tree::Obj(b5)) by {
        reveal(round_trips::with_some);
    }
    assert(json::field(json::fs(), k) is None && json::field(json::fs(), "generationConfig"@) is None);
    round_trips::some_shows(json::fs(), "model"@, own_field(req, model, "model"@), k);
    round_trips::some_shows(b0, "system_instruction"@, own_field(req, model, "system_instruction"@), k);
    round_trips::some_shows(b1, "contents"@, own_field(req, model, "contents"@), k);
    round_trips::some_shows(b2, "generationConfig"@, g, k);
    round_trips::some_shows(b3, "tools"@, own_field(req, model, "tools"@), k);
    round_trips::some_shows(b4, "toolConfig"@, own_field(req, model, "toolConfig"@), k);
    let n = "generationConfig"@;
    round_trips::some_shows(json::fs(), "model"@, own_field(req, model, "model"@), n);
    round_trips::some_shows(b0, "system_instruction"@, own_field(req, model, "system_instruction"@), n);
    round_trips::some_shows(b1, "contents"@, own_field(req, model, "contents"@), n);
    round_trips::some_shows(b2, n, g, n);
    round_trips::some_shows(b3, "tools"@, own_field(req, model, "tools"@), n);
    round_trips::some_shows(b4, "toolConfig"@, own_field(req, model, "toolConfig"@), n);
}

/// What is told of a block of an answer: words and calls.
pub open spec fn part_told() -> spec_fn(BlockV) -> Option<Tree> {
    |b: BlockV|
        match b {
            BlockV::Text { text, .. } => Some(one("text"@, Tree::Str(text))),
            BlockV::ToolUse { id, name, input } => Some(call_sent(id, name, input)),
            _ => None,
        }
}

proof fn told_parts_are_kept(bs: Seq<BlockV>, i: int)
    requires
        0 <= i <= bs.len(),
    ensures
        gemini::answer_parts(bs, 0, Seq::empty()) == gemini::answer_parts(
            bs,
            i,
            bs.take(i).filter_map(part_told()),
        ),
    decreases i,
{
    if i > 0 {
        told_parts_are_kept(bs, i - 1);
        laws::keeping_takes(bs, i - 1, part_told());
        match bs[i - 1] {
            BlockV::Text { text, .. } => ones_are_one("text"@, Tree::Str(text)),
            BlockV::ToolUse { id, name, input } => calls_are_sent(id, name, input),
            _ => {},
        }
    } else {
        assert(bs.take(0).filter_map(part_told()) =~= Seq::empty());
    }
}

pub open spec fn usage_told(u: Usage) -> Tree {
    Tree::Obj(
        seq![
            ("promptTokenCount"@, json::num(u.input_tokens as int)),
            ("candidatesTokenCount"@, json::num(u.output_tokens as int)),
            ("totalTokenCount"@, json::num(u.input_tokens + u.output_tokens)),
            ("thoughtsTokenCount"@, json::num(u.reasoning_tokens as int)),
        ],
    )
}

pub open spec fn content_told(parts: Seq<Tree>) -> Tree {
    Tree::Obj(seq![("role"@, Tree::Str("model"@)), ("parts"@, Tree::Arr(parts))])
}

pub(crate) proof fn contents_are_told(parts: Seq<Tree>, u: Usage)
    ensures
        gemini::model_content(parts) == content_told(parts),
        gemini::usage_out(u) == usage_told(u),
{
    assert(gemini::model_content(parts)->Obj_0 =~= content_told(parts)->Obj_0);
    assert(gemini::usage_out(u)->Obj_0 =~= usage_told(u)->Obj_0);
}

/// An answer is told whole, as one candidate: every part of it in order, why it
/// stopped, and what it cost.
pub proof fn answers_are_told_whole(r: ResponseV)
    ensures
        gemini::response_body(r) == Tree::Obj(
            seq![
                (
                    "candidates"@,
                    Tree::Arr(
                        seq![
                            Tree::Obj(
                                seq![
                                    ("content"@, content_told(r.content.filter_map(part_told()))),
                                    (
                                        "finishReason"@,
                                        Tree::Str(
                                            if r.stop_reason == StopReason::MaxTokens {
                                                "MAX_TOKENS"@
                                            } else if r.stop_reason == StopReason::Refusal {
                                                "SAFETY"@
                                            } else {
                                                "STOP"@
                                            },
                                        ),
                                    ),
                                ],
                            ),
                        ],
                    ),
                ),
                ("usageMetadata"@, usage_told(r.usage)),
            ],
        ),
{
    told_parts_are_kept(r.content, r.content.len() as int);
    assert(r.content.take(r.content.len() as int) =~= r.content);
    let parts = r.content.filter_map(part_told());
    contents_are_told(parts, r.usage);
    let why = Tree::Str(gemini::finish_reason(r.stop_reason));
    let doc = seq![("content"@, content_told(parts)), ("finishReason"@, why)];
    assert(json::fs().with("content"@, content_told(parts)).with("finishReason"@, why) =~= doc);
    assert(Seq::empty().push(Tree::Obj(doc)) =~= seq![Tree::Obj(doc)]);
    assert(gemini::response_body(r)->Obj_0 =~= seq![
        ("candidates"@, Tree::Arr(seq![Tree::Obj(doc)])),
        ("usageMetadata"@, usage_told(r.usage)),
    ]);
}

// ------------------------------------------------------------------- streams

/// What a part of a chunk brings: words, or a call with its arguments.
pub open spec fn part_brings() -> spec_fn(Tree) -> Seq<EventV> {
    |p: Tree|
        {
            let call = p.at("functionCall"@);
            if p.at("text"@).text() is Some {
                seq![EventV::TextDelta { index: 0, text: p.at("text"@).text()->0 }]
            } else if call is Some {
                seq![
                    EventV::ToolUseStart {
                        index: 0,
                        id: call.at("id"@).text_or(Seq::empty()),
                        name: call.at("name"@).text_or(Seq::empty()),
                    },
                ] + (match call.at("args"@) {
                    Some(args) => seq![EventV::ToolUseDelta { index: 0, partial_json: json::rendered(args) }],
                    None => Seq::empty(),
                })
            } else {
                Seq::empty()
            }
        }
}

proof fn parts_bring(out: Seq<EventV>, ps: Seq<Tree>, i: int)
    requires
        0 <= i <= ps.len(),
    ensures
        gemini::parts_events(out, ps, i) == out + ps.skip(i).flat_map(part_brings()),
    decreases ps.len() - i,
{
    if i < ps.len() {
        laws::unfolding_first(ps, i, part_brings());
        assert(gemini::part_events(out, ps[i]) =~= out + part_brings()(ps[i]));
        parts_bring(out + part_brings()(ps[i]), ps, i + 1);
        let rest = ps.skip(i + 1).flat_map(part_brings());
        assert(out + part_brings()(ps[i]) + rest =~= out + (part_brings()(ps[i]) + rest));
    } else {
        laws::nothing_is_left(ps, |p: Tree| None::<EventV>, part_brings());
        assert(out + Seq::<EventV>::empty() =~= out);
    }
}

/// A chunk brings what every part of its first candidate brings, in order, behind the
/// start of an answer that was not begun and before its stop where it says why. The
/// usage it reports is known from then on.
pub proof fn chunks_are_read_whole(p: ParserV, v: Tree, id: Seq<char>)
    ensures
        ({
            let r = gemini::push_value(p, v, id);
            let all = v.at("candidates"@).list();
            let first = if all is Some && all->0.len() > 0 { Some(all->0[0]) } else { None };
            let parts = first.at("content"@).at("parts"@).list();
            let stops = first.at("finishReason"@) is Some;
            &&& r.out == (if p.started {
                Seq::empty()
            } else {
                seq![EventV::Start { id, model: p.model, usage: p.usage }]
            }) + (if parts is Some {
                parts->0.flat_map(part_brings())
            } else {
                Seq::empty()
            }) + (if stops {
                seq![EventV::Stop { stop_reason: StopReason::EndTurn, stop_sequence: None, usage: p.usage }]
            } else {
                Seq::empty()
            })
            &&& r.p == (ParserV {
                model: p.model,
                started: true,
                stopped: p.stopped || stops,
                usage: if v.at("usageMetadata"@) is Some {
                    gemini::usage_of(v.at("usageMetadata"@))
                } else {
                    p.usage
                },
            })
        }),
{
    let r = gemini::push_value(p, v, id);
    let first = gemini::first_candidate(v);
    let parts = first.at("content"@).at("parts"@).list();
    let begun = if p.started {
        Seq::empty()
    } else {
        seq![EventV::Start { id, model: p.model, usage: p.usage }]
    };
    assert((if p.started {
        Seq::<EventV>::empty()
    } else {
        Seq::empty().push(EventV::Start { id, model: p.model, usage: p.usage })
    }) =~= begun);
    let brought = if parts is Some { parts->0.flat_map(part_brings()) } else { Seq::empty() };
    if let Some(ps) = parts {
        parts_bring(begun, ps, 0);
        assert(ps.skip(0) =~= ps);
    }
    let stop = if first.at("finishReason"@) is Some {
        seq![EventV::Stop { stop_reason: StopReason::EndTurn, stop_sequence: None, usage: p.usage }]
    } else {
        Seq::empty()
    };
    assert(r.out =~= begun + brought + stop);
}

/// An empty frame and the mark of the end bring nothing, and what is no document is an
/// error. A stream that breaks off stops an answer that was begun.
pub proof fn frames_are_read(p: ParserV, f: FrameV, id: Seq<char>)
    ensures
        ({
            let data = text::trimmed(f.data);
            &&& data.len() == 0 || data == "[DONE]"@ ==> gemini::push_frame(p, f, id) == Ok::<Step, ErrorV>(
                Step { p, out: Seq::empty() },
            )
            &&& data.len() > 0 && data != "[DONE]"@ ==> match json::parsed(data) {
                Ok(v) => gemini::push_frame(p, f, id) == Ok::<Step, ErrorV>(gemini::push_value(p, v, id)),
                Err(e) => gemini::push_frame(p, f, id) is Err,
            }
        }),
        p.started && !p.stopped ==> gemini::finished(p).out == seq![
            EventV::Stop { stop_reason: StopReason::EndTurn, stop_sequence: None, usage: p.usage },
        ] && gemini::finished(p).p == (ParserV { stopped: true, ..p }),
        !p.started || p.stopped ==> gemini::finished(p) == (Step { p, out: Seq::empty() }),
{
    if p.started && !p.stopped {
        assert(gemini::finished(p).out =~= seq![gemini::stop_event(p.usage)]);
    }
}

/// A chunk with one part.
pub open spec fn chunk(part: Tree) -> FrameV {
    FrameV {
        event: None,
        data: json::rendered(
            one("candidates"@, Tree::Arr(seq![one("content"@, content_told(seq![part]))])),
        ),
    }
}

proof fn chunks_are_told(part: Tree)
    ensures
        gemini::part_frame(part) == chunk(part),
{
    assert(Seq::empty().push(part) =~= seq![part]);
    contents_are_told(seq![part], ir::no_usage());
    ones_are_one("content"@, content_told(seq![part]));
    let c = one("content"@, content_told(seq![part]));
    assert(Seq::empty().push(c) =~= seq![c]);
    ones_are_one("candidates"@, Tree::Arr(seq![c]));
}

/// Each piece of an answer is one chunk: its words whole, a call that begins by its id
/// and name, arguments as the document they are or else as raw text. The last chunk
/// stops the answer and tells what it cost.
pub proof fn events_are_told(
    e: EncoderV,
    index: u32,
    id: Seq<char>,
    name: Seq<char>,
    text: Seq<char>,
    reason: StopReason,
    sequence: Option<Seq<char>>,
    usage: Usage,
)
    ensures
        gemini::encoded_event(e, EventV::TextDelta { index, text }) == (Written {
            e,
            out: seq![chunk(one("text"@, Tree::Str(text)))],
        }),
        gemini::encoded_event(e, EventV::ToolUseStart { index, id, name }) == (Written {
            e,
            out: seq![chunk(call_sent(id, name, Tree::Obj(Seq::empty())))],
        }),
        gemini::encoded_event(e, EventV::ToolUseDelta { index, partial_json: text }) == (Written {
            e,
            out: seq![
                chunk(
                    call_sent(
                        "call_"@ + text::digits(index as nat),
                        Seq::empty(),
                        if json::parsed(text) is Ok {
                            json::parsed(text)->Ok_0
                        } else {
                            one("__raw"@, Tree::Str(text))
                        },
                    ),
                ),
            ],
        }),
        gemini::encoded_event(e, EventV::Stop { stop_reason: reason, stop_sequence: sequence, usage }) == (Written {
            e: EncoderV { done: true, ..e },
            out: seq![
                FrameV {
                    event: None,
                    data: json::rendered(
                        Tree::Obj(
                            seq![
                                (
                                    "candidates"@,
                                    Tree::Arr(
                                        seq![
                                            Tree::Obj(
                                                seq![
                                                    ("content"@, content_told(Seq::empty())),
                                                    ("finishReason"@, Tree::Str("STOP"@)),
                                                ],
                                            ),
                                        ],
                                    ),
                                ),
                                ("usageMetadata"@, usage_told(usage)),
                            ],
                        ),
                    ),
                },
            ],
        }),
{
    ones_are_one("text"@, Tree::Str(text));
    ones_are_one("__raw"@, Tree::Str(text));
    chunks_are_told(one("text"@, Tree::Str(text)));
    calls_are_sent(id, name, Tree::Obj(Seq::empty()));
    chunks_are_told(call_sent(id, name, Tree::Obj(Seq::empty())));
    let args = gemini::delta_args(text);
    let n = "call_"@ + text::digits(index as nat);
    calls_are_sent(n, Seq::empty(), args);
    chunks_are_told(call_sent(n, Seq::empty(), args));
    assert(gemini::encoded_event(e, EventV::TextDelta { index, text }).out =~= seq![
        chunk(one("text"@, Tree::Str(text))),
    ]);
    assert(gemini::encoded_event(e, EventV::ToolUseStart { index, id, name }).out =~= seq![
        chunk(call_sent(id, name, Tree::Obj(Seq::empty()))),
    ]);
    assert(gemini::encoded_event(e, EventV::ToolUseDelta { index, partial_json: text }).out =~= seq![
        chunk(call_sent(n, Seq::empty(), args)),
    ]);
    contents_are_told(Seq::empty(), usage);
    let last = seq![("content"@, content_told(Seq::empty())), ("finishReason"@, Tree::Str("STOP"@))];
    assert(json::fs().with("content"@, content_told(Seq::empty())).with("finishReason"@, json::st("STOP"@)) =~= last);
    assert(gemini::last_candidates()->Arr_0 =~= seq![Tree::Obj(last)]);
    let doc = seq![("candidates"@, Tree::Arr(seq![Tree::Obj(last)])), ("usageMetadata"@, usage_told(usage))];
    assert(json::fs().with("candidates"@, gemini::last_candidates()).with("usageMetadata"@, gemini::usage_out(usage))
        =~= doc);
    let frame = FrameV { event: None, data: json::rendered(Tree::Obj(doc)) };
    assert(Seq::empty().push(frame) =~= seq![frame]);
}

} // verus!
