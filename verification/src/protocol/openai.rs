//! OpenAI Chat Completions dialect, also used for every "OpenAI compatible"
//! provider such as DeepSeek, Groq, Ollama, vLLM and OpenRouter.
//!
//! The tricky direction is OpenAI -> canonical: chunks carry no block
//! structure, so [`OpenAiStreamParser`] synthesises Anthropic style block
//! indices with a small state machine.

use crate::draw;
use crate::error;
use crate::error::{Error, ErrorV};
use crate::ir;
use crate::ir::{
    BlockV, ChatRequest, ChatResponse, ChoiceV, ContentBlock, Dialect, EventV, MediaSource, Message, MessageV, PartV,
    RequestV, ResponseV, Role, SourceV, StopReason, StreamEvent, SystemPart, SystemV, ThinkingConfig, ToolChoice,
    ToolDef, ToolResultPart, ToolV, UnsupportedContentPolicy, Usage,
};
use crate::json;
use crate::json::{array, array1, js, whole, At, Build, Fields, Json, Lookup, Tree};
use crate::protocol;
use crate::protocol::reasoning_bridge;
use crate::protocol::sse::{FrameV, SseFrame};
use crate::protocol::{bump, normalize_audio_format, policy_text, ProviderQuirks, StreamEncoder, StreamParser};
use crate::text;
use crate::text::{concat, same, trim};
use crate::views;
use vstd::prelude::*;

verus! {

broadcast use crate::views::group_views;

// -------------------------------------------------------------- request in

/// The fields that the canonical form knows.
pub open spec fn known_key(k: Seq<char>) -> bool {
    ||| k == "model"@
    ||| k == "messages"@
    ||| k == "max_tokens"@
    ||| k == "max_completion_tokens"@
    ||| k == "temperature"@
    ||| k == "top_p"@
    ||| k == "stop"@
    ||| k == "stream"@
    ||| k == "stream_options"@
    ||| k == "tools"@
    ||| k == "tool_choice"@
    ||| k == "functions"@
    ||| k == "function_call"@
    ||| k == "reasoning_effort"@
    ||| k == "user"@
    ||| k == "n"@
}

fn is_known_key(k: &str) -> (r: bool)
    ensures
        r == known_key(k@),
{
    same(k, "model") || same(k, "messages") || same(k, "max_tokens") || same(k, "max_completion_tokens") || same(
        k,
        "temperature",
    ) || same(k, "top_p") || same(k, "stop") || same(k, "stream") || same(k, "stream_options") || same(k, "tools")
        || same(k, "tool_choice") || same(k, "functions") || same(k, "function_call") || same(k, "reasoning_effort")
        || same(k, "user") || same(k, "n")
}

/// The text of one content part.
pub open spec fn piece(p: Tree) -> Seq<char> {
    match p {
        Tree::Str(s) => s,
        _ => p.at("text"@).text_or(Seq::empty()),
    }
}

pub open spec fn pieces(parts: Seq<Tree>, i: int, acc: Seq<char>) -> Seq<char>
    decreases parts.len() - i,
{
    if i < 0 || i >= parts.len() {
        acc
    } else {
        pieces(parts, i + 1, acc + piece(parts[i]))
    }
}

/// Content as plain text: a string, or the text of its parts one after the other.
pub open spec fn flat(c: Option<Tree>) -> Option<Seq<char>> {
    match c {
        Some(Tree::Str(s)) => Some(s),
        Some(Tree::Arr(parts)) => Some(pieces(parts, 0, Seq::empty())),
        _ => None,
    }
}

pub(crate) fn flatten_content(c: At<'_>) -> (r: Option<String>)
    ensures
        views::opt(r) == flat(c@),
{
    if let Some(s) = c.text() {
        return Some(s.to_owned());
    }
    let parts = match c.list() {
        Some(p) => p,
        None => {
            return None;
        },
    };
    let ghost trees = views::of(parts@);
    let mut out = String::new();
    assert(out@ =~= Seq::empty());
    for i in 0..parts.len()
        invariant
            trees == views::of(parts@),
            pieces(trees, 0, Seq::empty()) == pieces(trees, i as int, out@),
    {
        let p: &Json = &parts[i];
        assert(trees[i as int] == p@);
        let ghost before = out@;
        match p {
            Json::Str(s) => out.append(s.as_str()),
            _ => {
                let t = p.at("text").string();
                out.append(t.as_str());
            },
        }
        assert(out@ == before + piece(p@));
    }
    Some(out)
}

/// The block of one part of a user turn.
pub open spec fn user_part(p: Tree) -> Option<BlockV> {
    match p.at("type"@).text() {
        None => match p.at("text"@).text() {
            Some(t) => Some(ir::text_block(t)),
            None => None,
        },
        Some(kind) => if kind == "text"@ {
            match p.at("text"@).text() {
                Some(t) => Some(ir::text_block(t)),
                None => None,
            }
        } else if kind == "image_url"@ {
            match p.at("image_url"@).at("url"@).text() {
                Some(url) => Some(BlockV::Image { source: ir::source_of_url(url) }),
                None => None,
            }
        } else if kind == "input_audio"@ {
            match p.at("input_audio"@) {
                Some(audio) => {
                    let media_type = "audio/"@ + audio.at("format"@).text_or("wav"@);
                    Some(
                        BlockV::Audio {
                            source: SourceV::Base64 { media_type, data: audio.at("data"@).text_or(Seq::empty()) },
                            media_type,
                        },
                    )
                },
                None => None,
            }
        } else {
            None
        },
    }
}

fn decode_user_part(p: &Json) -> (r: Option<ContentBlock>)
    ensures
        views::opt(r) == user_part(p@),
{
    let kind = match p.at("type").text() {
        Some(k) => k,
        None => "text",
    };
    if same(kind, "text") {
        match p.at("text").text() {
            Some(t) => Some(ContentBlock::text(t)),
            None => None,
        }
    } else if same(kind, "image_url") {
        match p.at("image_url").at("url").text() {
            Some(url) => Some(ContentBlock::Image { source: MediaSource::from_url(url) }),
            None => None,
        }
    } else if same(kind, "input_audio") {
        let audio = p.at("input_audio");
        if audio.is_some() {
            let media_type = concat("audio/", audio.at("format").string_or("wav").as_str());
            Some(
                ContentBlock::Audio {
                    source: MediaSource::Base64 { media_type: media_type.clone(), data: audio.at("data").string() },
                    media_type,
                },
            )
        } else {
            None
        }
    } else {
        None
    }
}

pub open spec fn user_parts(parts: Seq<Tree>, i: int, acc: Seq<BlockV>) -> Seq<BlockV>
    decreases parts.len() - i,
{
    if i < 0 || i >= parts.len() {
        acc
    } else {
        match user_part(parts[i]) {
            Some(b) => user_parts(parts, i + 1, acc.push(b)),
            None => user_parts(parts, i + 1, acc),
        }
    }
}

/// The blocks of a user turn.
pub open spec fn user_blocks(c: Option<Tree>) -> Result<Seq<BlockV>, ErrorV> {
    match c {
        Some(Tree::Str(s)) => Ok(Seq::empty().push(ir::text_block(s))),
        Some(Tree::Arr(parts)) => Ok(user_parts(parts, 0, Seq::empty())),
        Some(Tree::Null) | None => Ok(Seq::empty()),
        Some(_) => Err(ErrorV::InvalidRequest("`content` must be a string or an array"@)),
    }
}

fn decode_user_content(c: At<'_>) -> (r: Result<Vec<ContentBlock>, Error>)
    ensures
        match r {
            Ok(v) => user_blocks(c@) == Ok::<Seq<BlockV>, ErrorV>(views::of(v@)),
            Err(e) => user_blocks(c@) == Err::<Seq<BlockV>, ErrorV>(e@),
        },
{
    let mut out: Vec<ContentBlock> = Vec::new();
    if let Some(s) = c.text() {
        out.push(ContentBlock::text(s));
        return Ok(out);
    }
    if let Some(parts) = c.list() {
        let ghost trees = views::of(parts@);
        for i in 0..parts.len()
            invariant
                trees == views::of(parts@),
                user_parts(trees, 0, Seq::empty()) == user_parts(trees, i as int, views::of(out@)),
        {
            assert(trees[i as int] == parts@[i as int]@);
            if let Some(b) = decode_user_part(&parts[i]) {
                out.push(b);
            }
        }
        return Ok(out);
    }
    if c.not_null().is_some() {
        Err(Error::invalid("`content` must be a string or an array"))
    } else {
        Ok(out)
    }
}

/// A tool call's arguments. What is not JSON is kept as it stands.
pub open spec fn arguments_of(args: Option<Seq<char>>) -> Tree {
    match args {
        Some(s) => if text::trimmed(s).len() > 0 {
            match json::parsed(s) {
                Ok(t) => t,
                Err(_) => Tree::Str(s),
            }
        } else {
            Tree::Obj(json::fs())
        },
        None => Tree::Obj(json::fs()),
    }
}

pub(crate) fn parse_arguments(args: Option<&str>) -> (r: Json)
    ensures
        r@ == arguments_of(views::opt_str(args)),
{
    match args {
        Some(s) => {
            if trim(s).unicode_len() > 0 {
                match json::parse(s) {
                    Ok(v) => v,
                    Err(_) => js(s),
                }
            } else {
                Fields::new().done()
            }
        },
        None => Fields::new().done(),
    }
}

/// The arguments of a tool call as a string: kept text as it stands, anything else as JSON.
pub open spec fn arguments_text(input: Tree) -> Seq<char> {
    match input {
        Tree::Str(s) => s,
        _ => json::rendered(input),
    }
}

/// Render a tool-use `input` value back into the `arguments` JSON string.
///
/// Arguments that could not be parsed are kept as raw text, and are given back
/// unchanged.
pub(crate) fn arguments_json(input: &Json) -> (r: String)
    ensures
        r@ == arguments_text(input@),
{
    match input {
        Json::Str(s) => s.clone(),
        _ => json::render(input),
    }
}

/// A tool call in the history.
pub open spec fn called(c: Tree, id: Seq<char>) -> BlockV {
    BlockV::ToolUse {
        id,
        name: c.at("function"@).at("name"@).text_or(Seq::empty()),
        input: arguments_of(c.at("function"@).at("arguments"@).text()),
    }
}

fn decode_call(c: &Json, id: String) -> (r: ContentBlock)
    ensures
        r@ == called(c@, id@),
{
    let f = c.at("function");
    ContentBlock::ToolUse { id, name: f.at("name").string(), input: parse_arguments(f.at("arguments").text()) }
}

pub open spec fn calls(cs: Seq<Tree>, i: int, acc: Seq<BlockV>) -> Seq<BlockV>
    decreases cs.len() - i,
{
    if i < 0 || i >= cs.len() {
        acc
    } else {
        calls(cs, i + 1, acc.push(called(cs[i], cs[i].at("id"@).text_or(Seq::empty()))))
    }
}

pub open spec fn bridged(items: Seq<Tree>, i: int, acc: Seq<BlockV>) -> Seq<BlockV>
    decreases items.len() - i,
{
    if i < 0 || i >= items.len() {
        acc
    } else {
        match reasoning_bridge::block_of(items[i]) {
            Some(b) => bridged(items, i + 1, acc.push(b)),
            None => bridged(items, i + 1, acc),
        }
    }
}

/// The reasoning text of a turn, under either of the names it goes by.
pub open spec fn reasoning_text(m: Tree) -> Option<Seq<char>> {
    match m.at("reasoning_content"@).words() {
        Some(s) => Some(s),
        None => m.at("reasoning"@).words(),
    }
}

/// The blocks of an assistant turn: reasoning first, then text, then tool calls.
pub open spec fn assistant_blocks(m: Tree) -> Seq<BlockV> {
    let a = match reasoning_text(m) {
        Some(t) => Seq::empty().push(BlockV::Thinking { text: t, signature: None }),
        None => Seq::empty(),
    };
    let b = match m.at("reasoning"@).list() {
        Some(items) => bridged(items, 0, a),
        None => a,
    };
    let c = match flat(m.at("content"@)) {
        Some(t) => if t.len() > 0 { b.push(ir::text_block(t)) } else { b },
        None => b,
    };
    match m.at("tool_calls"@).list() {
        Some(cs) => calls(cs, 0, c),
        None => c,
    }
}

fn decode_assistant(m: &Json) -> (r: Vec<ContentBlock>)
    ensures
        views::of(r@) == assistant_blocks(m@),
{
    let mut content: Vec<ContentBlock> = Vec::new();
    if let Some(t) = m.at("reasoning_content").words() {
        content.push(ContentBlock::Thinking { text: t.to_owned(), signature: None });
    } else if let Some(t) = m.at("reasoning").words() {
        content.push(ContentBlock::Thinking { text: t.to_owned(), signature: None });
    }
    let ghost a = views::of(content@);
    if let Some(items) = m.at("reasoning").list() {
        let ghost trees = views::of(items@);
        for i in 0..items.len()
            invariant
                trees == views::of(items@),
                bridged(trees, 0, a) == bridged(trees, i as int, views::of(content@)),
        {
            assert(trees[i as int] == items@[i as int]@);
            if let Some(b) = reasoning_bridge::decode_reasoning_item(&items[i]) {
                content.push(b);
            }
        }
    }
    if let Some(t) = flatten_content(m.at("content")) {
        if t.as_str().unicode_len() > 0 {
            content.push(ContentBlock::text(t.as_str()));
        }
    }
    let ghost c = views::of(content@);
    if let Some(cs) = m.at("tool_calls").list() {
        let ghost trees = views::of(cs@);
        for i in 0..cs.len()
            invariant
                trees == views::of(cs@),
                calls(trees, 0, c) == calls(trees, i as int, views::of(content@)),
        {
            assert(trees[i as int] == cs@[i as int]@);
            let id = cs[i].at("id").string();
            content.push(decode_call(&cs[i], id));
        }
    }
    content
}

/// What the messages read so far add up to.
pub struct Conversation {
    pub system: Seq<SystemV>,
    pub messages: Seq<MessageV>,
}

/// A turn that holds tool results and nothing else.
pub open spec fn only_results(m: MessageV) -> bool {
    m.role == Role::User && forall|i: int| 0 <= i < m.content.len() ==> (#[trigger] m.content[i]) is ToolResult
}

/// A tool result joins the results right before it; otherwise it starts a user turn.
pub open spec fn with_result(ms: Seq<MessageV>, b: BlockV) -> Seq<MessageV> {
    if ms.len() > 0 && only_results(ms.last()) {
        ms.drop_last().push(MessageV { role: Role::User, content: ms.last().content.push(b) })
    } else {
        ms.push(MessageV { role: Role::User, content: Seq::empty().push(b) })
    }
}

/// The tool result of one message.
pub open spec fn result_block(m: Tree) -> BlockV {
    BlockV::ToolResult {
        tool_use_id: m.at("tool_call_id"@).text_or(Seq::empty()),
        name: Seq::empty(),
        content: Seq::empty().push(
            PartV::Text {
                text: match flat(m.at("content"@)) {
                    Some(t) => t,
                    None => Seq::empty(),
                },
            },
        ),
        is_error: false,
    }
}

/// One message more.
pub open spec fn turn(c: Conversation, m: Tree) -> Result<Conversation, ErrorV> {
    let role = m.at("role"@).text_or("user"@);
    if role == "system"@ || role == "developer"@ {
        match flat(m.at("content"@)) {
            Some(t) => Ok(Conversation { system: c.system.push(ir::system_part(t)), messages: c.messages }),
            None => Ok(c),
        }
    } else if role == "tool"@ || role == "function"@ {
        Ok(Conversation { system: c.system, messages: with_result(c.messages, result_block(m)) })
    } else if role == "assistant"@ {
        Ok(
            Conversation {
                system: c.system,
                messages: c.messages.push(MessageV { role: Role::Assistant, content: assistant_blocks(m) }),
            },
        )
    } else {
        match user_blocks(m.at("content"@)) {
            Ok(content) => Ok(
                Conversation {
                    system: c.system,
                    messages: c.messages.push(MessageV { role: Role::User, content }),
                },
            ),
            Err(e) => Err(e),
        }
    }
}

pub open spec fn turns(c: Conversation, ms: Seq<Tree>, i: int) -> Result<Conversation, ErrorV>
    decreases ms.len() - i,
{
    if i < 0 || i >= ms.len() {
        Ok(c)
    } else {
        match turn(c, ms[i]) {
            Ok(next) => turns(next, ms, i + 1),
            Err(e) => Err(e),
        }
    }
}

pub open spec fn no_conversation() -> Conversation {
    Conversation { system: Seq::empty(), messages: Seq::empty() }
}

pub open spec fn conversation(req: RequestV) -> Conversation {
    Conversation { system: req.system, messages: req.messages }
}

fn holds_only_results(m: &Message) -> (r: bool)
    ensures
        r == only_results(m@),
{
    if m.role != Role::User {
        return false;
    }
    for i in 0..m.content.len()
        invariant
            m.role == Role::User,
            forall|j: int| 0 <= j < i ==> (#[trigger] m@.content[j]) is ToolResult,
    {
        match &m.content[i] {
            ContentBlock::ToolResult { .. } => {},
            _ => {
                assert(!(m@.content[i as int] is ToolResult));
                return false;
            },
        }
    }
    true
}

fn push_result(ms: &mut Vec<Message>, b: ContentBlock)
    ensures
        views::of(final(ms)@) == with_result(views::of(old(ms)@), b@),
{
    let n: usize = ms.len();
    if n > 0 && holds_only_results(&ms[n - 1]) {
        let ghost before = ms@;
        let mut last = match ms.pop() {
            Some(m) => m,
            None => Message { role: Role::User, content: Vec::new() },
        };
        let ghost content = last.content@;
        last.content.push(b);
        ms.push(last);
        assert(views::of(before).drop_last() =~= views::of(before.drop_last()));
        assert(views::of(ms@) =~= with_result(views::of(before), b@));
    } else {
        let mut content: Vec<ContentBlock> = Vec::new();
        content.push(b);
        ms.push(Message { role: Role::User, content });
    }
}

fn decode_turn(req: &mut ChatRequest, m: &Json) -> (r: Result<(), Error>)
    ensures
        match r {
            Ok(_) => {
                &&& turn(conversation(old(req)@), m@) == Ok::<Conversation, ErrorV>(conversation(final(req)@))
                &&& final(req)@ == (RequestV {
                    system: final(req)@.system,
                    messages: final(req)@.messages,
                    ..old(req)@
                })
            },
            Err(e) => turn(conversation(old(req)@), m@) == Err::<Conversation, ErrorV>(e@),
        },
{
    let role = match m.at("role").text() {
        Some(r) => r,
        None => "user",
    };
    if same(role, "system") || same(role, "developer") {
        if let Some(t) = flatten_content(m.at("content")) {
            req.system.push(SystemPart::new(t.as_str()));
        }
    } else if same(role, "tool") || same(role, "function") {
        let t = match flatten_content(m.at("content")) {
            Some(t) => t,
            None => String::new(),
        };
        let mut content: Vec<ToolResultPart> = Vec::new();
        content.push(ToolResultPart::Text { text: t });
        let b = ContentBlock::ToolResult {
            tool_use_id: m.at("tool_call_id").string(),
            name: String::new(),
            content,
            is_error: false,
        };
        push_result(&mut req.messages, b);
    } else if same(role, "assistant") {
        req.messages.push(Message { role: Role::Assistant, content: decode_assistant(m) });
    } else {
        match decode_user_content(m.at("content")) {
            Ok(content) => req.messages.push(Message { role: Role::User, content }),
            Err(e) => {
                return Err(e);
            },
        }
    }
    Ok(())
}

pub open spec fn texts(a: Seq<Tree>, i: int, acc: Seq<Seq<char>>) -> Seq<Seq<char>>
    decreases a.len() - i,
{
    if i < 0 || i >= a.len() {
        acc
    } else {
        match a[i] {
            Tree::Str(s) => texts(a, i + 1, acc.push(s)),
            _ => texts(a, i + 1, acc),
        }
    }
}

/// Stop sequences: one string, or the strings of a list.
pub open spec fn stops(v: Option<Tree>) -> Seq<Seq<char>> {
    match v {
        Some(Tree::Str(s)) => Seq::empty().push(s),
        Some(Tree::Arr(a)) => texts(a, 0, Seq::empty()),
        _ => Seq::empty(),
    }
}

/// The strings of a list.
pub(crate) fn decode_texts(a: &Vec<Json>) -> (r: Vec<String>)
    ensures
        views::of(r@) == texts(views::of(a@), 0, Seq::empty()),
{
    let ghost trees = views::of(a@);
    let mut out: Vec<String> = Vec::new();
    for i in 0..a.len()
        invariant
            trees == views::of(a@),
            texts(trees, 0, Seq::empty()) == texts(trees, i as int, views::of(out@)),
    {
        assert(trees[i as int] == a@[i as int]@);
        match &a[i] {
            Json::Str(s) => out.push(s.clone()),
            _ => {},
        }
    }
    out
}

pub(crate) fn decode_stops(v: At<'_>) -> (r: Vec<String>)
    ensures
        views::of(r@) == stops(v@),
{
    if let Some(s) = v.text() {
        let mut out: Vec<String> = Vec::new();
        out.push(s.to_owned());
        out
    } else if let Some(a) = v.list() {
        decode_texts(a)
    } else {
        Vec::new()
    }
}

pub open spec fn object_schema() -> Tree {
    Tree::Obj(json::fs().with("type"@, json::st("object"@)))
}

/// A tool definition; one without a name is skipped.
pub open spec fn tool(t: Tree) -> Option<ToolV> {
    let f = match t.at("function"@) {
        Some(f) => f,
        None => t,
    };
    match f.at("name"@).text() {
        Some(name) => Some(
            ToolV {
                name,
                description: f.at("description"@).text(),
                input_schema: match f.at("parameters"@) {
                    Some(p) => p,
                    None => object_schema(),
                },
                cache_control: None,
            },
        ),
        None => None,
    }
}

fn decode_tool(t: &Json) -> (r: Option<ToolDef>)
    ensures
        views::opt(r) == tool(t@),
{
    let f = t.at("function").or_else_at(t.here());
    match f.at("name").text() {
        Some(name) => Some(
            ToolDef {
                name: name.to_owned(),
                description: f.at("description").opt_string(),
                input_schema: match f.at("parameters").copied() {
                    Some(p) => p,
                    None => Fields::new().with("type", js("object")).done(),
                },
                cache_control: None,
            },
        ),
        None => None,
    }
}

pub open spec fn tools(ts: Seq<Tree>, i: int, acc: Seq<ToolV>) -> Seq<ToolV>
    decreases ts.len() - i,
{
    if i < 0 || i >= ts.len() {
        acc
    } else {
        match tool(ts[i]) {
            Some(t) => tools(ts, i + 1, acc.push(t)),
            None => tools(ts, i + 1, acc),
        }
    }
}

fn decode_tools(v: At<'_>) -> (r: Vec<ToolDef>)
    ensures
        views::of(r@) == match v@.list() {
            Some(ts) => tools(ts, 0, Seq::empty()),
            None => Seq::empty(),
        },
{
    let mut out: Vec<ToolDef> = Vec::new();
    if let Some(ts) = v.list() {
        let ghost trees = views::of(ts@);
        for i in 0..ts.len()
            invariant
                trees == views::of(ts@),
                tools(trees, 0, Seq::empty()) == tools(trees, i as int, views::of(out@)),
        {
            assert(trees[i as int] == ts@[i as int]@);
            if let Some(t) = decode_tool(&ts[i]) {
                out.push(t);
            }
        }
    }
    out
}

pub open spec fn choice(v: Option<Tree>) -> Option<ChoiceV> {
    match v {
        Some(Tree::Str(s)) => if s == "auto"@ {
            Some(ChoiceV::Auto)
        } else if s == "none"@ {
            Some(ChoiceV::NoTool)
        } else if s == "required"@ || s == "any"@ {
            Some(ChoiceV::Any)
        } else {
            None
        },
        _ => match v.at("function"@).at("name"@).text() {
            Some(name) => Some(ChoiceV::Specific { name }),
            None => None,
        },
    }
}

fn decode_choice(v: At<'_>) -> (r: Option<ToolChoice>)
    ensures
        views::opt(r) == choice(v@),
{
    match v.text() {
        Some(s) => if same(s, "auto") {
            Some(ToolChoice::Auto)
        } else if same(s, "none") {
            Some(ToolChoice::NoTool)
        } else if same(s, "required") || same(s, "any") {
            Some(ToolChoice::Any)
        } else {
            None
        },
        None => match v.at("function").at("name").opt_string() {
            Some(name) => Some(ToolChoice::Specific { name }),
            None => None,
        },
    }
}

/// Reasoning effort as a thinking budget.
pub open spec fn effort(v: Option<Seq<char>>) -> Option<ThinkingConfig> {
    match v {
        Some(e) => Some(
            if e == "none"@ || e == "minimal"@ {
                ThinkingConfig { enabled: false, budget_tokens: None }
            } else if e == "low"@ {
                ThinkingConfig { enabled: true, budget_tokens: Some(1024) }
            } else if e == "high"@ {
                ThinkingConfig { enabled: true, budget_tokens: Some(16384) }
            } else {
                ThinkingConfig { enabled: true, budget_tokens: Some(4096) }
            },
        ),
        None => None,
    }
}

pub(crate) fn decode_effort(v: Option<&str>) -> (r: Option<ThinkingConfig>)
    ensures
        r == effort(views::opt_str(v)),
{
    match v {
        Some(e) => Some(
            if same(e, "none") || same(e, "minimal") {
                ThinkingConfig { enabled: false, budget_tokens: None }
            } else if same(e, "low") {
                ThinkingConfig { enabled: true, budget_tokens: Some(1024) }
            } else if same(e, "high") {
                ThinkingConfig { enabled: true, budget_tokens: Some(16384) }
            } else {
                ThinkingConfig { enabled: true, budget_tokens: Some(4096) }
            },
        ),
        None => None,
    }
}

/// The fields that the canonical form does not know.
pub open spec fn unknown_fields(m: Seq<(Seq<char>, Tree)>, i: int, acc: Seq<(Seq<char>, Tree)>) -> Seq<
    (Seq<char>, Tree),
>
    decreases m.len() - i,
{
    if i < 0 || i >= m.len() {
        acc
    } else if known_key(m[i].0) {
        unknown_fields(m, i + 1, acc)
    } else {
        unknown_fields(m, i + 1, acc.set(m[i].0, m[i].1))
    }
}

fn decode_unknown(m: &Vec<(String, Json)>) -> (r: Fields)
    ensures
        r@ == unknown_fields(views::of(m@), 0, json::fs()),
{
    let ghost trees = views::of(m@);
    let mut out = Fields::new();
    for i in 0..m.len()
        invariant
            trees == views::of(m@),
            unknown_fields(trees, 0, json::fs()) == unknown_fields(trees, i as int, out@),
    {
        assert(trees[i as int] == (m@[i as int].0@, m@[i as int].1@));
        if !is_known_key(m[i].0.as_str()) {
            out.put(m[i].0.as_str(), m[i].1.clone());
        }
    }
    out
}

/// The request that a body holds.
pub open spec fn request_of(body: Tree) -> Result<RequestV, ErrorV> {
    match Some(body).fields() {
        None => Err(ErrorV::InvalidRequest("request body must be a JSON object"@)),
        Some(obj) => match body.at("model"@).text() {
            None => Err(ErrorV::InvalidRequest("`model` is required"@)),
            Some(model) => match body.at("messages"@).list() {
                None => Err(ErrorV::InvalidRequest("`messages` is required"@)),
                Some(ms) => match turns(no_conversation(), ms, 0) {
                    Err(e) => Err(e),
                    Ok(c) => Ok(
                        RequestV {
                            model,
                            source_dialect: Dialect::OpenAI,
                            system: c.system,
                            messages: c.messages,
                            max_tokens: body.at("max_completion_tokens"@).or_else_at(
                                body.at("max_tokens"@),
                            ).limit(),
                            temperature: body.at("temperature"@).float(),
                            top_p: body.at("top_p"@).float(),
                            top_k: None,
                            stop_sequences: stops(body.at("stop"@)),
                            stream: body.at("stream"@).flag() == Some(true),
                            tools: match body.at("tools"@).list() {
                                Some(ts) => tools(ts, 0, Seq::empty()),
                                None => Seq::empty(),
                            },
                            tool_choice: choice(body.at("tool_choice"@)),
                            thinking: effort(body.at("reasoning_effort"@).text()),
                            metadata_user: body.at("user"@).text(),
                            passthrough: unknown_fields(obj, 0, json::fs()),
                            unsupported_content_policy: UnsupportedContentPolicy::Drop,
                        },
                    ),
                },
            },
        },
    }
}

pub(crate) fn is_true(b: Option<bool>) -> (r: bool)
    ensures
        r == (b == Some(true)),
{
    match b {
        Some(x) => x,
        None => false,
    }
}

/// Decode a Chat Completions request.
pub fn decode_request(body: Json) -> (r: Result<ChatRequest, Error>)
    ensures
        error::outcome(r) == request_of(body@),
{
    let obj = match body.here().fields() {
        Some(o) => o,
        None => {
            return Err(Error::invalid("request body must be a JSON object"));
        },
    };
    let model = match body.at("model").text() {
        Some(m) => m,
        None => {
            return Err(Error::invalid("`model` is required"));
        },
    };
    let mut req = ChatRequest::new(model, Dialect::OpenAI);
    let messages = match body.at("messages").list() {
        Some(m) => m,
        None => {
            return Err(Error::invalid("`messages` is required"));
        },
    };
    let ghost trees = views::of(messages@);
    assert(conversation(req@) == no_conversation());
    for i in 0..messages.len()
        invariant
            trees == views::of(messages@),
            turns(no_conversation(), trees, 0) == turns(conversation(req@), trees, i as int),
            req@ == (RequestV {
                system: req@.system,
                messages: req@.messages,
                ..ir::empty_request(model@, Dialect::OpenAI)
            }),
            body@.at("model"@).text() == Some(model@),
            body@.at("messages"@).list() == Some(trees),
            Some(body@).fields() is Some,
    {
        assert(trees[i as int] == messages@[i as int]@);
        match decode_turn(&mut req, &messages[i]) {
            Ok(_) => {},
            Err(e) => {
                return Err(e);
            },
        }
    }
    req.max_tokens = body.at("max_completion_tokens").or_else_at(body.at("max_tokens")).limit();
    req.temperature = body.at("temperature").float();
    req.top_p = body.at("top_p").float();
    req.stream = is_true(body.at("stream").flag());
    req.stop_sequences = decode_stops(body.at("stop"));
    req.tools = decode_tools(body.at("tools"));
    req.tool_choice = decode_choice(body.at("tool_choice"));
    req.thinking = decode_effort(body.at("reasoning_effort").text());
    req.metadata_user = body.at("user").opt_string();
    req.passthrough = decode_unknown(obj);
    Ok(req)
}

/// True when the client asked for a usage chunk at the end of the stream.
pub fn wants_stream_usage(body: &Json) -> (r: bool)
    ensures
        r == (body@.at("stream_options"@).at("include_usage"@).flag() == Some(true)),
{
    is_true(body.at("stream_options").at("include_usage").flag())
}

// ------------------------------------------------------------- request out

/// The texts of the parts of a system prompt.
pub open spec fn system_texts(system: Seq<SystemV>) -> Seq<Seq<char>> {
    Seq::new(system.len(), |i: int| system[i].text)
}

/// The OpenAI dialect has no block structure on the system prompt, so the
/// parts are flattened back to text. A `cache_control` marker on a part is an
/// Anthropic concept and has no wire representation here; it simply does not
/// survive this direction.
pub(crate) fn system_text(system: &Vec<SystemPart>) -> (r: String)
    ensures
        r@ == text::joined(system_texts(views::of(system@)), "\n\n"@),
{
    let mut parts: Vec<String> = Vec::new();
    for i in 0..system.len()
        invariant
            parts@.len() == i,
            forall|j: int| 0 <= j < i ==> (#[trigger] parts@[j])@ == system@[j].text@,
    {
        parts.push(system[i].text.clone());
    }
    assert(views::of(parts@) =~= system_texts(views::of(system@)));
    text::join(&parts, "\n\n")
}

/// What an assistant turn says, gathered block by block.
pub struct Said {
    pub text: Seq<char>,
    pub reasoning: Seq<char>,
    pub items: Seq<Tree>,
    pub calls: Seq<Tree>,
}

/// A tool call on the wire.
pub open spec fn call_out(id: Seq<char>, name: Seq<char>, input: Tree) -> Tree {
    Tree::Obj(
        json::fs().with("id"@, json::st(id)).with("type"@, json::st("function"@)).with(
            "function"@,
            Tree::Obj(
                json::fs().with("name"@, json::st(name)).with("arguments"@, json::st(arguments_text(input))),
            ),
        ),
    )
}

/// One block of an assistant turn more.
///
/// Thinking is echoed only when the client itself sent reasoning: some gateways
/// require history turns to carry `reasoning_content` back, and most providers
/// reject it from elsewhere.
pub open spec fn say(s: Said, b: BlockV, echo: bool, policy: UnsupportedContentPolicy) -> Result<Said, ErrorV> {
    match b {
        BlockV::Text { text, .. } => Ok(Said { text: s.text + text, ..s }),
        BlockV::ToolUse { id, name, input } => Ok(Said { calls: s.calls.push(call_out(id, name, input)), ..s }),
        BlockV::Thinking { text, .. } => if echo {
            match reasoning_bridge::item_of(b) {
                Some(item) => Ok(Said { items: s.items.push(item), ..s }),
                None => Ok(Said { reasoning: s.reasoning + text, ..s }),
            }
        } else {
            Ok(s)
        },
        BlockV::RedactedThinking { .. } => if echo {
            match reasoning_bridge::item_of(b) {
                Some(item) => Ok(Said { items: s.items.push(item), ..s }),
                None => Ok(s),
            }
        } else {
            Ok(s)
        },
        BlockV::Audio { .. } | BlockV::File { .. } | BlockV::Video { .. } | BlockV::Citation { .. }
        | BlockV::Annotation { .. } => match protocol::stand_in_text(policy, b) {
            Ok(Some(t)) => Ok(Said { text: s.text + t, ..s }),
            Ok(None) => Ok(s),
            Err(e) => Err(e),
        },
        _ => Ok(s),
    }
}

pub open spec fn say_all(
    s: Said,
    bs: Seq<BlockV>,
    i: int,
    echo: bool,
    policy: UnsupportedContentPolicy,
) -> Result<Said, ErrorV>
    decreases bs.len() - i,
{
    if i < 0 || i >= bs.len() {
        Ok(s)
    } else {
        match say(s, bs[i], echo, policy) {
            Ok(next) => say_all(next, bs, i + 1, echo, policy),
            Err(e) => Err(e),
        }
    }
}

/// Reasoning of another dialect is not echoed: saying a turn adds none.
pub proof fn foreign_reasoning_is_not_echoed(s: Said, bs: Seq<BlockV>, i: int, policy: UnsupportedContentPolicy)
    ensures
        say_all(s, bs, i, false, policy) matches Ok(t) ==> t.reasoning == s.reasoning && t.items == s.items,
    decreases bs.len() - i,
{
    if 0 <= i < bs.len() {
        if let Ok(next) = say(s, bs[i], false, policy) {
            foreign_reasoning_is_not_echoed(next, bs, i + 1, policy);
        }
    }
}

pub open spec fn nothing_said() -> Said {
    Said { text: Seq::empty(), reasoning: Seq::empty(), items: Seq::empty(), calls: Seq::empty() }
}

/// The assistant message for what was said.
pub open spec fn assistant_message(s: Said) -> Tree {
    let m = json::fs().set("role"@, json::st("assistant"@)).set(
        "content"@,
        if s.text.len() == 0 && s.calls.len() > 0 {
            Tree::Null
        } else {
            json::st(s.text)
        },
    );
    let m = if s.reasoning.len() > 0 { m.set("reasoning_content"@, json::st(s.reasoning)) } else { m };
    let m = if s.items.len() > 0 { m.set("reasoning"@, Tree::Arr(s.items)) } else { m };
    let m = if s.calls.len() > 0 { m.set("tool_calls"@, Tree::Arr(s.calls)) } else { m };
    Tree::Obj(m)
}

struct Assistant {
    text: String,
    reasoning: String,
    items: Vec<Json>,
    calls: Vec<Json>,
}

impl View for Assistant {
    type V = Said;

    closed spec fn view(&self) -> Said {
        Said {
            text: self.text@,
            reasoning: self.reasoning@,
            items: views::of(self.items@),
            calls: views::of(self.calls@),
        }
    }
}

fn encode_call(id: &str, name: &str, input: &Json) -> (r: Json)
    ensures
        r@ == call_out(id@, name@, input@),
{
    Fields::new().with("id", js(id)).with("type", js("function")).with(
        "function",
        Fields::new().with("name", js(name)).with("arguments", Json::Str(arguments_json(input))).done(),
    ).done()
}

fn say_block(s: &mut Assistant, b: &ContentBlock, echo: bool, policy: UnsupportedContentPolicy) -> (r: Result<
    (),
    Error,
>)
    ensures
        match r {
            Ok(_) => say(old(s)@, b@, echo, policy) == Ok::<Said, ErrorV>(final(s)@),
            Err(e) => say(old(s)@, b@, echo, policy) == Err::<Said, ErrorV>(e@),
        },
{
    match b {
        ContentBlock::Text { text, .. } => s.text.append(text.as_str()),
        ContentBlock::ToolUse { id, name, input } => s.calls.push(encode_call(id.as_str(), name.as_str(), input)),
        ContentBlock::Thinking { text, .. } => {
            if echo {
                match reasoning_bridge::encode_thinking_block(b) {
                    Some(item) => s.items.push(item),
                    None => s.reasoning.append(text.as_str()),
                }
            }
        },
        ContentBlock::RedactedThinking { .. } => {
            if echo {
                match reasoning_bridge::encode_thinking_block(b) {
                    Some(item) => s.items.push(item),
                    None => {},
                }
            }
        },
        ContentBlock::Audio { .. } | ContentBlock::File { .. } | ContentBlock::Video { .. }
        | ContentBlock::Citation { .. } | ContentBlock::Annotation { .. } => {
            match policy_text(policy, b) {
                Ok(Some(t)) => s.text.append(t.as_str()),
                Ok(None) => {},
                Err(e) => {
                    return Err(e);
                },
            }
        },
        _ => {},
    }
    Ok(())
}

fn encode_assistant_message(s: Assistant) -> (r: Json)
    ensures
        r@ == assistant_message(s@),
{
    let mut m = Fields::new();
    m.put("role", js("assistant"));
    if s.text.as_str().unicode_len() == 0 && s.calls.len() > 0 {
        m.put("content", Json::Null);
    } else {
        m.put("content", js(s.text.as_str()));
    }
    if s.reasoning.as_str().unicode_len() > 0 {
        m.put("reasoning_content", js(s.reasoning.as_str()));
    }
    if s.items.len() > 0 {
        m.put("reasoning", array(s.items));
    }
    if s.calls.len() > 0 {
        m.put("tool_calls", array(s.calls));
    }
    m.done()
}

/// A part of a tool result as text.
pub open spec fn result_text(p: PartV) -> Seq<char> {
    match p {
        PartV::Text { text } => text,
        PartV::Image { .. } => "[image]"@,
    }
}

pub open spec fn result_texts(ps: Seq<PartV>) -> Seq<Seq<char>> {
    Seq::new(ps.len(), |i: int| result_text(ps[i]))
}

/// The parts of a tool result as text, a line each.
pub(crate) fn tool_result_text(ps: &Vec<ToolResultPart>) -> (r: String)
    ensures
        r@ == text::joined(result_texts(views::of(ps@)), "\n"@),
{
    let mut parts: Vec<String> = Vec::new();
    for i in 0..ps.len()
        invariant
            parts@.len() == i,
            forall|j: int| 0 <= j < i ==> (#[trigger] parts@[j])@ == result_text(ps@[j]@),
    {
        let t = match &ps[i] {
            ToolResultPart::Text { text } => text.clone(),
            ToolResultPart::Image { .. } => "[image]".to_owned(),
        };
        parts.push(t);
    }
    assert(views::of(parts@) =~= result_texts(views::of(ps@)));
    text::join(&parts, "\n")
}

/// What a user turn becomes, gathered block by block: tool messages of their
/// own, and the parts of the user message.
pub struct Heard {
    pub out: Seq<Tree>,
    pub parts: Seq<Tree>,
}

pub open spec fn text_part(t: Seq<char>) -> Tree {
    Tree::Obj(json::fs().with("type"@, json::st("text"@)).with("text"@, json::st(t)))
}

/// One block of a user turn more.
pub open spec fn hear(h: Heard, b: BlockV, policy: UnsupportedContentPolicy) -> Result<Heard, ErrorV> {
    match b {
        BlockV::ToolResult { tool_use_id, content, .. } => Ok(
            Heard {
                out: h.out.push(
                    Tree::Obj(
                        json::fs().with("role"@, json::st("tool"@)).with(
                            "tool_call_id"@,
                            json::st(tool_use_id),
                        ).with("content"@, json::st(text::joined(result_texts(content), "\n"@))),
                    ),
                ),
                parts: h.parts,
            },
        ),
        BlockV::Text { text, .. } => Ok(Heard { parts: h.parts.push(text_part(text)), ..h }),
        BlockV::Image { source } => Ok(
            Heard {
                parts: h.parts.push(
                    Tree::Obj(
                        json::fs().with("type"@, json::st("image_url"@)).with(
                            "image_url"@,
                            Tree::Obj(json::fs().with("url"@, json::st(ir::url_of_source(source)))),
                        ),
                    ),
                ),
                ..h
            },
        ),
        BlockV::Audio { source: SourceV::Base64 { data, .. }, media_type } => Ok(
            Heard {
                parts: h.parts.push(
                    Tree::Obj(
                        json::fs().with("type"@, json::st("input_audio"@)).with(
                            "input_audio"@,
                            Tree::Obj(
                                json::fs().with("data"@, json::st(data)).with(
                                    "format"@,
                                    json::st(protocol::audio_format(media_type)),
                                ),
                            ),
                        ),
                    ),
                ),
                ..h
            },
        ),
        BlockV::Audio { .. } | BlockV::File { .. } | BlockV::Video { .. } | BlockV::Citation { .. }
        | BlockV::Annotation { .. } => match protocol::stand_in_text(policy, b) {
            Ok(Some(t)) => Ok(Heard { parts: h.parts.push(text_part(t)), ..h }),
            Ok(None) => Ok(h),
            Err(e) => Err(e),
        },
        _ => Ok(h),
    }
}

pub open spec fn hear_all(h: Heard, bs: Seq<BlockV>, i: int, policy: UnsupportedContentPolicy) -> Result<
    Heard,
    ErrorV,
>
    decreases bs.len() - i,
{
    if i < 0 || i >= bs.len() {
        Ok(h)
    } else {
        match hear(h, bs[i], policy) {
            Ok(next) => hear_all(next, bs, i + 1, policy),
            Err(e) => Err(e),
        }
    }
}

fn encode_text_part(t: &str) -> (r: Json)
    ensures
        r@ == text_part(t@),
{
    Fields::new().with("type", js("text")).with("text", js(t)).done()
}

fn hear_block(
    out: &mut Vec<Json>,
    parts: &mut Vec<Json>,
    b: &ContentBlock,
    policy: UnsupportedContentPolicy,
) -> (r: Result<(), Error>)
    ensures
        match r {
            Ok(_) => hear(Heard { out: views::of(old(out)@), parts: views::of(old(parts)@) }, b@, policy) == Ok::<
                Heard,
                ErrorV,
            >(Heard { out: views::of(final(out)@), parts: views::of(final(parts)@) }),
            Err(e) => hear(Heard { out: views::of(old(out)@), parts: views::of(old(parts)@) }, b@, policy) == Err::<
                Heard,
                ErrorV,
            >(e@),
        },
{
    match b {
        ContentBlock::ToolResult { tool_use_id, content, .. } => {
            let t = tool_result_text(content);
            out.push(
                Fields::new().with("role", js("tool")).with("tool_call_id", js(tool_use_id.as_str())).with(
                    "content",
                    Json::Str(t),
                ).done(),
            );
        },
        ContentBlock::Text { text, .. } => parts.push(encode_text_part(text.as_str())),
        ContentBlock::Image { source } => parts.push(
            Fields::new().with("type", js("image_url")).with(
                "image_url",
                Fields::new().with("url", Json::Str(source.to_data_url())).done(),
            ).done(),
        ),
        ContentBlock::Audio { source: MediaSource::Base64 { data, .. }, media_type } => {
            let format = normalize_audio_format(media_type.as_str());
            parts.push(
                Fields::new().with("type", js("input_audio")).with(
                    "input_audio",
                    Fields::new().with("data", js(data.as_str())).with("format", Json::Str(format)).done(),
                ).done(),
            );
        },
        ContentBlock::Audio { .. } | ContentBlock::File { .. } | ContentBlock::Video { .. }
        | ContentBlock::Citation { .. } | ContentBlock::Annotation { .. } => {
            match policy_text(policy, b) {
                Ok(Some(t)) => parts.push(encode_text_part(t.as_str())),
                Ok(None) => {},
                Err(e) => {
                    return Err(e);
                },
            }
        },
        _ => {},
    }
    Ok(())
}

/// Whether every part is text.
pub open spec fn all_text(parts: Seq<Tree>) -> bool {
    forall|i: int| 0 <= i < parts.len() ==> (#[trigger] parts[i]).at("type"@).text() == Some("text"@)
}

pub open spec fn part_texts(parts: Seq<Tree>, i: int, acc: Seq<char>) -> Seq<char>
    decreases parts.len() - i,
{
    if i < 0 || i >= parts.len() {
        acc
    } else {
        part_texts(parts, i + 1, acc + parts[i].at("text"@).text_or(Seq::empty()))
    }
}

/// The content of a user message: a plain string where there is only text.
pub open spec fn user_content(parts: Seq<Tree>) -> Tree {
    if all_text(parts) {
        json::st(part_texts(parts, 0, Seq::empty()))
    } else {
        Tree::Arr(parts)
    }
}

fn encode_user_content(parts: Vec<Json>) -> (r: Json)
    ensures
        r@ == user_content(views::of(parts@)),
{
    let ghost trees = views::of(parts@);
    let mut t = String::new();
    assert(t@ =~= Seq::empty());
    for i in 0..parts.len()
        invariant
            trees == views::of(parts@),
            part_texts(trees, 0, Seq::empty()) == part_texts(trees, i as int, t@),
            forall|j: int| 0 <= j < i ==> (#[trigger] trees[j]).at("type"@).text() == Some("text"@),
    {
        assert(trees[i as int] == parts@[i as int]@);
        if !parts[i].at("type").is_text("text") {
            return array(parts);
        }
        t.append(parts[i].at("text").string().as_str());
    }
    Json::Str(t)
}

/// The messages with one turn more.
///
/// Anthropic keeps tool results inside user messages; OpenAI needs separate
/// `role: "tool"` messages, and they must come before any plain user text.
pub open spec fn message_out(out: Seq<Tree>, m: MessageV, echo: bool, policy: UnsupportedContentPolicy) -> Result<
    Seq<Tree>,
    ErrorV,
> {
    match m.role {
        Role::Assistant => match say_all(nothing_said(), m.content, 0, echo, policy) {
            Ok(s) => Ok(out.push(assistant_message(s))),
            Err(e) => Err(e),
        },
        Role::User => match hear_all(Heard { out, parts: Seq::empty() }, m.content, 0, policy) {
            Ok(h) => if h.parts.len() > 0 {
                Ok(
                    h.out.push(
                        Tree::Obj(
                            json::fs().with("role"@, json::st("user"@)).with("content"@, user_content(h.parts)),
                        ),
                    ),
                )
            } else {
                Ok(h.out)
            },
            Err(e) => Err(e),
        },
    }
}

fn encode_message_into(m: &Message, out: &mut Vec<Json>, echo: bool, policy: UnsupportedContentPolicy) -> (r: Result<
    (),
    Error,
>)
    ensures
        match r {
            Ok(_) => message_out(views::of(old(out)@), m@, echo, policy) == Ok::<Seq<Tree>, ErrorV>(
                views::of(final(out)@),
            ),
            Err(e) => message_out(views::of(old(out)@), m@, echo, policy) == Err::<Seq<Tree>, ErrorV>(e@),
        },
{
    let ghost blocks = m@.content;
    let ghost before = views::of(out@);
    match m.role {
        Role::Assistant => {
            let mut s = Assistant {
                text: String::new(),
                reasoning: String::new(),
                items: Vec::new(),
                calls: Vec::new(),
            };
            assert(s@.text =~= Seq::empty());
            assert(s@ == nothing_said());
            for i in 0..m.content.len()
                invariant
                    blocks == views::of(m.content@),
                    before == views::of(out@),
                    m@.role == Role::Assistant,
                    m@.content == blocks,
                    say_all(nothing_said(), blocks, 0, echo, policy) == say_all(s@, blocks, i as int, echo, policy),
            {
                assert(blocks[i as int] == m.content@[i as int]@);
                match say_block(&mut s, &m.content[i], echo, policy) {
                    Ok(_) => {},
                    Err(e) => {
                        return Err(e);
                    },
                }
            }
            out.push(encode_assistant_message(s));
        },
        Role::User => {
            let mut parts: Vec<Json> = Vec::new();
            let ghost start = Heard { out: before, parts: Seq::empty() };
            for i in 0..m.content.len()
                invariant
                    blocks == views::of(m.content@),
                    m@.role == Role::User,
                    m@.content == blocks,
                    before == views::of(old(out)@),
                    start == (Heard { out: before, parts: Seq::empty() }),
                    hear_all(start, blocks, 0, policy) == hear_all(
                        (Heard { out: views::of(out@), parts: views::of(parts@) }),
                        blocks,
                        i as int,
                        policy,
                    ),
            {
                assert(blocks[i as int] == m.content@[i as int]@);
                match hear_block(out, &mut parts, &m.content[i], policy) {
                    Ok(_) => {},
                    Err(e) => {
                        return Err(e);
                    },
                }
            }
            if parts.len() > 0 {
                let content = encode_user_content(parts);
                out.push(Fields::new().with("role", js("user")).with("content", content).done());
            }
        },
    }
    Ok(())
}

pub open spec fn messages_out(
    out: Seq<Tree>,
    ms: Seq<MessageV>,
    i: int,
    echo: bool,
    policy: UnsupportedContentPolicy,
) -> Result<Seq<Tree>, ErrorV>
    decreases ms.len() - i,
{
    if i < 0 || i >= ms.len() {
        Ok(out)
    } else {
        match message_out(out, ms[i], echo, policy) {
            Ok(next) => messages_out(next, ms, i + 1, echo, policy),
            Err(e) => Err(e),
        }
    }
}

/// The system message, where there is a system prompt.
pub open spec fn system_out(system: Seq<SystemV>, q: ProviderQuirks) -> Seq<Tree> {
    if system.len() > 0 {
        Seq::empty().push(
            Tree::Obj(
                json::fs().with(
                    "role"@,
                    json::st(if q.system_as_developer { "developer"@ } else { "system"@ }),
                ).with("content"@, json::st(text::joined(system_texts(system), "\n\n"@))),
            ),
        )
    } else {
        Seq::empty()
    }
}

/// A tool definition on the wire.
pub open spec fn tool_out(t: ToolV) -> Tree {
    Tree::Obj(
        json::fs().with("type"@, json::st("function"@)).with(
            "function"@,
            Tree::Obj(
                json::fs().with("name"@, json::st(t.name)).with(
                    "description"@,
                    json::st(
                        match t.description {
                            Some(d) => d,
                            None => Seq::empty(),
                        },
                    ),
                ).with("parameters"@, t.input_schema),
            ),
        ),
    )
}

pub open spec fn tools_out(ts: Seq<ToolV>) -> Tree {
    Tree::Arr(Seq::new(ts.len(), |i: int| tool_out(ts[i])))
}

fn encode_tools(ts: &Vec<ToolDef>) -> (r: Json)
    ensures
        r@ == tools_out(views::of(ts@)),
{
    let mut out: Vec<Json> = Vec::new();
    for i in 0..ts.len()
        invariant
            out@.len() == i,
            forall|j: int| 0 <= j < i ==> (#[trigger] out@[j])@ == tool_out(ts@[j]@),
    {
        let t: &ToolDef = &ts[i];
        let description = match &t.description {
            Some(d) => js(d.as_str()),
            None => Json::Str(String::new()),
        };
        let x = Fields::new().with("type", js("function")).with(
            "function",
            Fields::new().with("name", js(t.name.as_str())).with("description", description).with(
                "parameters",
                t.input_schema.clone(),
            ).done(),
        ).done();
        assert(x@ == tool_out(t@));
        out.push(x);
    }
    let r = array(out);
    assert(r@->Arr_0 =~= tools_out(views::of(ts@))->Arr_0);
    r
}

pub open spec fn choice_out(c: ChoiceV) -> Tree {
    match c {
        ChoiceV::Auto => json::st("auto"@),
        ChoiceV::NoTool => json::st("none"@),
        ChoiceV::Any => json::st("required"@),
        ChoiceV::Specific { name } => Tree::Obj(
            json::fs().with("type"@, json::st("function"@)).with(
                "function"@,
                Tree::Obj(json::fs().with("name"@, json::st(name))),
            ),
        ),
    }
}

fn encode_choice(c: &ToolChoice) -> (r: Json)
    ensures
        r@ == choice_out(c@),
{
    match c {
        ToolChoice::Auto => js("auto"),
        ToolChoice::NoTool => js("none"),
        ToolChoice::Any => js("required"),
        ToolChoice::Specific { name } => Fields::new().with("type", js("function")).with(
            "function",
            Fields::new().with("name", js(name.as_str())).done(),
        ).done(),
    }
}

/// A thinking budget as reasoning effort.
pub open spec fn effort_out(t: ThinkingConfig) -> Seq<char> {
    let budget = match t.budget_tokens {
        Some(b) => b,
        None => 4096,
    };
    if !t.enabled {
        "none"@
    } else if budget <= 1024 {
        "low"@
    } else if budget >= 16384 {
        "high"@
    } else {
        "medium"@
    }
}

pub(crate) fn encode_effort(t: &ThinkingConfig) -> (r: &'static str)
    ensures
        r@ == effort_out(*t),
{
    let budget: u32 = match t.budget_tokens {
        Some(b) => b,
        None => 4096,
    };
    if !t.enabled {
        "none"
    } else if budget <= 1024 {
        "low"
    } else if budget >= 16384 {
        "high"
    } else {
        "medium"
    }
}

/// The fields with those of another list that are not there yet.
pub open spec fn filled(m: Seq<(Seq<char>, Tree)>, more: Seq<(Seq<char>, Tree)>, i: int) -> Seq<(Seq<char>, Tree)>
    decreases more.len() - i,
{
    if i < 0 || i >= more.len() {
        m
    } else {
        filled(json::put_new(m, more[i].0, more[i].1), more, i + 1)
    }
}

pub(crate) fn fill(m: &mut Fields, more: &Fields)
    ensures
        final(m)@ == filled(old(m)@, more@, 0),
{
    let ghost start = m@;
    for i in 0..more.list.len()
        invariant
            filled(start, more@, 0) == filled(m@, more@, i as int),
    {
        assert(more@[i as int] == (more.list@[i as int].0@, more.list@[i as int].1@));
        m.put_new(more.list[i].0.as_str(), more.list[i].1.clone());
    }
}

/// The request fields but for the messages' content.
pub open spec fn request_fields(req: RequestV, model: Seq<char>, q: ProviderQuirks, messages: Seq<Tree>) -> Seq<
    (Seq<char>, Tree),
> {
    let b = json::fs().set("model"@, json::st(model)).set("messages"@, Tree::Arr(messages));
    let b = match req.max_tokens {
        Some(n) => b.set(
            if q.use_max_completion_tokens { "max_completion_tokens"@ } else { "max_tokens"@ },
            json::num(n as int),
        ),
        None => b,
    };
    let b = match req.temperature {
        Some(t) => if q.drop_temperature { b } else { b.set("temperature"@, Tree::Float(t)) },
        None => b,
    };
    let b = match req.top_p {
        Some(p) => if q.drop_top_p { b } else { b.set("top_p"@, Tree::Float(p)) },
        None => b,
    };
    let b = if req.stop_sequences.len() > 0 && !q.drop_stop {
        b.set("stop"@, json::text_list(req.stop_sequences))
    } else {
        b
    };
    let b = if req.stream {
        let b = b.set("stream"@, Tree::Bool(true));
        if q.stream_usage {
            b.set("stream_options"@, Tree::Obj(json::fs().with("include_usage"@, Tree::Bool(true))))
        } else {
            b
        }
    } else {
        b
    };
    let b = if req.tools.len() > 0 { b.set("tools"@, tools_out(req.tools)) } else { b };
    let b = match req.tool_choice {
        Some(c) => b.set("tool_choice"@, choice_out(c)),
        None => b,
    };
    let b = match req.thinking {
        Some(t) => if q.send_reasoning_effort { b.set("reasoning_effort"@, json::st(effort_out(t))) } else { b },
        None => b,
    };
    let b = match req.metadata_user {
        Some(u) => b.set("user"@, json::st(u)),
        None => b,
    };
    if req.source_dialect == Dialect::OpenAI {
        filled(b, req.passthrough, 0)
    } else {
        b
    }
}

/// The body for a request.
pub open spec fn request_body(req: RequestV, model: Seq<char>, q: ProviderQuirks) -> Result<Tree, ErrorV> {
    match messages_out(
        system_out(req.system, q),
        req.messages,
        0,
        req.source_dialect == Dialect::OpenAI,
        req.unsupported_content_policy,
    ) {
        Ok(messages) => Ok(Tree::Obj(request_fields(req, model, q, messages))),
        Err(e) => Err(e),
    }
}

/// What is left over of another dialect's request is not written.
pub proof fn foreign_fields_are_not_written(
    req: RequestV,
    left_over: Seq<(Seq<char>, Tree)>,
    model: Seq<char>,
    q: ProviderQuirks,
)
    requires
        req.source_dialect != Dialect::OpenAI,
    ensures
        request_body(RequestV { passthrough: left_over, ..req }, model, q) == request_body(req, model, q),
{
}

/// Encode a request for a provider without quirks.
pub fn encode_request(req: &ChatRequest, upstream_model: &str) -> (r: Result<Json, Error>)
    ensures
        error::outcome(r) == request_body(req@, upstream_model@, protocol::default_quirks()),
{
    encode_request_with(req, upstream_model, &ProviderQuirks::default())
}

/// Encode a request for a provider.
pub fn encode_request_with(req: &ChatRequest, upstream_model: &str, quirks: &ProviderQuirks) -> (r: Result<
    Json,
    Error,
>)
    ensures
        error::outcome(r) == request_body(req@, upstream_model@, *quirks),
{
    let mut messages: Vec<Json> = Vec::new();
    if req.system.len() > 0 {
        let content = system_text(&req.system);
        messages.push(
            Fields::new().with("role", js(if quirks.system_as_developer { "developer" } else { "system" })).with(
                "content",
                Json::Str(content),
            ).done(),
        );
    }
    let ghost start = views::of(messages@);
    assert(start == system_out(req@.system, *quirks));
    let echo = req.source_dialect == Dialect::OpenAI;
    let policy = req.unsupported_content_policy;
    let ghost ms = req@.messages;
    for i in 0..req.messages.len()
        invariant
            ms == views::of(req.messages@),
            start == system_out(req@.system, *quirks),
            ms == req@.messages,
            echo == (req@.source_dialect == Dialect::OpenAI),
            policy == req@.unsupported_content_policy,
            messages_out(start, ms, 0, echo, policy) == messages_out(
                views::of(messages@),
                ms,
                i as int,
                echo,
                policy,
            ),
    {
        assert(ms[i as int] == req.messages@[i as int]@);
        match encode_message_into(&req.messages[i], &mut messages, echo, policy) {
            Ok(_) => {},
            Err(e) => {
                return Err(e);
            },
        }
    }
    let ghost done = views::of(messages@);
    let mut body = Fields::new();
    body.put("model", js(upstream_model));
    body.put("messages", array(messages));
    if let Some(n) = req.max_tokens {
        let key = if quirks.use_max_completion_tokens { "max_completion_tokens" } else { "max_tokens" };
        body.put(key, Json::UInt(n as u64));
    }
    if let Some(t) = &req.temperature {
        if !quirks.drop_temperature {
            body.put("temperature", Json::Float(t.clone()));
        }
    }
    if let Some(p) = &req.top_p {
        if !quirks.drop_top_p {
            body.put("top_p", Json::Float(p.clone()));
        }
    }
    if req.stop_sequences.len() > 0 && !quirks.drop_stop {
        body.put("stop", json::texts(&req.stop_sequences));
    }
    if req.stream {
        body.put("stream", Json::Bool(true));
        if quirks.stream_usage {
            body.put("stream_options", Fields::new().with("include_usage", Json::Bool(true)).done());
        }
    }
    if req.tools.len() > 0 {
        body.put("tools", encode_tools(&req.tools));
    }
    if let Some(c) = &req.tool_choice {
        body.put("tool_choice", encode_choice(c));
    }
    if let Some(t) = &req.thinking {
        if quirks.send_reasoning_effort {
            body.put("reasoning_effort", js(encode_effort(t)));
        }
    }
    if let Some(u) = &req.metadata_user {
        body.put("user", js(u.as_str()));
    }
    if req.source_dialect == Dialect::OpenAI {
        fill(&mut body, &req.passthrough);
    }
    assert(body@ == request_fields(req@, upstream_model@, *quirks, done));
    Ok(body.done())
}

// --------------------------------------------------------------- responses

pub open spec fn stop_reason(s: Seq<char>) -> StopReason {
    if s == "stop"@ {
        StopReason::EndTurn
    } else if s == "length"@ {
        StopReason::MaxTokens
    } else if s == "tool_calls"@ || s == "function_call"@ {
        StopReason::ToolUse
    } else if s == "content_filter"@ {
        StopReason::Refusal
    } else {
        StopReason::Unknown
    }
}

pub fn finish_reason_from_str(s: &str) -> (r: StopReason)
    ensures
        r == stop_reason(s@),
{
    if same(s, "stop") {
        StopReason::EndTurn
    } else if same(s, "length") {
        StopReason::MaxTokens
    } else if same(s, "tool_calls") || same(s, "function_call") {
        StopReason::ToolUse
    } else if same(s, "content_filter") {
        StopReason::Refusal
    } else {
        StopReason::Unknown
    }
}

pub open spec fn finish_reason(r: StopReason) -> Option<Seq<char>> {
    match r {
        StopReason::EndTurn | StopReason::StopSequence => Some("stop"@),
        StopReason::MaxTokens => Some("length"@),
        StopReason::ToolUse => Some("tool_calls"@),
        StopReason::Refusal => Some("content_filter"@),
        StopReason::Unknown => None,
    }
}

pub fn finish_reason_to_str(r: StopReason) -> (s: Option<&'static str>)
    ensures
        views::opt_str(s) == finish_reason(r),
{
    match r {
        StopReason::EndTurn | StopReason::StopSequence => Some("stop"),
        StopReason::MaxTokens => Some("length"),
        StopReason::ToolUse => Some("tool_calls"),
        StopReason::Refusal => Some("content_filter"),
        StopReason::Unknown => None,
    }
}

/// The finish reason, `stop` where none is known.
pub open spec fn finish_or_stop(r: StopReason) -> Seq<char> {
    match finish_reason(r) {
        Some(s) => s,
        None => "stop"@,
    }
}

fn finish_reason_or_stop(r: StopReason) -> (s: &'static str)
    ensures
        s@ == finish_or_stop(r),
{
    match finish_reason_to_str(r) {
        Some(s) => s,
        None => "stop",
    }
}

/// A finish reason that was written is read back; a stop at a stop sequence is one
/// at the end of the turn to OpenAI.
pub proof fn finish_reasons_round_trip(r: StopReason)
    ensures
        match finish_reason(r) {
            Some(s) => stop_reason(s) == if r == StopReason::StopSequence {
                StopReason::EndTurn
            } else {
                r
            },
            None => r == StopReason::Unknown,
        },
{
    reveal_strlit("stop");
    reveal_strlit("length");
    reveal_strlit("tool_calls");
    reveal_strlit("function_call");
    reveal_strlit("content_filter");
    assert("stop"@.len() == 4 && "length"@.len() == 6 && "tool_calls"@.len() == 10 && "function_call"@.len() == 13
        && "content_filter"@.len() == 14);
}

/// Token counters. Cached tokens go by one of two names.
pub open spec fn usage_of(v: Option<Tree>) -> Usage {
    match v.not_null() {
        None => ir::no_usage(),
        Some(u) => Usage {
            input_tokens: u.at("prompt_tokens"@).count(),
            output_tokens: u.at("completion_tokens"@).count(),
            cache_read_tokens: match u.at("prompt_tokens_details"@).at("cached_tokens"@).limit() {
                Some(n) => n,
                None => u.at("prompt_cache_hit_tokens"@).count(),
            },
            cache_write_tokens: 0,
            reasoning_tokens: u.at("completion_tokens_details"@).at("reasoning_tokens"@).count(),
        },
    }
}

pub(crate) fn decode_usage(v: At<'_>) -> (r: Usage)
    ensures
        r == usage_of(v@),
{
    let u = v.not_null();
    if !u.is_some() {
        return Usage::default();
    }
    Usage {
        input_tokens: u.at("prompt_tokens").count(),
        output_tokens: u.at("completion_tokens").count(),
        cache_read_tokens: match u.at("prompt_tokens_details").at("cached_tokens").limit() {
            Some(n) => n,
            None => u.at("prompt_cache_hit_tokens").count(),
        },
        cache_write_tokens: 0,
        reasoning_tokens: u.at("completion_tokens_details").at("reasoning_tokens").count(),
    }
}

pub open spec fn usage_out(u: Usage) -> Tree {
    Tree::Obj(
        json::fs().with("prompt_tokens"@, json::num(u.input_tokens as int)).with(
            "completion_tokens"@,
            json::num(u.output_tokens as int),
        ).with("total_tokens"@, json::num(u.input_tokens + u.output_tokens)).with(
            "prompt_tokens_details"@,
            Tree::Obj(json::fs().with("cached_tokens"@, json::num(u.cache_read_tokens as int))),
        ).with(
            "completion_tokens_details"@,
            Tree::Obj(json::fs().with("reasoning_tokens"@, json::num(u.reasoning_tokens as int))),
        ),
    )
}

pub(crate) fn encode_usage(u: &Usage) -> (r: Json)
    ensures
        r@ == usage_out(*u),
{
    Fields::new().with("prompt_tokens", Json::UInt(u.input_tokens as u64)).with(
        "completion_tokens",
        Json::UInt(u.output_tokens as u64),
    ).with("total_tokens", Json::UInt(u.total())).with(
        "prompt_tokens_details",
        Fields::new().with("cached_tokens", Json::UInt(u.cache_read_tokens as u64)).done(),
    ).with(
        "completion_tokens_details",
        Fields::new().with("reasoning_tokens", Json::UInt(u.reasoning_tokens as u64)).done(),
    ).done()
}

/// The identifier at `k` of a list; empty behind its end.
pub open spec fn id_at(ids: Seq<Seq<char>>, k: int) -> Seq<char> {
    if 0 <= k < ids.len() {
        ids[k]
    } else {
        Seq::empty()
    }
}

fn pick_id(ids: &Vec<String>, k: usize) -> (r: String)
    ensures
        r@ == id_at(views::of(ids@), k as int),
{
    if k < ids.len() {
        ids[k].clone()
    } else {
        String::new()
    }
}

/// The tool calls of an answer; the `i`th takes the `i`th identifier where it has none.
pub open spec fn answered_calls(cs: Seq<Tree>, ids: Seq<Seq<char>>, i: int, acc: Seq<BlockV>) -> Seq<BlockV>
    decreases cs.len() - i,
{
    if i < 0 || i >= cs.len() {
        acc
    } else {
        answered_calls(cs, ids, i + 1, acc.push(called(cs[i], cs[i].at("id"@).text_or(id_at(ids, i)))))
    }
}

/// The blocks of an answer.
pub open spec fn answered_blocks(msg: Tree, ids: Seq<Seq<char>>) -> Seq<BlockV> {
    let a = match msg.at("reasoning_content"@).or_else_at(msg.at("reasoning"@)).words() {
        Some(t) => Seq::empty().push(BlockV::Thinking { text: t, signature: None }),
        None => Seq::empty(),
    };
    let b = match flat(msg.at("content"@)) {
        Some(t) => if t.len() > 0 { a.push(ir::text_block(t)) } else { a },
        None => a,
    };
    match msg.at("tool_calls"@).list() {
        Some(cs) => answered_calls(cs, ids, 0, b),
        None => b,
    }
}

/// The first choice of an answer.
pub open spec fn first_choice(body: Tree) -> Option<Tree> {
    match body.at("choices"@).list() {
        Some(cs) => if cs.len() > 0 { Some(cs[0]) } else { None },
        None => None,
    }
}

/// The answer that a body holds; `ids` name the tool calls that have no name.
pub open spec fn response_of(body: Tree, ids: Seq<Seq<char>>) -> Result<ResponseV, ErrorV> {
    match body.at("error"@) {
        Some(err) => Err(ErrorV::BadUpstreamPayload(err.at("message"@).text_or("unknown upstream error"@))),
        None => match first_choice(body) {
            None => Err(ErrorV::BadUpstreamPayload("response has no choices"@)),
            Some(choice) => match choice.at("message"@) {
                None => Err(ErrorV::BadUpstreamPayload("choice has no message"@)),
                Some(msg) => Ok(
                    ResponseV {
                        id: body.at("id"@).text_or("chatcmpl_unknown"@),
                        model: body.at("model"@).text_or(Seq::empty()),
                        content: answered_blocks(msg, ids),
                        stop_reason: match choice.at("finish_reason"@).text() {
                            Some(s) => stop_reason(s),
                            None => StopReason::Unknown,
                        },
                        stop_sequence: None,
                        usage: usage_of(body.at("usage"@)),
                        passthrough: json::fs(),
                    },
                ),
            },
        },
    }
}

/// The tool calls of an answer.
pub open spec fn call_list(body: Tree) -> Seq<Tree> {
    match first_choice(body).at("message"@).at("tool_calls"@).list() {
        Some(cs) => cs,
        None => Seq::empty(),
    }
}

fn first_choice_of(body: &Json) -> (r: At<'_>)
    ensures
        r@ == first_choice(body@),
{
    match body.at("choices").list() {
        Some(cs) => if cs.len() > 0 {
            assert(views::of(cs@)[0] == cs@[0]@);
            cs[0].here()
        } else {
            At { v: None }
        },
        None => At { v: None },
    }
}

fn decode_answer(msg: &Json, ids: &Vec<String>) -> (r: Vec<ContentBlock>)
    ensures
        views::of(r@) == answered_blocks(msg@, views::of(ids@)),
{
    let mut content: Vec<ContentBlock> = Vec::new();
    if let Some(t) = msg.at("reasoning_content").or_else_at(msg.at("reasoning")).words() {
        content.push(ContentBlock::Thinking { text: t.to_owned(), signature: None });
    }
    if let Some(t) = flatten_content(msg.at("content")) {
        if t.as_str().unicode_len() > 0 {
            content.push(ContentBlock::text(t.as_str()));
        }
    }
    let ghost b = views::of(content@);
    if let Some(cs) = msg.at("tool_calls").list() {
        let ghost trees = views::of(cs@);
        let ghost names = views::of(ids@);
        for i in 0..cs.len()
            invariant
                trees == views::of(cs@),
                names == views::of(ids@),
                answered_calls(trees, names, 0, b) == answered_calls(trees, names, i as int, views::of(content@)),
        {
            assert(trees[i as int] == cs@[i as int]@);
            let fallback = pick_id(ids, i);
            let id = cs[i].at("id").string_or(fallback.as_str());
            content.push(decode_call(&cs[i], id));
        }
    }
    content
}

/// Decode an answer; `ids` name the tool calls that have no name.
pub fn decode_response_with(body: &Json, ids: &Vec<String>) -> (r: Result<ChatResponse, Error>)
    ensures
        error::outcome(r) == response_of(body@, views::of(ids@)),
{
    let err = body.at("error");
    if err.is_some() {
        return Err(Error::BadUpstreamPayload(err.at("message").string_or("unknown upstream error")));
    }
    let choice = first_choice_of(body);
    if !choice.is_some() {
        return Err(Error::BadUpstreamPayload("response has no choices".to_owned()));
    }
    let msg = match choice.at("message").v {
        Some(m) => m,
        None => {
            return Err(Error::BadUpstreamPayload("choice has no message".to_owned()));
        },
    };
    Ok(
        ChatResponse {
            id: body.at("id").string_or("chatcmpl_unknown"),
            model: body.at("model").string(),
            content: decode_answer(msg, ids),
            stop_reason: match choice.at("finish_reason").text() {
                Some(s) => finish_reason_from_str(s),
                None => StopReason::Unknown,
            },
            stop_sequence: None,
            usage: decode_usage(body.at("usage")),
            passthrough: Fields::new(),
        },
    )
}

/// Every one of them is a fresh identifier of a tool call.
pub open spec fn fresh_calls(ids: Seq<Seq<char>>) -> bool {
    forall|i: int| 0 <= i < ids.len() ==> draw::is_fresh_id(#[trigger] ids[i], "call_"@)
}

/// Fresh identifiers for `n` tool calls.
fn draw_calls(n: usize) -> (r: Vec<String>)
    ensures
        r@.len() == n,
        fresh_calls(views::of(r@)),
{
    draw::fresh_ids("call_", n)
}

/// Decode an answer. A tool call without a name gets a fresh one.
pub fn decode_response(body: Json) -> (r: Result<ChatResponse, Error>)
    ensures
        exists|ids: Seq<Seq<char>>|
            {
                &&& fresh_calls(ids)
                &&& ids.len() == call_list(body@).len()
                &&& error::outcome(r) == #[trigger] response_of(body@, ids)
            },
{
    let n: usize = match first_choice_of(&body).at("message").at("tool_calls").list() {
        Some(cs) => cs.len(),
        None => 0,
    };
    let ids = draw_calls(n);
    decode_response_with(&body, &ids)
}

/// What an answer says, gathered block by block.
pub open spec fn utter(s: Said, b: BlockV) -> Said {
    match b {
        BlockV::Text { text, .. } => Said { text: s.text + text, ..s },
        BlockV::Thinking { text, .. } => Said { reasoning: s.reasoning + text, ..s },
        BlockV::ToolUse { id, name, input } => Said {
            calls: s.calls.push(
                Tree::Obj(
                    json::fs().with("index"@, json::num(s.calls.len() as int)).with("id"@, json::st(id)).with(
                        "type"@,
                        json::st("function"@),
                    ).with(
                        "function"@,
                        Tree::Obj(
                            json::fs().with("name"@, json::st(name)).with(
                                "arguments"@,
                                json::st(arguments_text(input)),
                            ),
                        ),
                    ),
                ),
            ),
            ..s
        },
        _ => s,
    }
}

pub open spec fn utter_all(s: Said, bs: Seq<BlockV>, i: int) -> Said
    decreases bs.len() - i,
{
    if i < 0 || i >= bs.len() {
        s
    } else {
        utter_all(utter(s, bs[i]), bs, i + 1)
    }
}

fn utter_block(s: &mut Assistant, b: &ContentBlock)
    ensures
        final(s)@ == utter(old(s)@, b@),
{
    match b {
        ContentBlock::Text { text, .. } => s.text.append(text.as_str()),
        ContentBlock::Thinking { text, .. } => s.reasoning.append(text.as_str()),
        ContentBlock::ToolUse { id, name, input } => {
            let n: u64 = s.calls.len() as u64;
            s.calls.push(
                Fields::new().with("index", Json::UInt(n)).with("id", js(id.as_str())).with(
                    "type",
                    js("function"),
                ).with(
                    "function",
                    Fields::new().with("name", js(name.as_str())).with(
                        "arguments",
                        Json::Str(arguments_json(input)),
                    ).done(),
                ).done(),
            );
        },
        _ => {},
    }
}

/// The body for an answer made at `created`.
pub open spec fn response_body(resp: ResponseV, created: i64) -> Tree {
    let s = utter_all(nothing_said(), resp.content, 0);
    Tree::Obj(
        json::fs().with("id"@, json::st(resp.id)).with("object"@, json::st("chat.completion"@)).with(
            "created"@,
            json::integer(created),
        ).with("model"@, json::st(resp.model)).with(
            "choices"@,
            Tree::Arr(
                Seq::empty().push(
                    Tree::Obj(
                        json::fs().with("index"@, json::num(0)).with("message"@, assistant_message(s)).with(
                            "logprobs"@,
                            Tree::Null,
                        ).with("finish_reason"@, json::st(finish_or_stop(resp.stop_reason))),
                    ),
                ),
            ),
        ).with("usage"@, usage_out(resp.usage)),
    )
}

/// Encode an answer made at `created`.
pub fn encode_response_at(resp: &ChatResponse, created: i64) -> (r: Json)
    ensures
        r@ == response_body(resp@, created),
{
    let mut s = Assistant {
        text: String::new(),
        reasoning: String::new(),
        items: Vec::new(),
        calls: Vec::new(),
    };
    assert(s@.text =~= Seq::empty());
    assert(s@ == nothing_said());
    let ghost blocks = resp@.content;
    for i in 0..resp.content.len()
        invariant
            blocks == views::of(resp.content@),
            utter_all(nothing_said(), blocks, 0) == utter_all(s@, blocks, i as int),
    {
        assert(blocks[i as int] == resp.content@[i as int]@);
        utter_block(&mut s, &resp.content[i]);
    }
    Fields::new().with("id", js(resp.id.as_str())).with("object", js("chat.completion")).with(
        "created",
        whole(created),
    ).with("model", js(resp.model.as_str())).with(
        "choices",
        array1(
            Fields::new().with("index", Json::UInt(0)).with("message", encode_assistant_message(s)).with(
                "logprobs",
                Json::Null,
            ).with("finish_reason", js(finish_reason_or_stop(resp.stop_reason))).done(),
        ),
    ).with("usage", encode_usage(&resp.usage)).done()
}

/// Encode an answer; it is made now.
pub fn encode_response(resp: &ChatResponse) -> (r: Json)
    ensures
        exists|created: i64| r@ == #[trigger] response_body(resp@, created),
{
    encode_response_at(resp, draw::unix_now())
}

// --------------------------------------------------------------- stream in

/// What the open block holds.
#[derive(Debug, Clone, Copy, PartialEq, Eq, Structural)]
pub enum Block {
    Text,
    Thinking,
    Tool,
}

/// Rebuilds Anthropic style block structure from OpenAI chunks.
pub struct OpenAiStreamParser {
    pub model: String,
    pub id: Option<String>,
    pub started: bool,
    pub next_index: u32,
    pub current: Option<(u32, Block)>,
    /// OpenAI `tool_calls[].index` -> canonical block index.
    pub tool_slots: Vec<(u64, u32)>,
    pub usage: Usage,
    pub pending_stop: Option<StopReason>,
    pub emitted_stop: bool,
}

pub struct ParserV {
    pub model: Seq<char>,
    pub id: Option<Seq<char>>,
    pub started: bool,
    pub next_index: u32,
    pub current: Option<(u32, Block)>,
    pub tool_slots: Seq<(u64, u32)>,
    pub usage: Usage,
    pub pending_stop: Option<StopReason>,
    pub emitted_stop: bool,
}

impl View for OpenAiStreamParser {
    type V = ParserV;

    open spec fn view(&self) -> ParserV {
        ParserV {
            model: self.model@,
            id: views::opt(self.id),
            started: self.started,
            next_index: self.next_index,
            current: self.current,
            tool_slots: self.tool_slots@,
            usage: self.usage,
            pending_stop: self.pending_stop,
            emitted_stop: self.emitted_stop,
        }
    }
}

/// A parser with the events that it has put out.
pub struct Step {
    pub p: ParserV,
    pub out: Seq<EventV>,
}

/// A step, and how many identifiers it has used.
pub struct Run {
    pub s: Step,
    pub used: usize,
}

/// One more, as far as a machine can count.
pub open spec fn one_more(n: usize) -> usize {
    if n == usize::MAX {
        n
    } else {
        (n + 1) as usize
    }
}

impl Step {
    pub open spec fn emit(self, e: EventV) -> Step {
        Step { out: self.out.push(e), ..self }
    }

    /// Close the open block.
    pub open spec fn close_current(self) -> Step {
        match self.p.current {
            Some((index, _)) => Step { p: ParserV { current: None, ..self.p }, ..self }.emit(
                EventV::BlockStop { index },
            ),
            None => self,
        }
    }

    /// Start a block of its own.
    pub open spec fn open_block(self, kind: Block) -> Step {
        let s = self.close_current();
        Step {
            p: ParserV {
                next_index: protocol::bumped(s.p.next_index),
                current: Some((s.p.next_index, kind)),
                ..s.p
            },
            ..s
        }
    }

    /// Have a block of `kind` open.
    pub open spec fn block_for(self, kind: Block) -> Step {
        match self.p.current {
            Some((_, k)) => if k == kind { self } else { self.open_block(kind) },
            None => self.open_block(kind),
        }
    }

    /// The index of the open block.
    pub open spec fn index(self) -> u32 {
        match self.p.current {
            Some((index, _)) => index,
            None => 0,
        }
    }

    pub open spec fn ensure_started(self, chunk: Tree) -> Step {
        if self.p.started {
            self
        } else {
            let id = chunk.at("id"@).text_or("chatcmpl_stream"@);
            let model = match chunk.at("model"@).words() {
                Some(m) => m,
                None => self.p.model,
            };
            Step { p: ParserV { started: true, id: Some(id), model, ..self.p }, ..self }.emit(
                EventV::Start { id, model, usage: self.p.usage },
            )
        }
    }

    /// Close what is open and stop, once.
    pub open spec fn emit_stop(self) -> Step {
        if self.p.emitted_stop {
            self
        } else {
            let stop_reason = match self.p.pending_stop {
                Some(r) => r,
                None => StopReason::Unknown,
            };
            let s = Step { p: ParserV { pending_stop: None, ..self.p }, ..self }.close_current().emit(
                EventV::Stop { stop_reason, stop_sequence: None, usage: self.p.usage },
            );
            Step { p: ParserV { emitted_stop: true, ..s.p }, ..s }
        }
    }
}

/// The canonical block of a tool slot, from the `i`th slot on.
pub open spec fn slot_block(slots: Seq<(u64, u32)>, slot: u64, i: int) -> Option<u32>
    decreases slots.len() - i,
{
    if i < 0 || i >= slots.len() {
        None
    } else if slots[i].0 == slot {
        Some(slots[i].1)
    } else {
        slot_block(slots, slot, i + 1)
    }
}

/// One tool call of a chunk. Each call is its own block.
pub open spec fn push_call(r: Run, call: Tree, ids: Seq<Seq<char>>) -> Run {
    let slot = match call.at("index"@).uint() {
        Some(n) => n,
        None => 0,
    };
    let known = slot_block(r.s.p.tool_slots, slot, 0);
    let t = r.s.open_block(Block::Tool);
    let opened = if known is Some {
        r
    } else {
        Run {
            s: Step {
                p: ParserV { tool_slots: t.p.tool_slots.push((slot, t.index())), ..t.p },
                ..t
            }.emit(
                EventV::ToolUseStart {
                    index: t.index(),
                    id: call.at("id"@).text_or(id_at(ids, r.used as int)),
                    name: call.at("function"@).at("name"@).text_or(Seq::empty()),
                },
            ),
            used: if call.at("id"@).text() is Some { r.used } else { one_more(r.used) },
        }
    };
    let index = match known {
        Some(i) => i,
        None => t.index(),
    };
    match call.at("function"@).at("arguments"@).words() {
        Some(args) => Run { s: opened.s.emit(EventV::ToolUseDelta { index, partial_json: args }), ..opened },
        None => opened,
    }
}

pub open spec fn push_calls(r: Run, cs: Seq<Tree>, ids: Seq<Seq<char>>, i: int) -> Run
    decreases cs.len() - i,
{
    if i < 0 || i >= cs.len() {
        r
    } else {
        push_calls(push_call(r, cs[i], ids), cs, ids, i + 1)
    }
}

/// What a choice of a chunk holds.
pub open spec fn delta_of(choice: Tree) -> Option<Tree> {
    choice.at("delta"@).or_else_at(choice.at("message"@))
}

/// The reasoning text of a chunk.
pub open spec fn delta_reasoning(choice: Tree) -> Option<Seq<char>> {
    delta_of(choice).at("reasoning_content"@).or_else_at(delta_of(choice).at("reasoning"@)).words()
}

/// The text of a chunk.
pub open spec fn delta_text(choice: Tree) -> Option<Seq<char>> {
    match flat(delta_of(choice).at("content"@)) {
        Some(t) => if t.len() > 0 { Some(t) } else { None },
        None => None,
    }
}

pub open spec fn delta_calls(choice: Tree) -> Seq<Tree> {
    match delta_of(choice).at("tool_calls"@).list() {
        Some(cs) => cs,
        None => Seq::empty(),
    }
}

/// Only the first choice is read: several are not representable in blocks.
pub open spec fn is_first(choice: Tree) -> bool {
    match choice.at("index"@).uint() {
        Some(n) => n == 0,
        None => true,
    }
}

/// The reasoning and the text of a choice.
pub open spec fn push_texts(s: Step, choice: Tree) -> Step {
    let s = match delta_reasoning(choice) {
        Some(text) => {
            let b = s.block_for(Block::Thinking);
            b.emit(EventV::ThinkingDelta { index: b.index(), text })
        },
        None => s,
    };
    match delta_text(choice) {
        Some(text) => {
            let b = s.block_for(Block::Text);
            b.emit(EventV::TextDelta { index: b.index(), text })
        },
        None => s,
    }
}

/// One choice of a chunk.
pub open spec fn push_choice(r: Run, choice: Tree, ids: Seq<Seq<char>>) -> Run {
    if !is_first(choice) {
        r
    } else {
        let r = push_calls(Run { s: push_texts(r.s, choice), ..r }, delta_calls(choice), ids, 0);
        match choice.at("finish_reason"@).words() {
            // The stop waits: a trailing usage chunk may still arrive.
            Some(f) => Run {
                s: Step { p: ParserV { pending_stop: Some(stop_reason(f)), ..r.s.p }, ..r.s },
                ..r
            },
            None => r,
        }
    }
}

pub open spec fn push_choices(r: Run, cs: Seq<Tree>, ids: Seq<Seq<char>>, i: int) -> Run
    decreases cs.len() - i,
{
    if i < 0 || i >= cs.len() {
        r
    } else {
        push_choices(push_choice(r, cs[i], ids), cs, ids, i + 1)
    }
}

pub open spec fn choices_of(chunk: Tree) -> Seq<Tree> {
    match chunk.at("choices"@).list() {
        Some(cs) => cs,
        None => Seq::empty(),
    }
}

/// A parser before it has put out anything.
pub open spec fn at_rest(p: ParserV) -> Step {
    Step { p, out: Seq::empty() }
}

/// One chunk that is no error.
pub open spec fn push_chunk(p: ParserV, chunk: Tree, ids: Seq<Seq<char>>) -> Step {
    let usage = usage_of(chunk.at("usage"@));
    let p = if chunk.at("usage"@).not_null() is Some && usage.total_spec() > 0 {
        ParserV { usage, ..p }
    } else {
        p
    };
    let s = at_rest(p);
    if choices_of(chunk).len() == 0 {
        // A usage-only trailer: flush the stop that waited.
        if p.pending_stop is Some {
            s.ensure_started(chunk).emit_stop()
        } else {
            s
        }
    } else {
        push_choices(Run { s: s.ensure_started(chunk), used: 0 }, choices_of(chunk), ids, 0).s
    }
}

/// One frame: the step, or the error that the frame reports.
pub open spec fn push_frame(p: ParserV, frame: FrameV, ids: Seq<Seq<char>>) -> Result<Step, ErrorV> {
    let data = text::trimmed(frame.data);
    if data.len() == 0 {
        Ok(at_rest(p))
    } else if data == "[DONE]"@ {
        Ok(if p.started { at_rest(p).emit_stop() } else { at_rest(p) })
    } else {
        match frame.json() {
            Err(e) => Err(e),
            Ok(chunk) => match chunk.at("error"@).not_null() {
                Some(err) => Err(
                    ErrorV::BadUpstreamPayload(err.at("message"@).text_or("upstream stream error"@)),
                ),
                None => Ok(push_chunk(p, chunk, ids)),
            },
        }
    }
}

/// The end of the body.
pub open spec fn finished(p: ParserV) -> Step {
    if p.started {
        at_rest(p).emit_stop()
    } else {
        at_rest(p)
    }
}

/// A stream stops once: what ended does not end again.
pub proof fn finishing_twice_adds_nothing(p: ParserV)
    ensures
        p.emitted_stop ==> finished(p) == at_rest(p),
        finished(finished(p).p).out == Seq::<EventV>::empty(),
        finished(finished(p).p).p == finished(p).p,
{
}

/// A parser that has seen nothing.
pub open spec fn fresh_parser(model: Seq<char>) -> ParserV {
    ParserV {
        model,
        id: None,
        started: false,
        next_index: 0,
        current: None,
        tool_slots: Seq::empty(),
        usage: ir::no_usage(),
        pending_stop: None,
        emitted_stop: false,
    }
}

/// The number of tool calls in the choices from the `i`th on.
pub open spec fn calls_from(cs: Seq<Tree>, i: int) -> nat
    decreases cs.len() - i,
{
    if i < 0 || i >= cs.len() {
        0
    } else {
        delta_calls(cs[i]).len() + calls_from(cs, i + 1)
    }
}

proof fn push_calls_uses(r: Run, cs: Seq<Tree>, ids: Seq<Seq<char>>, i: int)
    requires
        0 <= i <= cs.len(),
    ensures
        push_calls(r, cs, ids, i).used <= r.used + (cs.len() - i),
    decreases cs.len() - i,
{
    if i < cs.len() {
        push_calls_uses(push_call(r, cs[i], ids), cs, ids, i + 1);
    }
}

/// No more identifiers are used than there are tool calls.
pub proof fn push_choices_uses(r: Run, cs: Seq<Tree>, ids: Seq<Seq<char>>, i: int)
    requires
        0 <= i <= cs.len(),
    ensures
        push_choices(r, cs, ids, i).used <= r.used + calls_from(cs, i),
    decreases cs.len() - i,
{
    if i < cs.len() {
        push_calls_uses(Run { s: push_texts(r.s, cs[i]), ..r }, delta_calls(cs[i]), ids, 0);
        push_choices_uses(push_choice(r, cs[i], ids), cs, ids, i + 1);
    }
}

impl OpenAiStreamParser {
    pub fn new(model: &str) -> (r: Self)
        ensures
            r@ == fresh_parser(model@),
    {
        OpenAiStreamParser {
            model: model.to_owned(),
            id: None,
            started: false,
            next_index: 0,
            current: None,
            tool_slots: Vec::new(),
            usage: Usage::default(),
            pending_stop: None,
            emitted_stop: false,
        }
    }

    fn close_current(&mut self, out: &mut Vec<StreamEvent>)
        ensures
            (Step { p: final(self)@, out: views::of(final(out)@) }) == (Step {
                p: old(self)@,
                out: views::of(old(out)@),
            }).close_current(),
    {
        if let Some((index, _)) = self.current {
            self.current = None;
            out.push(StreamEvent::BlockStop { index });
        }
    }

    /// Return the index of an open block of `kind`, opening a new one if needed.
    fn block_for(&mut self, kind: Block, out: &mut Vec<StreamEvent>) -> (r: u32)
        ensures
            (Step { p: final(self)@, out: views::of(final(out)@) }) == (Step {
                p: old(self)@,
                out: views::of(old(out)@),
            }).block_for(kind),
            final(self)@.current == Some((r, kind)),
    {
        if let Some((index, current)) = self.current {
            if current == kind {
                return index;
            }
        }
        self.open_block(kind, out)
    }

    /// Always start a fresh block. Each tool call is its own block, even though
    /// consecutive tool calls share the same `kind`.
    fn open_block(&mut self, kind: Block, out: &mut Vec<StreamEvent>) -> (r: u32)
        ensures
            (Step { p: final(self)@, out: views::of(final(out)@) }) == (Step {
                p: old(self)@,
                out: views::of(old(out)@),
            }).open_block(kind),
            final(self)@.current == Some((r, kind)),
    {
        self.close_current(out);
        let index: u32 = self.next_index;
        self.next_index = bump(self.next_index);
        self.current = Some((index, kind));
        index
    }

    fn ensure_started(&mut self, chunk: &Json, out: &mut Vec<StreamEvent>)
        ensures
            (Step { p: final(self)@, out: views::of(final(out)@) }) == (Step {
                p: old(self)@,
                out: views::of(old(out)@),
            }).ensure_started(chunk@),
    {
        if self.started {
            return;
        }
        self.started = true;
        let id = chunk.at("id").string_or("chatcmpl_stream");
        if let Some(m) = chunk.at("model").words() {
            self.model = m.to_owned();
        }
        self.id = Some(id.clone());
        out.push(StreamEvent::Start { id, model: self.model.clone(), usage: self.usage });
    }

    fn emit_stop(&mut self, out: &mut Vec<StreamEvent>)
        ensures
            (Step { p: final(self)@, out: views::of(final(out)@) }) == (Step {
                p: old(self)@,
                out: views::of(old(out)@),
            }).emit_stop(),
    {
        if self.emitted_stop {
            return;
        }
        let stop_reason = match self.pending_stop {
            Some(r) => r,
            None => StopReason::Unknown,
        };
        self.pending_stop = None;
        self.close_current(out);
        out.push(StreamEvent::Stop { stop_reason, stop_sequence: None, usage: self.usage });
        self.emitted_stop = true;
    }

    fn find_slot(&self, slot: u64) -> (r: Option<u32>)
        ensures
            r == slot_block(self@.tool_slots, slot, 0),
    {
        let mut i: usize = 0;
        while i < self.tool_slots.len()
            invariant
                i <= self.tool_slots@.len(),
                slot_block(self.tool_slots@, slot, 0) == slot_block(self.tool_slots@, slot, i as int),
            decreases self.tool_slots@.len() - i,
        {
            if self.tool_slots[i].0 == slot {
                return Some(self.tool_slots[i].1);
            }
            i += 1;
        }
        None
    }

    fn push_call(&mut self, call: &Json, ids: &Vec<String>, used: &mut usize, out: &mut Vec<StreamEvent>)
        ensures
            (Run { s: Step { p: final(self)@, out: views::of(final(out)@) }, used: *final(used) }) == push_call(
                (Run { s: Step { p: old(self)@, out: views::of(old(out)@) }, used: *old(used) }),
                call@,
                views::of(ids@),
            ),
    {
        let slot: u64 = match call.at("index").uint() {
            Some(n) => n,
            None => 0,
        };
        let index: u32 = match self.find_slot(slot) {
            Some(i) => i,
            None => {
                let i: u32 = self.open_block(Block::Tool, out);
                self.tool_slots.push((slot, i));
                let id = match call.at("id").opt_string() {
                    Some(id) => id,
                    None => {
                        let id = pick_id(ids, *used);
                        if *used < usize::MAX {
                            *used = *used + 1;
                        }
                        id
                    },
                };
                out.push(StreamEvent::ToolUseStart { index: i, id, name: call.at("function").at("name").string() });
                i
            },
        };
        if let Some(args) = call.at("function").at("arguments").words() {
            out.push(StreamEvent::ToolUseDelta { index, partial_json: args.to_owned() });
        }
    }

    fn push_texts(&mut self, choice: &Json, out: &mut Vec<StreamEvent>)
        ensures
            (Step { p: final(self)@, out: views::of(final(out)@) }) == push_texts(
                (Step { p: old(self)@, out: views::of(old(out)@) }),
                choice@,
            ),
    {
        let delta = choice.at("delta").or_else_at(choice.at("message"));
        if let Some(t) = delta.at("reasoning_content").or_else_at(delta.at("reasoning")).words() {
            let index: u32 = self.block_for(Block::Thinking, out);
            out.push(StreamEvent::ThinkingDelta { index, text: t.to_owned() });
        }
        if let Some(t) = flatten_content(delta.at("content")) {
            if t.as_str().unicode_len() > 0 {
                let index: u32 = self.block_for(Block::Text, out);
                out.push(StreamEvent::TextDelta { index, text: t });
            }
        }
    }

    fn push_choice(&mut self, choice: &Json, ids: &Vec<String>, used: &mut usize, out: &mut Vec<StreamEvent>)
        ensures
            (Run { s: Step { p: final(self)@, out: views::of(final(out)@) }, used: *final(used) }) == push_choice(
                (Run { s: Step { p: old(self)@, out: views::of(old(out)@) }, used: *old(used) }),
                choice@,
                views::of(ids@),
            ),
    {
        let ghost names = views::of(ids@);
        match choice.at("index").uint() {
            Some(n) => {
                if n != 0 {
                    return;
                }
            },
            None => {},
        }
        self.push_texts(choice, out);
        if let Some(cs) = choice.at("delta").or_else_at(choice.at("message")).at("tool_calls").list() {
            let ghost trees = views::of(cs@);
            let ghost start = Run { s: Step { p: self@, out: views::of(out@) }, used: *used };
            for i in 0..cs.len()
                invariant
                    trees == views::of(cs@),
                    names == views::of(ids@),
                    push_calls(start, trees, names, 0) == push_calls(
                        (Run { s: Step { p: self@, out: views::of(out@) }, used: *used }),
                        trees,
                        names,
                        i as int,
                    ),
            {
                assert(trees[i as int] == cs@[i as int]@);
                self.push_call(&cs[i], ids, used, out);
            }
        }
        if let Some(r) = choice.at("finish_reason").words() {
            self.pending_stop = Some(finish_reason_from_str(r));
        }
    }

    /// One frame; `ids` name the tool calls that come without a name.
    pub fn push_with_ids(&mut self, frame: &SseFrame, ids: &Vec<String>) -> (r: Result<Vec<StreamEvent>, Error>)
        ensures
            pushed(old(self)@, final(self)@, frame@, views::of(ids@), r),
    {
        let mut out: Vec<StreamEvent> = Vec::new();
        let data = trim(frame.data.as_str());
        if data.unicode_len() == 0 {
            return Ok(out);
        }
        if same(data, "[DONE]") {
            if self.started {
                self.emit_stop(&mut out);
            }
            return Ok(out);
        }
        let chunk = match frame.json() {
            Ok(c) => c,
            Err(e) => {
                return Err(e);
            },
        };
        let err = chunk.at("error").not_null();
        if err.is_some() {
            return Err(Error::BadUpstreamPayload(err.at("message").string_or("upstream stream error")));
        }
        if chunk.at("usage").not_null().is_some() {
            let usage = decode_usage(chunk.at("usage"));
            if usage.total() > 0 {
                self.usage = usage;
            }
        }
        let ghost start = at_rest(self@);
        let choices = chunk.at("choices").list();
        let empty = match choices {
            Some(cs) => cs.len() == 0,
            None => true,
        };
        if empty {
            if self.pending_stop.is_some() {
                self.ensure_started(&chunk, &mut out);
                self.emit_stop(&mut out);
            }
            return Ok(out);
        }
        self.ensure_started(&chunk, &mut out);
        if let Some(cs) = choices {
            let ghost trees = views::of(cs@);
            let ghost names = views::of(ids@);
            let ghost mid = Run { s: Step { p: self@, out: views::of(out@) }, used: 0 };
            assert(mid.s == start.ensure_started(chunk@));
            let mut used: usize = 0;
            for i in 0..cs.len()
                invariant
                    trees == views::of(cs@),
                    names == views::of(ids@),
                    push_choices(mid, trees, names, 0) == push_choices(
                        (Run { s: Step { p: self@, out: views::of(out@) }, used }),
                        trees,
                        names,
                        i as int,
                    ),
            {
                assert(trees[i as int] == cs@[i as int]@);
                self.push_choice(&cs[i], ids, &mut used, &mut out);
            }
        }
        Ok(out)
    }
}

/// What became of a parser that took a frame, and what it gave back.
pub open spec fn pushed(
    before: ParserV,
    after: ParserV,
    frame: FrameV,
    ids: Seq<Seq<char>>,
    r: Result<Vec<StreamEvent>, Error>,
) -> bool {
    match r {
        Ok(out) => push_frame(before, frame, ids) == Ok::<Step, ErrorV>(Step { p: after, out: views::of(out@) }),
        Err(e) => push_frame(before, frame, ids) == Err::<Step, ErrorV>(e@) && after == before,
    }
}

/// The tool calls of a frame.
pub open spec fn frame_calls(frame: FrameV) -> nat {
    match frame.json() {
        Ok(chunk) => calls_from(choices_of(chunk), 0),
        Err(_) => 0,
    }
}

/// Identifiers for the tool calls of a frame, as far as a machine can count them.
pub open spec fn enough_ids(frame: FrameV, ids: Seq<Seq<char>>) -> bool {
    fresh_calls(ids) && (frame_calls(frame) <= usize::MAX ==> frame_calls(frame) <= ids.len())
}

/// The same, where tool calls without a name got fresh ones.
pub open spec fn pushed_fresh(
    before: ParserV,
    after: ParserV,
    frame: FrameV,
    r: Result<Vec<StreamEvent>, Error>,
) -> bool {
    exists|ids: Seq<Seq<char>>| #[trigger] pushed(before, after, frame, ids, r) && enough_ids(frame, ids)
}

proof fn calls_from_sum(cs: Seq<Tree>, i: int)
    requires
        0 <= i < cs.len(),
    ensures
        calls_from(cs, i) >= delta_calls(cs[i]).len(),
{
}

/// The number of tool calls in a chunk, as far as a machine can count.
fn count_calls(chunk: &Json) -> (r: usize)
    ensures
        r == calls_from(choices_of(chunk@), 0) || calls_from(choices_of(chunk@), 0) > usize::MAX,
{
    let cs = match chunk.at("choices").list() {
        Some(cs) => cs,
        None => {
            return 0;
        },
    };
    let ghost trees = views::of(cs@);
    let mut n: usize = 0;
    for i in 0..cs.len()
        invariant
            trees == views::of(cs@),
            choices_of(chunk@) == trees,
            calls_from(trees, 0) == n + calls_from(trees, i as int),
    {
        assert(trees[i as int] == cs@[i as int]@);
        let c: &Json = &cs[i];
        let k: usize = match c.at("delta").or_else_at(c.at("message")).at("tool_calls").list() {
            Some(a) => a.len(),
            None => 0,
        };
        proof {
            calls_from_sum(trees, i as int);
        }
        if n > usize::MAX - k {
            return n;
        }
        n += k;
    }
    n
}

impl StreamParser for OpenAiStreamParser {
    /// One frame. A tool call that comes without a name gets a fresh one.
    fn push(&mut self, frame: &SseFrame) -> (r: Result<Vec<StreamEvent>, Error>)
        ensures
            pushed_fresh(old(self)@, final(self)@, frame@, r),
    {
        let n: usize = match frame.json() {
            Ok(chunk) => count_calls(&chunk),
            Err(_) => 0,
        };
        let ids = draw_calls(n);
        let r = self.push_with_ids(frame, &ids);
        assert(pushed(old(self)@, self@, frame@, views::of(ids@), r) && enough_ids(frame@, views::of(ids@)));
        r
    }

    fn finish(&mut self) -> (r: Vec<StreamEvent>)
        ensures
            (Step { p: final(self)@, out: views::of(r@) }) == finished(old(self)@),
    {
        let mut out: Vec<StreamEvent> = Vec::new();
        if self.started {
            self.emit_stop(&mut out);
        }
        out
    }
}

// -------------------------------------------------------------- stream out

/// Renders canonical events as OpenAI chat completion chunks.
pub struct OpenAiStreamEncoder {
    pub model: String,
    pub id: String,
    pub created: i64,
    pub include_usage: bool,
    pub role_sent: bool,
    pub tool_slots: Vec<(u32, u64)>,
    pub usage: Usage,
    pub done: bool,
}

pub struct EncoderV {
    pub model: Seq<char>,
    pub id: Seq<char>,
    pub created: i64,
    pub include_usage: bool,
    pub role_sent: bool,
    pub tool_slots: Seq<(u32, u64)>,
    pub usage: Usage,
    pub done: bool,
}

impl View for OpenAiStreamEncoder {
    type V = EncoderV;

    open spec fn view(&self) -> EncoderV {
        EncoderV {
            model: self.model@,
            id: self.id@,
            created: self.created,
            include_usage: self.include_usage,
            role_sent: self.role_sent,
            tool_slots: self.tool_slots@,
            usage: self.usage,
            done: self.done,
        }
    }
}

/// An encoder that has put out nothing.
pub open spec fn fresh_encoder(model: Seq<char>, id: Seq<char>, created: i64) -> EncoderV {
    EncoderV {
        model,
        id,
        created,
        include_usage: false,
        role_sent: false,
        tool_slots: Seq::empty(),
        usage: ir::no_usage(),
        done: false,
    }
}

/// A frame without an event name.
pub open spec fn data_frame(data: Seq<char>) -> FrameV {
    FrameV { event: None, data }
}

/// The slot of a block, from the `i`th on.
pub open spec fn block_slot(slots: Seq<(u32, u64)>, index: u32, i: int) -> Option<u64>
    decreases slots.len() - i,
{
    if i < 0 || i >= slots.len() {
        None
    } else if slots[i].0 == index {
        Some(slots[i].1)
    } else {
        block_slot(slots, index, i + 1)
    }
}

/// An encoder with the frames that it has put out.
pub struct Written {
    pub e: EncoderV,
    pub out: Seq<FrameV>,
}

impl EncoderV {
    /// A chunk of the stream.
    pub open spec fn chunk(self, delta: Tree, finish: Option<Seq<char>>) -> FrameV {
        let choice = Tree::Obj(
            json::fs().set("index"@, json::num(0)).set("delta"@, delta).set("logprobs"@, Tree::Null).set(
                "finish_reason"@,
                match finish {
                    Some(r) => json::st(r),
                    None => Tree::Null,
                },
            ),
        );
        data_frame(
            json::rendered(
                Tree::Obj(
                    json::fs().with("id"@, json::st(self.id)).with(
                        "object"@,
                        json::st("chat.completion.chunk"@),
                    ).with("created"@, json::integer(self.created)).with("model"@, json::st(self.model)).with(
                        "choices"@,
                        Tree::Arr(Seq::empty().push(choice)),
                    ),
                ),
            ),
        )
    }

    /// The chunk that reports the usage.
    pub open spec fn usage_chunk(self, usage: Usage) -> FrameV {
        data_frame(
            json::rendered(
                Tree::Obj(
                    json::fs().with("id"@, json::st(self.id)).with(
                        "object"@,
                        json::st("chat.completion.chunk"@),
                    ).with("created"@, json::integer(self.created)).with("model"@, json::st(self.model)).with(
                        "choices"@,
                        Tree::Arr(Seq::empty()),
                    ).with("usage"@, usage_out(usage)),
                ),
            ),
        )
    }

    /// The slot of a block; a new block takes the next one.
    pub open spec fn slot(self, index: u32) -> u64 {
        match block_slot(self.tool_slots, index, 0) {
            Some(s) => s,
            None => self.tool_slots.len() as u64,
        }
    }

    pub open spec fn with_slot(self, index: u32) -> EncoderV {
        match block_slot(self.tool_slots, index, 0) {
            Some(_) => self,
            None => EncoderV {
                tool_slots: self.tool_slots.push((index, self.tool_slots.len() as u64)),
                ..self
            },
        }
    }
}

pub open spec fn no_delta() -> Tree {
    Tree::Obj(json::fs())
}

pub open spec fn delta1(key: Seq<char>, v: Tree) -> Tree {
    Tree::Obj(json::fs().with(key, v))
}

impl Written {
    pub open spec fn emit(self, f: FrameV) -> Written {
        Written { out: self.out.push(f), ..self }
    }

    /// The first chunk names the role.
    pub open spec fn ensure_role(self) -> Written {
        if self.e.role_sent {
            self
        } else {
            let e = EncoderV { role_sent: true, ..self.e };
            Written { e, ..self }.emit(
                e.chunk(
                    Tree::Obj(
                        json::fs().with("role"@, json::st("assistant"@)).with("content"@, json::st(Seq::empty())),
                    ),
                    None,
                ),
            )
        }
    }

    pub open spec fn chunk(self, delta: Tree, finish: Option<Seq<char>>) -> Written {
        self.emit(self.e.chunk(delta, finish))
    }
}

/// The blob that carries redacted thinking.
pub open spec fn blob_of(data: Seq<char>) -> Option<Seq<char>> {
    match reasoning_bridge::item_of(BlockV::RedactedThinking { data }) {
        Some(item) => item.at("encrypted_content"@).text(),
        None => None,
    }
}

/// One event.
pub open spec fn encoded_event(e: EncoderV, ev: EventV) -> Written {
    let w = Written { e, out: Seq::empty() };
    match ev {
        EventV::Start { id, model, usage } => Written {
            e: EncoderV {
                id: if "chatcmpl"@.is_prefix_of(id) { id } else { "chatcmpl-"@ + id },
                model,
                usage,
                ..e
            },
            ..w
        }.ensure_role(),
        EventV::TextDelta { text, .. } => w.ensure_role().chunk(delta1("content"@, json::st(text)), None),
        EventV::ThinkingDelta { text, .. } => w.ensure_role().chunk(
            delta1("reasoning_content"@, json::st(text)),
            None,
        ),
        // Signatures have no Chat Completions wire equivalent.
        EventV::ThinkingSignature { .. } => w,
        EventV::RedactedThinking { data, .. } => match blob_of(data) {
            Some(blob) => w.ensure_role().chunk(delta1("reasoning_content"@, json::st(blob)), None),
            None => w,
        },
        EventV::ToolUseStart { index, id, name } => {
            let w = w.ensure_role();
            Written { e: w.e.with_slot(index), ..w }.chunk(
                delta1(
                    "tool_calls"@,
                    Tree::Arr(
                        Seq::empty().push(
                            Tree::Obj(
                                json::fs().with("index"@, json::num(w.e.slot(index) as int)).with(
                                    "id"@,
                                    json::st(id),
                                ).with("type"@, json::st("function"@)).with(
                                    "function"@,
                                    Tree::Obj(
                                        json::fs().with("name"@, json::st(name)).with(
                                            "arguments"@,
                                            json::st(Seq::empty()),
                                        ),
                                    ),
                                ),
                            ),
                        ),
                    ),
                ),
                None,
            )
        },
        EventV::ToolUseDelta { index, partial_json } => {
            let w = w.ensure_role();
            Written { e: w.e.with_slot(index), ..w }.chunk(
                delta1(
                    "tool_calls"@,
                    Tree::Arr(
                        Seq::empty().push(
                            Tree::Obj(
                                json::fs().with("index"@, json::num(w.e.slot(index) as int)).with(
                                    "function"@,
                                    delta1("arguments"@, json::st(partial_json)),
                                ),
                            ),
                        ),
                    ),
                ),
                None,
            )
        },
        EventV::BlockStop { .. } => w,
        EventV::Stop { stop_reason, usage, .. } => {
            let w = w.ensure_role();
            let w = Written { e: EncoderV { usage, ..w.e }, ..w }.chunk(
                no_delta(),
                Some(finish_or_stop(stop_reason)),
            );
            let w = if w.e.include_usage { w.emit(w.e.usage_chunk(usage)) } else { w };
            let w = w.emit(data_frame("[DONE]"@));
            Written { e: EncoderV { done: true, ..w.e }, ..w }
        },
        EventV::Ping => w,
    }
}

/// The end of the stream: once, and only where no stop came.
pub open spec fn encoded_finish(e: EncoderV) -> Written {
    let w = Written { e, out: Seq::empty() };
    if e.done {
        w
    } else {
        let w = w.ensure_role().chunk(no_delta(), Some("stop"@)).emit(data_frame("[DONE]"@));
        Written { e: EncoderV { done: true, ..w.e }, ..w }
    }
}

/// An error in the middle of the stream ends it.
pub open spec fn encoded_error(e: EncoderV, err: ErrorV) -> Written {
    let w = Written { e, out: Seq::empty() }.emit(data_frame(json::rendered(err.wire(Dialect::OpenAI))));
    if e.done {
        w
    } else {
        Written { e: EncoderV { done: true, ..w.e }, ..w }.emit(data_frame("[DONE]"@))
    }
}

fn data_only(data: String) -> (r: SseFrame)
    ensures
        r@ == data_frame(data@),
{
    SseFrame { event: None, data }
}

fn delta_of_one(key: &str, v: Json) -> (r: Json)
    ensures
        r@ == delta1(key@, v@),
{
    Fields::new().with(key, v).done()
}

impl OpenAiStreamEncoder {
    /// An encoder for a stream with this identifier, made at `created`.
    pub fn starting(model: &str, id: String, created: i64) -> (r: Self)
        ensures
            r@ == fresh_encoder(model@, id@, created),
    {
        OpenAiStreamEncoder {
            model: model.to_owned(),
            id,
            created,
            include_usage: false,
            role_sent: false,
            tool_slots: Vec::new(),
            usage: Usage::default(),
            done: false,
        }
    }

    /// An encoder for a fresh stream, made now.
    pub fn new(model: &str) -> (r: Self)
        ensures
            r@ == fresh_encoder(model@, r@.id, r@.created),
            draw::is_fresh_id(r@.id, "chatcmpl-"@),
    {
        OpenAiStreamEncoder::starting(model, draw::fresh_id("chatcmpl-"), draw::unix_now())
    }

    pub fn with_usage(self, include_it: bool) -> (r: Self)
        ensures
            r@ == (EncoderV { include_usage: include_it, ..self@ }),
    {
        OpenAiStreamEncoder { include_usage: include_it, ..self }
    }

    fn chunk(&self, delta: Json, finish: Option<&str>) -> (r: SseFrame)
        ensures
            r@ == self@.chunk(delta@, views::opt_str(finish)),
    {
        let mut choice = Fields::new();
        choice.put("index", Json::UInt(0));
        choice.put("delta", delta);
        choice.put("logprobs", Json::Null);
        match finish {
            Some(r) => choice.put("finish_reason", js(r)),
            None => choice.put("finish_reason", Json::Null),
        }
        data_only(
            json::render(
                &Fields::new().with("id", js(self.id.as_str())).with("object", js("chat.completion.chunk")).with(
                    "created",
                    whole(self.created),
                ).with("model", js(self.model.as_str())).with("choices", array1(choice.done())).done(),
            ),
        )
    }

    fn usage_chunk(&self, usage: &Usage) -> (r: SseFrame)
        ensures
            r@ == self@.usage_chunk(*usage),
    {
        data_only(
            json::render(
                &Fields::new().with("id", js(self.id.as_str())).with("object", js("chat.completion.chunk")).with(
                    "created",
                    whole(self.created),
                ).with("model", js(self.model.as_str())).with("choices", json::no_items()).with(
                    "usage",
                    encode_usage(usage),
                ).done(),
            ),
        )
    }

    fn ensure_role(&mut self, out: &mut Vec<SseFrame>)
        ensures
            (Written { e: final(self)@, out: views::of(final(out)@) }) == (Written {
                e: old(self)@,
                out: views::of(old(out)@),
            }).ensure_role(),
    {
        if self.role_sent {
            return;
        }
        self.role_sent = true;
        let f = self.chunk(
            Fields::new().with("role", js("assistant")).with("content", Json::Str(String::new())).done(),
            None,
        );
        out.push(f);
    }

    /// The tool-call slot of a block: the one it got before, else the next that is free.
    pub fn slot_for(&mut self, index: u32) -> (r: u64)
        ensures
            r == old(self)@.slot(index),
            final(self)@ == old(self)@.with_slot(index),
    {
        let mut i: usize = 0;
        while i < self.tool_slots.len()
            invariant
                i <= self.tool_slots@.len(),
                self@ == old(self)@,
                block_slot(self.tool_slots@, index, 0) == block_slot(self.tool_slots@, index, i as int),
            decreases self.tool_slots@.len() - i,
        {
            if self.tool_slots[i].0 == index {
                return self.tool_slots[i].1;
            }
            i += 1;
        }
        let slot: u64 = self.tool_slots.len() as u64;
        self.tool_slots.push((index, slot));
        slot
    }
}

impl StreamEncoder for OpenAiStreamEncoder {
    fn encode(&mut self, event: &StreamEvent) -> (r: Vec<SseFrame>)
        ensures
            (Written { e: final(self)@, out: views::of(r@) }) == encoded_event(old(self)@, event@),
    {
        let mut out: Vec<SseFrame> = Vec::new();
        match event {
            StreamEvent::Start { id, model, usage } => {
                self.id = match text::strip_prefix(id.as_str(), "chatcmpl") {
                    Some(_) => id.clone(),
                    None => concat("chatcmpl-", id.as_str()),
                };
                self.model = model.clone();
                self.usage = *usage;
                self.ensure_role(&mut out);
            },
            StreamEvent::TextDelta { text, .. } => {
                self.ensure_role(&mut out);
                out.push(self.chunk(delta_of_one("content", js(text.as_str())), None));
            },
            StreamEvent::ThinkingDelta { text, .. } => {
                self.ensure_role(&mut out);
                out.push(self.chunk(delta_of_one("reasoning_content", js(text.as_str())), None));
            },
            StreamEvent::ThinkingSignature { .. } => {},
            StreamEvent::RedactedThinking { data, .. } => {
                let block = ContentBlock::RedactedThinking { data: data.clone() };
                if let Some(item) = reasoning_bridge::encode_thinking_block(&block) {
                    if let Some(blob) = item.at("encrypted_content").text() {
                        self.ensure_role(&mut out);
                        out.push(self.chunk(delta_of_one("reasoning_content", js(blob)), None));
                    }
                }
            },
            StreamEvent::ToolUseStart { index, id, name } => {
                self.ensure_role(&mut out);
                let slot: u64 = self.slot_for(*index);
                let call = Fields::new().with("index", Json::UInt(slot)).with("id", js(id.as_str())).with(
                    "type",
                    js("function"),
                ).with(
                    "function",
                    Fields::new().with("name", js(name.as_str())).with("arguments", Json::Str(String::new())).done(),
                ).done();
                out.push(self.chunk(delta_of_one("tool_calls", array1(call)), None));
            },
            StreamEvent::ToolUseDelta { index, partial_json } => {
                self.ensure_role(&mut out);
                let slot: u64 = self.slot_for(*index);
                let call = Fields::new().with("index", Json::UInt(slot)).with(
                    "function",
                    delta_of_one("arguments", js(partial_json.as_str())),
                ).done();
                out.push(self.chunk(delta_of_one("tool_calls", array1(call)), None));
            },
            StreamEvent::BlockStop { .. } => {},
            StreamEvent::Stop { stop_reason, usage, .. } => {
                self.ensure_role(&mut out);
                self.usage = *usage;
                out.push(self.chunk(Fields::new().done(), Some(finish_reason_or_stop(*stop_reason))));
                if self.include_usage {
                    out.push(self.usage_chunk(usage));
                }
                out.push(data_only("[DONE]".to_owned()));
                self.done = true;
            },
            StreamEvent::Ping => {},
        }
        out
    }

    fn finish(&mut self) -> (r: Vec<SseFrame>)
        ensures
            (Written { e: final(self)@, out: views::of(r@) }) == encoded_finish(old(self)@),
    {
        let mut out: Vec<SseFrame> = Vec::new();
        if self.done {
            return out;
        }
        self.ensure_role(&mut out);
        out.push(self.chunk(Fields::new().done(), Some("stop")));
        out.push(data_only("[DONE]".to_owned()));
        self.done = true;
        out
    }

    fn error(&mut self, err: &Error) -> (r: Vec<SseFrame>)
        ensures
            (Written { e: final(self)@, out: views::of(r@) }) == encoded_error(old(self)@, err@),
    {
        let mut out: Vec<SseFrame> = Vec::new();
        out.push(data_only(json::render(&err.to_wire(Dialect::OpenAI))));
        if !self.done {
            out.push(data_only("[DONE]".to_owned()));
            self.done = true;
        }
        out
    }
}

} // verus!
