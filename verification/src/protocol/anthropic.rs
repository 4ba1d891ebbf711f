//! Anthropic Messages dialect. The canonical form is modelled on it, so most of
//! this is field by field.

use crate::draw;
use crate::error;
use crate::error::{Error, ErrorV};
use crate::ir;
use crate::ir::{
    BlockV, ChatRequest, ChatResponse, ChoiceV, ContentBlock, Dialect, EventV, MediaSource, Message, MessageV, PartV,
    RequestV, ResponseV, Role, SourceV, StopReason, StreamEvent, SystemPart, SystemV, ThinkingConfig, ToolChoice,
    ToolDef, ToolResultPart, ToolV, UnsupportedContentPolicy, Usage,
};
use crate::json;
use crate::json::{array, js, At, Build, Fields, Json, Lookup, Tree};
use crate::protocol;
use crate::protocol::openai;
use crate::protocol::openai::{decode_texts, fill, is_true};
use crate::protocol::sse::{FrameV, SseFrame};
use crate::protocol::{apply_content_policy, StreamEncoder, StreamParser};
use crate::text;
use crate::text::{concat3, same, trim};
use crate::views;
use vstd::prelude::*;

verus! {

broadcast use crate::views::group_views;

/// Anthropic requires `max_tokens`; used when the client omits it.
pub const DEFAULT_MAX_TOKENS: u32 = 4096;

// -------------------------------------------------------------- request in

/// The fields that the canonical form knows.
pub open spec fn known_key(k: Seq<char>) -> bool {
    ||| k == "model"@
    ||| k == "messages"@
    ||| k == "system"@
    ||| k == "max_tokens"@
    ||| k == "temperature"@
    ||| k == "top_p"@
    ||| k == "top_k"@
    ||| k == "stop_sequences"@
    ||| k == "stream"@
    ||| k == "tools"@
    ||| k == "tool_choice"@
    ||| k == "thinking"@
    ||| k == "metadata"@
}

fn is_known_key(k: &str) -> (r: bool)
    ensures
        r == known_key(k@),
{
    same(k, "model") || same(k, "messages") || same(k, "system") || same(k, "max_tokens") || same(k, "temperature")
        || same(k, "top_p") || same(k, "top_k") || same(k, "stop_sequences") || same(k, "stream") || same(k, "tools")
        || same(k, "tool_choice") || same(k, "thinking") || same(k, "metadata")
}

/// The fields that the canonical form does not know.
pub open spec fn unknown_fields(m: Seq<(Seq<char>, Tree)>, i: int, acc: Seq<(Seq<char>, Tree)>) -> Seq<
    (Seq<char>, Tree),
>
    decreases m.len() - i,
{
    if i < 0 || i >= m.len() {
        acc
    } else if known_key(m[i].0) {
        unknown_fields(m, i + 1, acc)
    } else {
        unknown_fields(m, i + 1, acc.set(m[i].0, m[i].1))
    }
}

fn decode_unknown(m: &Vec<(String, Json)>) -> (r: Fields)
    ensures
        r@ == unknown_fields(views::of(m@), 0, json::fs()),
{
    let ghost trees = views::of(m@);
    let mut out = Fields::new();
    for i in 0..m.len()
        invariant
            trees == views::of(m@),
            unknown_fields(trees, 0, json::fs()) == unknown_fields(trees, i as int, out@),
    {
        assert(trees[i as int] == (m@[i as int].0@, m@[i as int].1@));
        if !is_known_key(m[i].0.as_str()) {
            out.put(m[i].0.as_str(), m[i].1.clone());
        }
    }
    out
}

/// The parts of a system prompt that have a text. A cache breakpoint on one is
/// the caller's decision about money, so it travels with the text.
pub open spec fn system_parts(items: Seq<Tree>, i: int, acc: Seq<SystemV>) -> Seq<SystemV>
    decreases items.len() - i,
{
    if i < 0 || i >= items.len() {
        acc
    } else {
        match items[i].at("text"@).text() {
            Some(text) => system_parts(
                items,
                i + 1,
                acc.push(SystemV { text, cache_control: items[i].at("cache_control"@) }),
            ),
            None => system_parts(items, i + 1, acc),
        }
    }
}

pub open spec fn system_of(v: Option<Tree>) -> Result<Seq<SystemV>, ErrorV> {
    match v {
        None | Some(Tree::Null) => Ok(Seq::empty()),
        Some(Tree::Str(s)) => Ok(Seq::empty().push(ir::system_part(s))),
        Some(Tree::Arr(items)) => Ok(system_parts(items, 0, Seq::empty())),
        Some(_) => Err(ErrorV::InvalidRequest("`system` must be a string or an array"@)),
    }
}

fn decode_system(v: At<'_>) -> (r: Result<Vec<SystemPart>, Error>)
    ensures
        match r {
            Ok(s) => system_of(v@) == Ok::<Seq<SystemV>, ErrorV>(views::of(s@)),
            Err(e) => system_of(v@) == Err::<Seq<SystemV>, ErrorV>(e@),
        },
{
    let mut out: Vec<SystemPart> = Vec::new();
    if let Some(s) = v.text() {
        out.push(SystemPart::new(s));
        return Ok(out);
    }
    if let Some(items) = v.list() {
        let ghost trees = views::of(items@);
        for i in 0..items.len()
            invariant
                trees == views::of(items@),
                system_parts(trees, 0, Seq::empty()) == system_parts(trees, i as int, views::of(out@)),
        {
            assert(trees[i as int] == items@[i as int]@);
            if let Some(t) = items[i].at("text").text() {
                out.push(SystemPart { text: t.to_owned(), cache_control: items[i].at("cache_control").copied() });
            }
        }
        return Ok(out);
    }
    if v.not_null().is_some() {
        Err(Error::invalid("`system` must be a string or an array"))
    } else {
        Ok(out)
    }
}

pub open spec fn source_of(v: Option<Tree>) -> Result<SourceV, ErrorV> {
    match v {
        None => Err(ErrorV::InvalidRequest("media block is missing `source`"@)),
        Some(s) => if s.at("type"@).text() == Some("base64"@) {
            Ok(
                SourceV::Base64 {
                    media_type: s.at("media_type"@).text_or("application/octet-stream"@),
                    data: s.at("data"@).text_or(Seq::empty()),
                },
            )
        } else if s.at("type"@).text() == Some("url"@) {
            Ok(SourceV::Url { url: s.at("url"@).text_or(Seq::empty()) })
        } else {
            Err(ErrorV::InvalidRequest("unsupported media source type"@))
        },
    }
}

fn decode_source(v: At<'_>) -> (r: Result<MediaSource, Error>)
    ensures
        error::outcome(r) == source_of(v@),
{
    if !v.is_some() {
        return Err(Error::invalid("media block is missing `source`"));
    }
    if v.at("type").is_text("base64") {
        Ok(
            MediaSource::Base64 {
                media_type: v.at("media_type").string_or("application/octet-stream"),
                data: v.at("data").string(),
            },
        )
    } else if v.at("type").is_text("url") {
        Ok(MediaSource::Url { url: v.at("url").string() })
    } else {
        Err(Error::invalid("unsupported media source type"))
    }
}

/// One part of a tool result; a part of another kind is dropped.
pub open spec fn result_part(p: Tree) -> Option<PartV> {
    if p.at("type"@).text() == Some("text"@) {
        Some(PartV::Text { text: p.at("text"@).text_or(Seq::empty()) })
    } else if p.at("type"@).text() == Some("image"@) {
        match source_of(p.at("source"@)) {
            Ok(source) => Some(PartV::Image { source }),
            Err(_) => None,
        }
    } else {
        None
    }
}

pub open spec fn result_parts(ps: Seq<Tree>, i: int, acc: Seq<PartV>) -> Seq<PartV>
    decreases ps.len() - i,
{
    if i < 0 || i >= ps.len() {
        acc
    } else {
        match result_part(ps[i]) {
            Some(p) => result_parts(ps, i + 1, acc.push(p)),
            None => result_parts(ps, i + 1, acc),
        }
    }
}

pub open spec fn result_content(v: Option<Tree>) -> Seq<PartV> {
    match v {
        Some(Tree::Str(s)) => Seq::empty().push(PartV::Text { text: s }),
        Some(Tree::Arr(ps)) => result_parts(ps, 0, Seq::empty()),
        _ => Seq::empty(),
    }
}

fn decode_result_part(p: &Json) -> (r: Option<ToolResultPart>)
    ensures
        views::opt(r) == result_part(p@),
{
    if p.at("type").is_text("text") {
        Some(ToolResultPart::Text { text: p.at("text").string() })
    } else if p.at("type").is_text("image") {
        match decode_source(p.at("source")) {
            Ok(source) => Some(ToolResultPart::Image { source }),
            Err(_) => None,
        }
    } else {
        None
    }
}

fn decode_result_content(v: At<'_>) -> (r: Vec<ToolResultPart>)
    ensures
        views::of(r@) == result_content(v@),
{
    let mut out: Vec<ToolResultPart> = Vec::new();
    if let Some(s) = v.text() {
        out.push(ToolResultPart::Text { text: s.to_owned() });
    } else if let Some(ps) = v.list() {
        let ghost trees = views::of(ps@);
        for i in 0..ps.len()
            invariant
                trees == views::of(ps@),
                result_parts(trees, 0, Seq::empty()) == result_parts(trees, i as int, views::of(out@)),
        {
            assert(trees[i as int] == ps@[i as int]@);
            if let Some(p) = decode_result_part(&ps[i]) {
                out.push(p);
            }
        }
    }
    out
}

/// One content block. Unknown block types (e.g. server side tools) are dropped
/// rather than failing the whole request.
pub open spec fn block_of(b: Tree) -> Result<Option<BlockV>, ErrorV> {
    match b.at("type"@).text() {
        None => Err(ErrorV::InvalidRequest("content block is missing `type`"@)),
        Some(kind) => if kind == "text"@ {
            Ok(
                Some(
                    BlockV::Text {
                        text: b.at("text"@).text_or(Seq::empty()),
                        cache_control: b.at("cache_control"@),
                    },
                ),
            )
        } else if kind == "thinking"@ {
            Ok(
                Some(
                    BlockV::Thinking {
                        text: b.at("thinking"@).text_or(Seq::empty()),
                        signature: b.at("signature"@).text(),
                    },
                ),
            )
        } else if kind == "redacted_thinking"@ {
            Ok(Some(BlockV::RedactedThinking { data: b.at("data"@).text_or(Seq::empty()) }))
        } else if kind == "image"@ {
            match source_of(b.at("source"@)) {
                Ok(source) => Ok(Some(BlockV::Image { source })),
                Err(e) => Err(e),
            }
        } else if kind == "document"@ {
            match source_of(b.at("source"@)) {
                Ok(source) => Ok(Some(BlockV::Document { source })),
                Err(e) => Err(e),
            }
        } else if kind == "tool_use"@ {
            match b.at("name"@).text() {
                Some(name) => Ok(
                    Some(
                        BlockV::ToolUse {
                            id: b.at("id"@).text_or(Seq::empty()),
                            name,
                            input: match b.at("input"@) {
                                Some(v) => v,
                                None => Tree::Obj(json::fs()),
                            },
                        },
                    ),
                ),
                None => Err(ErrorV::InvalidRequest("tool_use block is missing `name`"@)),
            }
        } else if kind == "tool_result"@ {
            match b.at("tool_use_id"@).text() {
                Some(tool_use_id) => Ok(
                    Some(
                        BlockV::ToolResult {
                            tool_use_id,
                            name: Seq::empty(),
                            content: result_content(b.at("content"@)),
                            is_error: b.at("is_error"@).flag() == Some(true),
                        },
                    ),
                ),
                None => Err(ErrorV::InvalidRequest("tool_result block is missing `tool_use_id`"@)),
            }
        } else {
            Ok(None)
        },
    }
}

fn decode_block(b: &Json) -> (r: Result<Option<ContentBlock>, Error>)
    ensures
        match r {
            Ok(o) => block_of(b@) == Ok::<Option<BlockV>, ErrorV>(views::opt(o)),
            Err(e) => block_of(b@) == Err::<Option<BlockV>, ErrorV>(e@),
        },
{
    let kind = match b.at("type").text() {
        Some(k) => k,
        None => {
            return Err(Error::invalid("content block is missing `type`"));
        },
    };
    if same(kind, "text") {
        Ok(
            Some(
                ContentBlock::Text { text: b.at("text").string(), cache_control: b.at("cache_control").copied() },
            ),
        )
    } else if same(kind, "thinking") {
        Ok(
            Some(
                ContentBlock::Thinking {
                    text: b.at("thinking").string(),
                    signature: b.at("signature").opt_string(),
                },
            ),
        )
    } else if same(kind, "redacted_thinking") {
        Ok(Some(ContentBlock::RedactedThinking { data: b.at("data").string() }))
    } else if same(kind, "image") {
        match decode_source(b.at("source")) {
            Ok(source) => Ok(Some(ContentBlock::Image { source })),
            Err(e) => Err(e),
        }
    } else if same(kind, "document") {
        match decode_source(b.at("source")) {
            Ok(source) => Ok(Some(ContentBlock::Document { source })),
            Err(e) => Err(e),
        }
    } else if same(kind, "tool_use") {
        match b.at("name").opt_string() {
            Some(name) => Ok(
                Some(
                    ContentBlock::ToolUse {
                        id: b.at("id").string(),
                        name,
                        input: match b.at("input").copied() {
                            Some(v) => v,
                            None => Fields::new().done(),
                        },
                    },
                ),
            ),
            None => Err(Error::invalid("tool_use block is missing `name`")),
        }
    } else if same(kind, "tool_result") {
        match b.at("tool_use_id").opt_string() {
            Some(tool_use_id) => Ok(
                Some(
                    ContentBlock::ToolResult {
                        tool_use_id,
                        name: String::new(),
                        content: decode_result_content(b.at("content")),
                        is_error: is_true(b.at("is_error").flag()),
                    },
                ),
            ),
            None => Err(Error::invalid("tool_result block is missing `tool_use_id`")),
        }
    } else {
        Ok(None)
    }
}

pub open spec fn blocks_of(bs: Seq<Tree>, i: int, acc: Seq<BlockV>) -> Result<Seq<BlockV>, ErrorV>
    decreases bs.len() - i,
{
    if i < 0 || i >= bs.len() {
        Ok(acc)
    } else {
        match block_of(bs[i]) {
            Ok(Some(b)) => blocks_of(bs, i + 1, acc.push(b)),
            Ok(None) => blocks_of(bs, i + 1, acc),
            Err(e) => Err(e),
        }
    }
}

fn decode_blocks(bs: &Vec<Json>) -> (r: Result<Vec<ContentBlock>, Error>)
    ensures
        match r {
            Ok(v) => blocks_of(views::of(bs@), 0, Seq::empty()) == Ok::<Seq<BlockV>, ErrorV>(views::of(v@)),
            Err(e) => blocks_of(views::of(bs@), 0, Seq::empty()) == Err::<Seq<BlockV>, ErrorV>(e@),
        },
{
    let ghost trees = views::of(bs@);
    let mut out: Vec<ContentBlock> = Vec::new();
    for i in 0..bs.len()
        invariant
            trees == views::of(bs@),
            blocks_of(trees, 0, Seq::empty()) == blocks_of(trees, i as int, views::of(out@)),
    {
        assert(trees[i as int] == bs@[i as int]@);
        match decode_block(&bs[i]) {
            Ok(Some(b)) => out.push(b),
            Ok(None) => {},
            Err(e) => {
                return Err(e);
            },
        }
    }
    Ok(out)
}

pub open spec fn content_of(v: Option<Tree>) -> Result<Seq<BlockV>, ErrorV> {
    match v {
        Some(Tree::Str(s)) => Ok(Seq::empty().push(ir::text_block(s))),
        Some(Tree::Arr(bs)) => blocks_of(bs, 0, Seq::empty()),
        Some(Tree::Null) | None => Ok(Seq::empty()),
        Some(_) => Err(ErrorV::InvalidRequest("`content` must be a string or an array"@)),
    }
}

pub open spec fn role_of(v: Option<Seq<char>>) -> Result<Role, ErrorV> {
    match v {
        Some(s) => if s == "user"@ {
            Ok(Role::User)
        } else if s == "assistant"@ {
            Ok(Role::Assistant)
        } else {
            Err(ErrorV::InvalidRequest("unsupported message role `"@ + s + "`"@))
        },
        None => Err(ErrorV::InvalidRequest("message is missing `role`"@)),
    }
}

pub open spec fn message_of(m: Tree) -> Result<MessageV, ErrorV> {
    match role_of(m.at("role"@).text()) {
        Err(e) => Err(e),
        Ok(role) => match content_of(m.at("content"@)) {
            Ok(content) => Ok(MessageV { role, content }),
            Err(e) => Err(e),
        },
    }
}

fn decode_message(m: &Json) -> (r: Result<Message, Error>)
    ensures
        error::outcome(r) == message_of(m@),
{
    let role = match m.at("role").text() {
        Some(s) => if same(s, "user") {
            Role::User
        } else if same(s, "assistant") {
            Role::Assistant
        } else {
            return Err(Error::InvalidRequest(concat3("unsupported message role `", s, "`")));
        },
        None => {
            return Err(Error::invalid("message is missing `role`"));
        },
    };
    let c = m.at("content");
    let mut content: Vec<ContentBlock> = Vec::new();
    if let Some(s) = c.text() {
        content.push(ContentBlock::text(s));
    } else if let Some(bs) = c.list() {
        match decode_blocks(bs) {
            Ok(v) => {
                content = v;
            },
            Err(e) => {
                return Err(e);
            },
        }
    } else if c.not_null().is_some() {
        return Err(Error::invalid("`content` must be a string or an array"));
    }
    Ok(Message { role, content })
}

pub open spec fn messages_of(ms: Seq<Tree>, i: int, acc: Seq<MessageV>) -> Result<Seq<MessageV>, ErrorV>
    decreases ms.len() - i,
{
    if i < 0 || i >= ms.len() {
        Ok(acc)
    } else {
        match message_of(ms[i]) {
            Ok(m) => messages_of(ms, i + 1, acc.push(m)),
            Err(e) => Err(e),
        }
    }
}

fn decode_messages(ms: &Vec<Json>) -> (r: Result<Vec<Message>, Error>)
    ensures
        match r {
            Ok(v) => messages_of(views::of(ms@), 0, Seq::empty()) == Ok::<Seq<MessageV>, ErrorV>(views::of(v@)),
            Err(e) => messages_of(views::of(ms@), 0, Seq::empty()) == Err::<Seq<MessageV>, ErrorV>(e@),
        },
{
    let ghost trees = views::of(ms@);
    let mut out: Vec<Message> = Vec::new();
    for i in 0..ms.len()
        invariant
            trees == views::of(ms@),
            messages_of(trees, 0, Seq::empty()) == messages_of(trees, i as int, views::of(out@)),
    {
        assert(trees[i as int] == ms@[i as int]@);
        match decode_message(&ms[i]) {
            Ok(m) => out.push(m),
            Err(e) => {
                return Err(e);
            },
        }
    }
    Ok(out)
}

/// A tool definition; one without a name is skipped.
pub open spec fn tool(t: Tree) -> Option<ToolV> {
    match t.at("name"@).text() {
        Some(name) => Some(
            ToolV {
                name,
                description: t.at("description"@).text(),
                input_schema: match t.at("input_schema"@) {
                    Some(s) => s,
                    None => openai::object_schema(),
                },
                cache_control: t.at("cache_control"@),
            },
        ),
        None => None,
    }
}

pub open spec fn tools(ts: Seq<Tree>, i: int, acc: Seq<ToolV>) -> Seq<ToolV>
    decreases ts.len() - i,
{
    if i < 0 || i >= ts.len() {
        acc
    } else {
        match tool(ts[i]) {
            Some(t) => tools(ts, i + 1, acc.push(t)),
            None => tools(ts, i + 1, acc),
        }
    }
}

fn decode_tool(t: &Json) -> (r: Option<ToolDef>)
    ensures
        views::opt(r) == tool(t@),
{
    match t.at("name").opt_string() {
        Some(name) => Some(
            ToolDef {
                name,
                description: t.at("description").opt_string(),
                input_schema: match t.at("input_schema").copied() {
                    Some(s) => s,
                    None => Fields::new().with("type", js("object")).done(),
                },
                cache_control: t.at("cache_control").copied(),
            },
        ),
        None => None,
    }
}

fn decode_tools(v: At<'_>) -> (r: Vec<ToolDef>)
    ensures
        views::of(r@) == match v@.list() {
            Some(ts) => tools(ts, 0, Seq::empty()),
            None => Seq::empty(),
        },
{
    let mut out: Vec<ToolDef> = Vec::new();
    if let Some(ts) = v.list() {
        let ghost trees = views::of(ts@);
        for i in 0..ts.len()
            invariant
                trees == views::of(ts@),
                tools(trees, 0, Seq::empty()) == tools(trees, i as int, views::of(out@)),
        {
            assert(trees[i as int] == ts@[i as int]@);
            if let Some(t) = decode_tool(&ts[i]) {
                out.push(t);
            }
        }
    }
    out
}

pub open spec fn choice(v: Option<Tree>) -> Option<ChoiceV> {
    let kind = v.at("type"@).text();
    if kind == Some("auto"@) {
        Some(ChoiceV::Auto)
    } else if kind == Some("any"@) {
        Some(ChoiceV::Any)
    } else if kind == Some("none"@) {
        Some(ChoiceV::NoTool)
    } else if kind == Some("tool"@) {
        match v.at("name"@).text() {
            Some(name) => Some(ChoiceV::Specific { name }),
            None => None,
        }
    } else {
        None
    }
}

fn decode_choice(v: At<'_>) -> (r: Option<ToolChoice>)
    ensures
        views::opt(r) == choice(v@),
{
    let kind = v.at("type");
    if kind.is_text("auto") {
        Some(ToolChoice::Auto)
    } else if kind.is_text("any") {
        Some(ToolChoice::Any)
    } else if kind.is_text("none") {
        Some(ToolChoice::NoTool)
    } else if kind.is_text("tool") {
        match v.at("name").opt_string() {
            Some(name) => Some(ToolChoice::Specific { name }),
            None => None,
        }
    } else {
        None
    }
}

pub open spec fn thinking_of(v: Option<Tree>) -> Option<ThinkingConfig> {
    match v {
        Some(t) => Some(
            ThinkingConfig {
                enabled: t.at("type"@).text() == Some("enabled"@),
                budget_tokens: t.at("budget_tokens"@).limit(),
            },
        ),
        None => None,
    }
}

fn decode_thinking(v: At<'_>) -> (r: Option<ThinkingConfig>)
    ensures
        r == thinking_of(v@),
{
    if v.is_some() {
        Some(
            ThinkingConfig {
                enabled: v.at("type").is_text("enabled"),
                budget_tokens: v.at("budget_tokens").limit(),
            },
        )
    } else {
        None
    }
}

/// The request that a body holds.
pub open spec fn request_of(body: Tree) -> Result<RequestV, ErrorV> {
    match Some(body).fields() {
        None => Err(ErrorV::InvalidRequest("request body must be a JSON object"@)),
        Some(obj) => match body.at("model"@).text() {
            None => Err(ErrorV::InvalidRequest("`model` is required"@)),
            Some(model) => match system_of(body.at("system"@)) {
                Err(e) => Err(e),
                Ok(system) => match body.at("messages"@).list() {
                    None => Err(ErrorV::InvalidRequest("`messages` is required"@)),
                    Some(ms) => match messages_of(ms, 0, Seq::empty()) {
                        Err(e) => Err(e),
                        Ok(messages) => Ok(
                            RequestV {
                                model,
                                source_dialect: Dialect::Anthropic,
                                system,
                                messages,
                                max_tokens: body.at("max_tokens"@).limit(),
                                temperature: body.at("temperature"@).float(),
                                top_p: body.at("top_p"@).float(),
                                top_k: body.at("top_k"@).limit(),
                                stop_sequences: match body.at("stop_sequences"@).list() {
                                    Some(a) => openai::texts(a, 0, Seq::empty()),
                                    None => Seq::empty(),
                                },
                                stream: body.at("stream"@).flag() == Some(true),
                                tools: match body.at("tools"@).list() {
                                    Some(ts) => tools(ts, 0, Seq::empty()),
                                    None => Seq::empty(),
                                },
                                tool_choice: choice(body.at("tool_choice"@)),
                                thinking: thinking_of(body.at("thinking"@)),
                                metadata_user: body.at("metadata"@).at("user_id"@).text(),
                                passthrough: unknown_fields(obj, 0, json::fs()),
                                unsupported_content_policy: UnsupportedContentPolicy::Drop,
                            },
                        ),
                    },
                },
            },
        },
    }
}

/// Decode a Messages request.
pub fn decode_request(body: Json) -> (r: Result<ChatRequest, Error>)
    ensures
        error::outcome(r) == request_of(body@),
{
    let obj = match body.here().fields() {
        Some(o) => o,
        None => {
            return Err(Error::invalid("request body must be a JSON object"));
        },
    };
    let model = match body.at("model").text() {
        Some(m) => m,
        None => {
            return Err(Error::invalid("`model` is required"));
        },
    };
    let mut req = ChatRequest::new(model, Dialect::Anthropic);
    match decode_system(body.at("system")) {
        Ok(s) => {
            req.system = s;
        },
        Err(e) => {
            return Err(e);
        },
    }
    let messages = match body.at("messages").list() {
        Some(m) => m,
        None => {
            return Err(Error::invalid("`messages` is required"));
        },
    };
    match decode_messages(messages) {
        Ok(m) => {
            req.messages = m;
        },
        Err(e) => {
            return Err(e);
        },
    }
    req.max_tokens = body.at("max_tokens").limit();
    req.temperature = body.at("temperature").float();
    req.top_p = body.at("top_p").float();
    req.top_k = body.at("top_k").limit();
    req.stream = is_true(body.at("stream").flag());
    if let Some(a) = body.at("stop_sequences").list() {
        req.stop_sequences = decode_texts(a);
    }
    req.tools = decode_tools(body.at("tools"));
    req.tool_choice = decode_choice(body.at("tool_choice"));
    req.thinking = decode_thinking(body.at("thinking"));
    req.metadata_user = body.at("metadata").at("user_id").opt_string();
    req.passthrough = decode_unknown(obj);
    Ok(req)
}

// ------------------------------------------------------------- request out

/// Put a cache marker back.
///
/// A prompt cache breakpoint is the caller's decision about money, so it travels
/// through untouched rather than being re-derived or quietly dropped.
pub open spec fn with_cache(m: Seq<(Seq<char>, Tree)>, marker: Option<Tree>) -> Tree {
    Tree::Obj(
        match marker {
            Some(c) => m.set("cache_control"@, c),
            None => m,
        },
    )
}

fn add_cache(m: Fields, marker: &Option<Json>) -> (r: Json)
    ensures
        r@ == with_cache(m@, views::opt(*marker)),
{
    let mut m = m;
    if let Some(c) = marker {
        m.put("cache_control", c.clone());
    }
    m.done()
}

pub open spec fn source_out(s: SourceV) -> Tree {
    Tree::Obj(
        match s {
            SourceV::Base64 { media_type, data } => json::fs().with("type"@, json::st("base64"@)).with(
                "media_type"@,
                json::st(media_type),
            ).with("data"@, json::st(data)),
            SourceV::Url { url } => json::fs().with("type"@, json::st("url"@)).with("url"@, json::st(url)),
            SourceV::Reference { id } => json::fs().with("type"@, json::st("url"@)).with("url"@, json::st(id)),
        },
    )
}

fn encode_source(s: &MediaSource) -> (r: Json)
    ensures
        r@ == source_out(s@),
{
    match s {
        MediaSource::Base64 { media_type, data } => Fields::new().with("type", js("base64")).with(
            "media_type",
            js(media_type.as_str()),
        ).with("data", js(data.as_str())).done(),
        MediaSource::Url { url } => Fields::new().with("type", js("url")).with("url", js(url.as_str())).done(),
        MediaSource::Reference { id } => Fields::new().with("type", js("url")).with("url", js(id.as_str())).done(),
    }
}

pub open spec fn text_fields(t: Seq<char>) -> Seq<(Seq<char>, Tree)> {
    json::fs().with("type"@, json::st("text"@)).with("text"@, json::st(t))
}

pub open spec fn part_out(p: PartV) -> Tree {
    match p {
        PartV::Text { text } => Tree::Obj(text_fields(text)),
        PartV::Image { source } => Tree::Obj(
            json::fs().with("type"@, json::st("image"@)).with("source"@, source_out(source)),
        ),
    }
}

pub open spec fn parts_out(ps: Seq<PartV>) -> Tree {
    Tree::Arr(Seq::new(ps.len(), |i: int| part_out(ps[i])))
}

fn encode_parts(ps: &Vec<ToolResultPart>) -> (r: Json)
    ensures
        r@ == parts_out(views::of(ps@)),
{
    let mut out: Vec<Json> = Vec::new();
    for i in 0..ps.len()
        invariant
            out@.len() == i,
            forall|j: int| 0 <= j < i ==> (#[trigger] out@[j])@ == part_out(ps@[j]@),
    {
        let x = match &ps[i] {
            ToolResultPart::Text { text } => Fields::new().with("type", js("text")).with(
                "text",
                js(text.as_str()),
            ).done(),
            ToolResultPart::Image { source } => Fields::new().with("type", js("image")).with(
                "source",
                encode_source(source),
            ).done(),
        };
        out.push(x);
    }
    let r = array(out);
    assert(r@->Arr_0 =~= parts_out(views::of(ps@))->Arr_0);
    r
}

/// A block on the wire; a kind without a wire form is `null`.
pub open spec fn block_out(b: BlockV) -> Tree {
    match b {
        BlockV::Text { text, cache_control } => with_cache(text_fields(text), cache_control),
        BlockV::Thinking { text, signature } => Tree::Obj(
            json::fs().set("type"@, json::st("thinking"@)).set("thinking"@, json::st(text)).set(
                "signature"@,
                json::st(
                    match signature {
                        Some(s) => s,
                        None => Seq::empty(),
                    },
                ),
            ),
        ),
        BlockV::RedactedThinking { data } => Tree::Obj(
            json::fs().with("type"@, json::st("redacted_thinking"@)).with("data"@, json::st(data)),
        ),
        BlockV::Image { source } => Tree::Obj(
            json::fs().with("type"@, json::st("image"@)).with("source"@, source_out(source)),
        ),
        BlockV::Document { source } => Tree::Obj(
            json::fs().with("type"@, json::st("document"@)).with("source"@, source_out(source)),
        ),
        BlockV::ToolUse { id, name, input } => Tree::Obj(
            json::fs().with("type"@, json::st("tool_use"@)).with("id"@, json::st(id)).with(
                "name"@,
                json::st(name),
            ).with("input"@, input),
        ),
        BlockV::ToolResult { tool_use_id, content, is_error, .. } => Tree::Obj(
            json::fs().with("type"@, json::st("tool_result"@)).with("tool_use_id"@, json::st(tool_use_id)).with(
                "content"@,
                parts_out(content),
            ).with("is_error"@, Tree::Bool(is_error)),
        ),
        _ => Tree::Null,
    }
}

pub(crate) fn encode_block(b: &ContentBlock) -> (r: Json)
    ensures
        r@ == block_out(b@),
{
    match b {
        ContentBlock::Text { text, cache_control } => add_cache(
            Fields::new().with("type", js("text")).with("text", js(text.as_str())),
            cache_control,
        ),
        ContentBlock::Thinking { text, signature } => {
            let mut m = Fields::new();
            m.put("type", js("thinking"));
            m.put("thinking", js(text.as_str()));
            match signature {
                Some(s) => m.put("signature", js(s.as_str())),
                None => m.put("signature", Json::Str(String::new())),
            }
            m.done()
        },
        ContentBlock::RedactedThinking { data } => Fields::new().with("type", js("redacted_thinking")).with(
            "data",
            js(data.as_str()),
        ).done(),
        ContentBlock::Image { source } => Fields::new().with("type", js("image")).with(
            "source",
            encode_source(source),
        ).done(),
        ContentBlock::Document { source } => Fields::new().with("type", js("document")).with(
            "source",
            encode_source(source),
        ).done(),
        ContentBlock::ToolUse { id, name, input } => Fields::new().with("type", js("tool_use")).with(
            "id",
            js(id.as_str()),
        ).with("name", js(name.as_str())).with("input", input.clone()).done(),
        ContentBlock::ToolResult { tool_use_id, content, is_error, .. } => Fields::new().with(
            "type",
            js("tool_result"),
        ).with("tool_use_id", js(tool_use_id.as_str())).with("content", encode_parts(content)).with(
            "is_error",
            Json::Bool(*is_error),
        ).done(),
        _ => Json::Null,
    }
}

/// The blocks of a message on the wire. Kinds that Anthropic does not take are
/// dealt with as the policy says.
pub open spec fn blocks_out(bs: Seq<BlockV>, policy: UnsupportedContentPolicy, i: int, acc: Seq<Tree>) -> Result<
    Seq<Tree>,
    ErrorV,
>
    decreases bs.len() - i,
{
    if i < 0 || i >= bs.len() {
        Ok(acc)
    } else {
        match bs[i] {
            BlockV::File { .. } | BlockV::Audio { .. } | BlockV::Video { .. } | BlockV::Citation { .. }
            | BlockV::Annotation { .. } => match protocol::stand_in(policy, bs[i]) {
                Ok(Some(b)) => blocks_out(bs, policy, i + 1, acc.push(block_out(b))),
                Ok(None) => blocks_out(bs, policy, i + 1, acc),
                Err(e) => Err(e),
            },
            _ => blocks_out(bs, policy, i + 1, acc.push(block_out(bs[i]))),
        }
    }
}

pub open spec fn role_out(r: Role) -> Seq<char> {
    match r {
        Role::User => "user"@,
        Role::Assistant => "assistant"@,
    }
}

pub open spec fn message_out(m: MessageV, policy: UnsupportedContentPolicy) -> Result<Tree, ErrorV> {
    match blocks_out(m.content, policy, 0, Seq::empty()) {
        Ok(content) => Ok(
            Tree::Obj(
                json::fs().with("role"@, json::st(role_out(m.role))).with("content"@, Tree::Arr(content)),
            ),
        ),
        Err(e) => Err(e),
    }
}

fn encode_message(m: &Message, policy: UnsupportedContentPolicy) -> (r: Result<Json, Error>)
    ensures
        error::outcome(r) == message_out(m@, policy),
{
    let role = match m.role {
        Role::User => "user",
        Role::Assistant => "assistant",
    };
    let ghost blocks = views::of(m.content@);
    let mut content: Vec<Json> = Vec::new();
    for i in 0..m.content.len()
        invariant
            blocks == views::of(m.content@),
            m@.content == blocks,
            blocks_out(blocks, policy, 0, Seq::empty()) == blocks_out(
                blocks,
                policy,
                i as int,
                views::of(content@),
            ),
    {
        let b: &ContentBlock = &m.content[i];
        assert(blocks[i as int] == b@);
        match b {
            ContentBlock::File { .. } | ContentBlock::Audio { .. } | ContentBlock::Video { .. }
            | ContentBlock::Citation { .. } | ContentBlock::Annotation { .. } => {
                match apply_content_policy(policy, b) {
                    Ok(Some(x)) => content.push(encode_block(&x)),
                    Ok(None) => {},
                    Err(e) => {
                        return Err(e);
                    },
                }
            },
            _ => content.push(encode_block(b)),
        }
    }
    Ok(Fields::new().with("role", js(role)).with("content", array(content)).done())
}

pub open spec fn messages_out(ms: Seq<MessageV>, policy: UnsupportedContentPolicy, i: int, acc: Seq<Tree>) -> Result<
    Seq<Tree>,
    ErrorV,
>
    decreases ms.len() - i,
{
    if i < 0 || i >= ms.len() {
        Ok(acc)
    } else {
        match message_out(ms[i], policy) {
            Ok(m) => messages_out(ms, policy, i + 1, acc.push(m)),
            Err(e) => Err(e),
        }
    }
}

pub open spec fn system_out(s: Seq<SystemV>) -> Tree {
    Tree::Arr(Seq::new(s.len(), |i: int| with_cache(text_fields(s[i].text), s[i].cache_control)))
}

fn encode_system(s: &Vec<SystemPart>) -> (r: Json)
    ensures
        r@ == system_out(views::of(s@)),
{
    let mut out: Vec<Json> = Vec::new();
    for i in 0..s.len()
        invariant
            out@.len() == i,
            forall|j: int|
                0 <= j < i ==> (#[trigger] out@[j])@ == with_cache(text_fields(s@[j]@.text), s@[j]@.cache_control),
    {
        let x = add_cache(
            Fields::new().with("type", js("text")).with("text", js(s[i].text.as_str())),
            &s[i].cache_control,
        );
        out.push(x);
    }
    let r = array(out);
    assert(r@->Arr_0 =~= system_out(views::of(s@))->Arr_0);
    r
}

pub open spec fn tool_out(t: ToolV) -> Tree {
    let m = json::fs().set("name"@, json::st(t.name));
    let m = match t.description {
        Some(d) => m.set("description"@, json::st(d)),
        None => m,
    };
    with_cache(m.set("input_schema"@, t.input_schema), t.cache_control)
}

pub open spec fn tools_out(ts: Seq<ToolV>) -> Tree {
    Tree::Arr(Seq::new(ts.len(), |i: int| tool_out(ts[i])))
}

fn encode_tool(t: &ToolDef) -> (r: Json)
    ensures
        r@ == tool_out(t@),
{
    let mut m = Fields::new();
    m.put("name", js(t.name.as_str()));
    if let Some(d) = &t.description {
        m.put("description", js(d.as_str()));
    }
    m.put("input_schema", t.input_schema.clone());
    add_cache(m, &t.cache_control)
}

fn encode_tools(ts: &Vec<ToolDef>) -> (r: Json)
    ensures
        r@ == tools_out(views::of(ts@)),
{
    let mut out: Vec<Json> = Vec::new();
    for i in 0..ts.len()
        invariant
            out@.len() == i,
            forall|j: int| 0 <= j < i ==> (#[trigger] out@[j])@ == tool_out(ts@[j]@),
    {
        let x = encode_tool(&ts[i]);
        out.push(x);
    }
    let r = array(out);
    assert(r@->Arr_0 =~= tools_out(views::of(ts@))->Arr_0);
    r
}

pub open spec fn choice_out(c: ChoiceV) -> Tree {
    Tree::Obj(
        match c {
            ChoiceV::Auto => json::fs().with("type"@, json::st("auto"@)),
            ChoiceV::Any => json::fs().with("type"@, json::st("any"@)),
            ChoiceV::NoTool => json::fs().with("type"@, json::st("none"@)),
            ChoiceV::Specific { name } => json::fs().with("type"@, json::st("tool"@)).with("name"@, json::st(name)),
        },
    )
}

fn encode_choice(c: &ToolChoice) -> (r: Json)
    ensures
        r@ == choice_out(c@),
{
    match c {
        ToolChoice::Auto => Fields::new().with("type", js("auto")).done(),
        ToolChoice::Any => Fields::new().with("type", js("any")).done(),
        ToolChoice::NoTool => Fields::new().with("type", js("none")).done(),
        ToolChoice::Specific { name } => Fields::new().with("type", js("tool")).with(
            "name",
            js(name.as_str()),
        ).done(),
    }
}

pub open spec fn request_fields(req: RequestV, model: Seq<char>, messages: Seq<Tree>) -> Seq<(Seq<char>, Tree)> {
    let b = json::fs().set("model"@, json::st(model)).set(
        "max_tokens"@,
        json::num(
            match req.max_tokens {
                Some(n) => n as int,
                None => DEFAULT_MAX_TOKENS as int,
            },
        ),
    );
    let b = if req.system.len() > 0 { b.set("system"@, system_out(req.system)) } else { b };
    let b = b.set("messages"@, Tree::Arr(messages));
    let b = match req.temperature {
        Some(t) => b.set("temperature"@, Tree::Float(t)),
        None => b,
    };
    let b = match req.top_p {
        Some(p) => b.set("top_p"@, Tree::Float(p)),
        None => b,
    };
    let b = match req.top_k {
        Some(k) => b.set("top_k"@, json::num(k as int)),
        None => b,
    };
    let b = if req.stop_sequences.len() > 0 {
        b.set("stop_sequences"@, json::text_list(req.stop_sequences))
    } else {
        b
    };
    let b = if req.stream { b.set("stream"@, Tree::Bool(true)) } else { b };
    let b = if req.tools.len() > 0 { b.set("tools"@, tools_out(req.tools)) } else { b };
    let b = match req.tool_choice {
        Some(c) => b.set("tool_choice"@, choice_out(c)),
        None => b,
    };
    let b = match req.thinking {
        Some(t) => if t.enabled {
            b.set(
                "thinking"@,
                Tree::Obj(
                    json::fs().set("type"@, json::st("enabled"@)).set(
                        "budget_tokens"@,
                        json::num(
                            match t.budget_tokens {
                                Some(n) => n as int,
                                None => 2048,
                            },
                        ),
                    ),
                ),
            )
        } else {
            b
        },
        None => b,
    };
    let b = match req.metadata_user {
        Some(u) => b.set("metadata"@, Tree::Obj(json::fs().with("user_id"@, json::st(u)))),
        None => b,
    };
    // Vendor extensions are only forwarded within the same dialect.
    if req.source_dialect == Dialect::Anthropic {
        openai::filled(b, req.passthrough, 0)
    } else {
        b
    }
}

/// The body for a request.
pub open spec fn request_body(req: RequestV, model: Seq<char>) -> Result<Tree, ErrorV> {
    match messages_out(req.messages, req.unsupported_content_policy, 0, Seq::empty()) {
        Ok(messages) => Ok(Tree::Obj(request_fields(req, model, messages))),
        Err(e) => Err(e),
    }
}

/// What is left over of another dialect's request is not written.
pub proof fn foreign_fields_are_not_written(req: RequestV, left_over: Seq<(Seq<char>, Tree)>, model: Seq<char>)
    requires
        req.source_dialect != Dialect::Anthropic,
    ensures
        request_body(RequestV { passthrough: left_over, ..req }, model) == request_body(req, model),
{
}

/// Encode a request for an Anthropic upstream.
pub fn encode_request(req: &ChatRequest, upstream_model: &str) -> (r: Result<Json, Error>)
    ensures
        error::outcome(r) == request_body(req@, upstream_model@),
{
    let mut messages: Vec<Json> = Vec::new();
    let ghost ms = req@.messages;
    let policy = req.unsupported_content_policy;
    for i in 0..req.messages.len()
        invariant
            ms == views::of(req.messages@),
            ms == req@.messages,
            policy == req@.unsupported_content_policy,
            messages_out(ms, policy, 0, Seq::empty()) == messages_out(ms, policy, i as int, views::of(messages@)),
    {
        assert(ms[i as int] == req.messages@[i as int]@);
        match encode_message(&req.messages[i], policy) {
            Ok(m) => messages.push(m),
            Err(e) => {
                return Err(e);
            },
        }
    }
    let ghost done = views::of(messages@);
    let mut body = Fields::new();
    body.put("model", js(upstream_model));
    body.put(
        "max_tokens",
        Json::UInt(
            match req.max_tokens {
                Some(n) => n as u64,
                None => DEFAULT_MAX_TOKENS as u64,
            },
        ),
    );
    if req.system.len() > 0 {
        body.put("system", encode_system(&req.system));
    }
    body.put("messages", array(messages));
    if let Some(t) = &req.temperature {
        body.put("temperature", Json::Float(t.clone()));
    }
    if let Some(p) = &req.top_p {
        body.put("top_p", Json::Float(p.clone()));
    }
    if let Some(k) = req.top_k {
        body.put("top_k", Json::UInt(k as u64));
    }
    if req.stop_sequences.len() > 0 {
        body.put("stop_sequences", json::texts(&req.stop_sequences));
    }
    if req.stream {
        body.put("stream", Json::Bool(true));
    }
    if req.tools.len() > 0 {
        body.put("tools", encode_tools(&req.tools));
    }
    if let Some(c) = &req.tool_choice {
        body.put("tool_choice", encode_choice(c));
    }
    if let Some(t) = &req.thinking {
        if t.enabled {
            let mut m = Fields::new();
            m.put("type", js("enabled"));
            m.put(
                "budget_tokens",
                Json::UInt(
                    match t.budget_tokens {
                        Some(n) => n as u64,
                        None => 2048,
                    },
                ),
            );
            body.put("thinking", m.done());
        }
    }
    if let Some(u) = &req.metadata_user {
        body.put("metadata", Fields::new().with("user_id", js(u.as_str())).done());
    }
    if req.source_dialect == Dialect::Anthropic {
        fill(&mut body, &req.passthrough);
    }
    assert(body@ == request_fields(req@, upstream_model@, done));
    Ok(body.done())
}

// --------------------------------------------------------------- responses

pub open spec fn stop_reason(s: Seq<char>) -> StopReason {
    if s == "end_turn"@ {
        StopReason::EndTurn
    } else if s == "max_tokens"@ {
        StopReason::MaxTokens
    } else if s == "stop_sequence"@ {
        StopReason::StopSequence
    } else if s == "tool_use"@ {
        StopReason::ToolUse
    } else if s == "refusal"@ {
        StopReason::Refusal
    } else {
        StopReason::Unknown
    }
}

pub fn stop_reason_from_str(s: &str) -> (r: StopReason)
    ensures
        r == stop_reason(s@),
{
    if same(s, "end_turn") {
        StopReason::EndTurn
    } else if same(s, "max_tokens") {
        StopReason::MaxTokens
    } else if same(s, "stop_sequence") {
        StopReason::StopSequence
    } else if same(s, "tool_use") {
        StopReason::ToolUse
    } else if same(s, "refusal") {
        StopReason::Refusal
    } else {
        StopReason::Unknown
    }
}

pub open spec fn stop_reason_text(r: StopReason) -> Option<Seq<char>> {
    match r {
        StopReason::EndTurn => Some("end_turn"@),
        StopReason::MaxTokens => Some("max_tokens"@),
        StopReason::StopSequence => Some("stop_sequence"@),
        StopReason::ToolUse => Some("tool_use"@),
        StopReason::Refusal => Some("refusal"@),
        StopReason::Unknown => None,
    }
}

pub fn stop_reason_to_str(r: StopReason) -> (s: Option<&'static str>)
    ensures
        views::opt_str(s) == stop_reason_text(r),
{
    match r {
        StopReason::EndTurn => Some("end_turn"),
        StopReason::MaxTokens => Some("max_tokens"),
        StopReason::StopSequence => Some("stop_sequence"),
        StopReason::ToolUse => Some("tool_use"),
        StopReason::Refusal => Some("refusal"),
        StopReason::Unknown => None,
    }
}

/// A stop reason that was written is read back, whichever it is.
pub proof fn stop_reasons_round_trip(r: StopReason)
    ensures
        match stop_reason_text(r) {
            Some(s) => stop_reason(s) == r,
            None => r == StopReason::Unknown,
        },
{
    reveal_strlit("end_turn");
    reveal_strlit("max_tokens");
    reveal_strlit("stop_sequence");
    reveal_strlit("tool_use");
    reveal_strlit("refusal");
    assert("max_tokens"@.len() != "end_turn"@.len());
    assert("stop_sequence"@.len() != "end_turn"@.len());
    assert("stop_sequence"@.len() != "max_tokens"@.len());
    assert("tool_use"@[0] != "end_turn"@[0]);
    assert("tool_use"@.len() != "max_tokens"@.len());
    assert("tool_use"@.len() != "stop_sequence"@.len());
    assert("refusal"@.len() != "end_turn"@.len());
    assert("refusal"@.len() != "max_tokens"@.len());
    assert("refusal"@.len() != "stop_sequence"@.len());
    assert("refusal"@.len() != "tool_use"@.len());
}

pub open spec fn usage_of(v: Option<Tree>) -> Usage {
    Usage {
        input_tokens: v.at("input_tokens"@).count(),
        output_tokens: v.at("output_tokens"@).count(),
        cache_read_tokens: v.at("cache_read_input_tokens"@).count(),
        cache_write_tokens: v.at("cache_creation_input_tokens"@).count(),
        reasoning_tokens: 0,
    }
}

pub(crate) fn decode_usage(v: At<'_>) -> (r: Usage)
    ensures
        r == usage_of(v@),
{
    Usage {
        input_tokens: v.at("input_tokens").count(),
        output_tokens: v.at("output_tokens").count(),
        cache_read_tokens: v.at("cache_read_input_tokens").count(),
        cache_write_tokens: v.at("cache_creation_input_tokens").count(),
        reasoning_tokens: 0,
    }
}

pub open spec fn usage_out(u: Usage) -> Tree {
    Tree::Obj(
        json::fs().with("input_tokens"@, json::num(u.input_tokens as int)).with(
            "output_tokens"@,
            json::num(u.output_tokens as int),
        ).with("cache_read_input_tokens"@, json::num(u.cache_read_tokens as int)).with(
            "cache_creation_input_tokens"@,
            json::num(u.cache_write_tokens as int),
        ),
    )
}

pub(crate) fn encode_usage(u: &Usage) -> (r: Json)
    ensures
        r@ == usage_out(*u),
{
    Fields::new().with("input_tokens", Json::UInt(u.input_tokens as u64)).with(
        "output_tokens",
        Json::UInt(u.output_tokens as u64),
    ).with("cache_read_input_tokens", Json::UInt(u.cache_read_tokens as u64)).with(
        "cache_creation_input_tokens",
        Json::UInt(u.cache_write_tokens as u64),
    ).done()
}

pub open spec fn response_of(body: Tree) -> Result<ResponseV, ErrorV> {
    if body.at("type"@).text() == Some("error"@) {
        Err(
            ErrorV::BadUpstreamPayload(body.at("error"@).at("message"@).text_or("unknown upstream error"@)),
        )
    } else {
        match (match body.at("content"@).list() {
            Some(bs) => blocks_of(bs, 0, Seq::empty()),
            None => Ok(Seq::empty()),
        }) {
            Err(e) => Err(e),
            Ok(content) => Ok(
                ResponseV {
                    id: body.at("id"@).text_or("msg_unknown"@),
                    model: body.at("model"@).text_or(Seq::empty()),
                    content,
                    stop_reason: match body.at("stop_reason"@).text() {
                        Some(s) => stop_reason(s),
                        None => StopReason::Unknown,
                    },
                    stop_sequence: body.at("stop_sequence"@).text(),
                    usage: usage_of(body.at("usage"@)),
                    passthrough: json::fs(),
                },
            ),
        }
    }
}

/// Decode an answer.
pub fn decode_response(body: Json) -> (r: Result<ChatResponse, Error>)
    ensures
        error::outcome(r) == response_of(body@),
{
    if body.at("type").is_text("error") {
        return Err(
            Error::BadUpstreamPayload(body.at("error").at("message").string_or("unknown upstream error")),
        );
    }
    let mut content: Vec<ContentBlock> = Vec::new();
    if let Some(bs) = body.at("content").list() {
        match decode_blocks(bs) {
            Ok(v) => {
                content = v;
            },
            Err(e) => {
                return Err(e);
            },
        }
    }
    Ok(
        ChatResponse {
            id: body.at("id").string_or("msg_unknown"),
            model: body.at("model").string(),
            content,
            stop_reason: match body.at("stop_reason").text() {
                Some(s) => stop_reason_from_str(s),
                None => StopReason::Unknown,
            },
            stop_sequence: body.at("stop_sequence").opt_string(),
            usage: decode_usage(body.at("usage")),
            passthrough: Fields::new(),
        },
    )
}

/// A text, or `null`.
pub open spec fn text_or_null(o: Option<Seq<char>>) -> Tree {
    match o {
        Some(s) => json::st(s),
        None => Tree::Null,
    }
}

fn js_or_null(o: Option<&str>) -> (r: Json)
    ensures
        r@ == text_or_null(views::opt_str(o)),
{
    match o {
        Some(s) => js(s),
        None => Json::Null,
    }
}

fn string_or_null(o: &Option<String>) -> (r: Json)
    ensures
        r@ == text_or_null(views::opt(*o)),
{
    match o {
        Some(s) => js(s.as_str()),
        None => Json::Null,
    }
}

pub open spec fn content_out(bs: Seq<BlockV>) -> Tree {
    Tree::Arr(Seq::new(bs.len(), |i: int| block_out(bs[i])))
}

pub open spec fn response_body(resp: ResponseV) -> Tree {
    Tree::Obj(
        json::fs().with("id"@, json::st(resp.id)).with("type"@, json::st("message"@)).with(
            "role"@,
            json::st("assistant"@),
        ).with("model"@, json::st(resp.model)).with("content"@, content_out(resp.content)).with(
            "stop_reason"@,
            text_or_null(stop_reason_text(resp.stop_reason)),
        ).with("stop_sequence"@, text_or_null(resp.stop_sequence)).with("usage"@, usage_out(resp.usage)),
    )
}

/// Encode an answer.
pub fn encode_response(resp: &ChatResponse) -> (r: Json)
    ensures
        r@ == response_body(resp@),
{
    let mut content: Vec<Json> = Vec::new();
    for i in 0..resp.content.len()
        invariant
            content@.len() == i,
            forall|j: int| 0 <= j < i ==> (#[trigger] content@[j])@ == block_out(resp.content@[j]@),
    {
        let b = encode_block(&resp.content[i]);
        content.push(b);
    }
    assert(views::of(content@) =~= content_out(resp@.content)->Arr_0);
    Fields::new().with("id", js(resp.id.as_str())).with("type", js("message")).with("role", js("assistant")).with(
        "model",
        js(resp.model.as_str()),
    ).with("content", array(content)).with("stop_reason", js_or_null(stop_reason_to_str(resp.stop_reason))).with(
        "stop_sequence",
        string_or_null(&resp.stop_sequence),
    ).with("usage", encode_usage(&resp.usage)).done()
}

// --------------------------------------------------------------- stream in

/// Parses an Anthropic SSE stream into canonical events.
pub struct AnthropicStreamParser {
    pub model: String,
    pub usage: Usage,
    pub started: bool,
    pub open: Vec<u32>,
    pub stopped: bool,
}

pub struct ParserV {
    pub model: Seq<char>,
    pub usage: Usage,
    pub started: bool,
    pub open: Seq<u32>,
    pub stopped: bool,
}

impl View for AnthropicStreamParser {
    type V = ParserV;

    open spec fn view(&self) -> ParserV {
        ParserV {
            model: self.model@,
            usage: self.usage,
            started: self.started,
            open: self.open@,
            stopped: self.stopped,
        }
    }
}

pub open spec fn fresh_parser(model: Seq<char>) -> ParserV {
    ParserV { model, usage: ir::no_usage(), started: false, open: Seq::empty(), stopped: false }
}

/// A parser after a frame, with the events of the frame.
pub struct Step {
    pub p: ParserV,
    pub out: Seq<EventV>,
}

pub open spec fn no_event(p: ParserV) -> Step {
    Step { p, out: Seq::empty() }
}

pub open spec fn one_event(p: ParserV, e: EventV) -> Step {
    Step { p, out: Seq::empty().push(e) }
}

/// The indices but for one.
pub open spec fn but(open: Seq<u32>, index: u32, i: int, acc: Seq<u32>) -> Seq<u32>
    decreases open.len() - i,
{
    if i < 0 || i >= open.len() {
        acc
    } else if open[i] == index {
        but(open, index, i + 1, acc)
    } else {
        but(open, index, i + 1, acc.push(open[i]))
    }
}

/// A block opens.
pub open spec fn block_start(p: ParserV, index: u32, block: Option<Tree>) -> Step {
    let p = ParserV { open: p.open.push(index), ..p };
    let kind = block.at("type"@).text();
    if kind == Some("tool_use"@) {
        one_event(
            p,
            EventV::ToolUseStart {
                index,
                id: block.at("id"@).text_or(Seq::empty()),
                name: block.at("name"@).text_or(Seq::empty()),
            },
        )
    } else if kind == Some("redacted_thinking"@) {
        one_event(p, EventV::RedactedThinking { index, data: block.at("data"@).text_or(Seq::empty()) })
    } else if kind == Some("thinking"@) {
        match block.at("thinking"@).words() {
            Some(text) => one_event(p, EventV::ThinkingDelta { index, text }),
            None => no_event(p),
        }
    } else {
        match block.at("text"@).words() {
            Some(text) => one_event(p, EventV::TextDelta { index, text }),
            None => no_event(p),
        }
    }
}

/// A block goes on.
pub open spec fn block_delta(index: u32, delta: Option<Tree>) -> Option<EventV> {
    let kind = delta.at("type"@).text();
    if kind == Some("text_delta"@) {
        Some(EventV::TextDelta { index, text: delta.at("text"@).text_or(Seq::empty()) })
    } else if kind == Some("thinking_delta"@) {
        Some(EventV::ThinkingDelta { index, text: delta.at("thinking"@).text_or(Seq::empty()) })
    } else if kind == Some("signature_delta"@) {
        Some(EventV::ThinkingSignature { index, signature: delta.at("signature"@).text_or(Seq::empty()) })
    } else if kind == Some("input_json_delta"@) {
        Some(EventV::ToolUseDelta { index, partial_json: delta.at("partial_json"@).text_or(Seq::empty()) })
    } else {
        None
    }
}

/// The message stops. Its frame only carries output side counters.
pub open spec fn message_delta(p: ParserV, v: Tree) -> Step {
    let partial = usage_of(v.at("usage"@));
    let usage = if v.at("usage"@) is Some {
        Usage {
            output_tokens: partial.output_tokens,
            input_tokens: if partial.input_tokens > 0 { partial.input_tokens } else { p.usage.input_tokens },
            ..p.usage
        }
    } else {
        p.usage
    };
    one_event(
        ParserV { usage, stopped: true, ..p },
        EventV::Stop {
            stop_reason: match v.at("delta"@).at("stop_reason"@).text() {
                Some(s) => stop_reason(s),
                None => StopReason::Unknown,
            },
            stop_sequence: v.at("delta"@).at("stop_sequence"@).text(),
            usage,
        },
    )
}

/// The message starts.
pub open spec fn message_start(p: ParserV, v: Tree) -> Step {
    let msg = v.at("message"@);
    let usage = usage_of(msg.at("usage"@));
    one_event(
        ParserV { usage, started: true, ..p },
        EventV::Start {
            id: msg.at("id"@).text_or("msg_stream"@),
            model: msg.at("model"@).text_or(p.model),
            usage,
        },
    )
}

/// One payload under its event name.
pub open spec fn push_payload(p: ParserV, kind: Seq<char>, v: Tree) -> Result<Step, ErrorV> {
    let index = v.at("index"@).count();
    if kind == "message_start"@ {
        Ok(message_start(p, v))
    } else if kind == "content_block_start"@ {
        Ok(block_start(p, index, v.at("content_block"@)))
    } else if kind == "content_block_delta"@ {
        Ok(
            match block_delta(index, v.at("delta"@)) {
                Some(e) => one_event(p, e),
                None => no_event(p),
            },
        )
    } else if kind == "content_block_stop"@ {
        Ok(
            one_event(
                ParserV { open: but(p.open, index, 0, Seq::empty()), ..p },
                EventV::BlockStop { index },
            ),
        )
    } else if kind == "message_delta"@ {
        Ok(message_delta(p, v))
    } else if kind == "ping"@ {
        Ok(one_event(p, EventV::Ping))
    } else if kind == "error"@ {
        Err(ErrorV::BadUpstreamPayload(v.at("error"@).at("message"@).text_or("upstream stream error"@)))
    } else {
        Ok(no_event(p))
    }
}

/// One frame. Its event name goes before the payload's own `type`.
pub open spec fn push_frame(p: ParserV, frame: FrameV) -> Result<Step, ErrorV> {
    if text::trimmed(frame.data) == "[DONE]"@ {
        Ok(no_event(p))
    } else {
        match frame.json() {
            Err(e) => Err(e),
            Ok(v) => push_payload(
                p,
                match frame.event {
                    Some(e) => e,
                    None => v.at("type"@).text_or(Seq::empty()),
                },
                v,
            ),
        }
    }
}

/// A stop for each block that is open.
pub open spec fn block_stops(open: Seq<u32>) -> Seq<EventV> {
    Seq::new(open.len(), |i: int| EventV::BlockStop { index: open[i] })
}

/// The end of the body: what is open is closed, and a stop that did not come is made up for.
pub open spec fn finished(p: ParserV) -> Step {
    let q = ParserV { open: Seq::empty(), ..p };
    if p.started && !p.stopped {
        Step {
            p: ParserV { stopped: true, ..q },
            out: block_stops(p.open).push(
                EventV::Stop { stop_reason: StopReason::Unknown, stop_sequence: None, usage: p.usage },
            ),
        }
    } else {
        Step { p: q, out: block_stops(p.open) }
    }
}

/// Ending twice is ending once: the second time there is nothing left to close.
pub proof fn finishing_twice_adds_nothing(p: ParserV)
    ensures
        finished(finished(p).p) == no_event(finished(p).p),
{
    assert(block_stops(Seq::empty()) =~= Seq::empty());
}

fn single(e: StreamEvent) -> (r: Vec<StreamEvent>)
    ensures
        views::of(r@) == Seq::empty().push(e@),
{
    let mut out: Vec<StreamEvent> = Vec::new();
    out.push(e);
    out
}

impl AnthropicStreamParser {
    pub fn new(model: &str) -> (r: Self)
        ensures
            r@ == fresh_parser(model@),
    {
        AnthropicStreamParser {
            model: model.to_owned(),
            usage: Usage::default(),
            started: false,
            open: Vec::new(),
            stopped: false,
        }
    }

    fn close(&mut self, index: u32)
        ensures
            final(self)@ == (ParserV { open: but(old(self)@.open, index, 0, Seq::empty()), ..old(self)@ }),
    {
        let mut kept: Vec<u32> = Vec::new();
        for i in 0..self.open.len()
            invariant
                but(self.open@, index, 0, Seq::empty()) == but(self.open@, index, i as int, kept@),
        {
            let x: u32 = self.open[i];
            if x != index {
                kept.push(x);
            }
        }
        self.open = kept;
    }

    fn on_block_start(&mut self, index: u32, block: At<'_>) -> (r: Vec<StreamEvent>)
        ensures
            (Step { p: final(self)@, out: views::of(r@) }) == block_start(old(self)@, index, block@),
    {
        self.open.push(index);
        let kind = block.at("type");
        if kind.is_text("tool_use") {
            single(
                StreamEvent::ToolUseStart { index, id: block.at("id").string(), name: block.at("name").string() },
            )
        } else if kind.is_text("redacted_thinking") {
            single(StreamEvent::RedactedThinking { index, data: block.at("data").string() })
        } else if kind.is_text("thinking") {
            match block.at("thinking").words() {
                Some(t) => single(StreamEvent::ThinkingDelta { index, text: t.to_owned() }),
                None => Vec::new(),
            }
        } else {
            match block.at("text").words() {
                Some(t) => single(StreamEvent::TextDelta { index, text: t.to_owned() }),
                None => Vec::new(),
            }
        }
    }

    fn on_block_delta(index: u32, delta: At<'_>) -> (r: Option<StreamEvent>)
        ensures
            views::opt(r) == block_delta(index, delta@),
    {
        let kind = delta.at("type");
        if kind.is_text("text_delta") {
            Some(StreamEvent::TextDelta { index, text: delta.at("text").string() })
        } else if kind.is_text("thinking_delta") {
            Some(StreamEvent::ThinkingDelta { index, text: delta.at("thinking").string() })
        } else if kind.is_text("signature_delta") {
            Some(StreamEvent::ThinkingSignature { index, signature: delta.at("signature").string() })
        } else if kind.is_text("input_json_delta") {
            Some(StreamEvent::ToolUseDelta { index, partial_json: delta.at("partial_json").string() })
        } else {
            None
        }
    }

    fn on_message_start(&mut self, v: &Json) -> (r: Vec<StreamEvent>)
        ensures
            (Step { p: final(self)@, out: views::of(r@) }) == message_start(old(self)@, v@),
    {
        let msg = v.at("message");
        self.usage = decode_usage(msg.at("usage"));
        self.started = true;
        single(
            StreamEvent::Start {
                id: msg.at("id").string_or("msg_stream"),
                model: msg.at("model").string_or(self.model.as_str()),
                usage: self.usage,
            },
        )
    }

    fn on_message_delta(&mut self, v: &Json) -> (r: Vec<StreamEvent>)
        ensures
            (Step { p: final(self)@, out: views::of(r@) }) == message_delta(old(self)@, v@),
    {
        let delta = v.at("delta");
        if v.at("usage").is_some() {
            let partial = decode_usage(v.at("usage"));
            self.usage.output_tokens = partial.output_tokens;
            if partial.input_tokens > 0 {
                self.usage.input_tokens = partial.input_tokens;
            }
        }
        self.stopped = true;
        single(
            StreamEvent::Stop {
                stop_reason: match delta.at("stop_reason").text() {
                    Some(s) => stop_reason_from_str(s),
                    None => StopReason::Unknown,
                },
                stop_sequence: delta.at("stop_sequence").opt_string(),
                usage: self.usage,
            },
        )
    }
}

impl StreamParser for AnthropicStreamParser {
    fn push(&mut self, frame: &SseFrame) -> (r: Result<Vec<StreamEvent>, Error>)
        ensures
            match r {
                Ok(out) => push_frame(old(self)@, frame@) == Ok::<Step, ErrorV>(
                    Step { p: final(self)@, out: views::of(out@) },
                ),
                Err(e) => push_frame(old(self)@, frame@) == Err::<Step, ErrorV>(e@) && final(self)@ == old(self)@,
            },
    {
        if same(trim(frame.data.as_str()), "[DONE]") {
            return Ok(Vec::new());
        }
        let v = match frame.json() {
            Ok(v) => v,
            Err(e) => {
                return Err(e);
            },
        };
        let kind: String = match &frame.event {
            Some(e) => e.clone(),
            None => v.at("type").string(),
        };
        let kind = kind.as_str();
        let index: u32 = v.at("index").count();
        if same(kind, "message_start") {
            Ok(self.on_message_start(&v))
        } else if same(kind, "content_block_start") {
            Ok(self.on_block_start(index, v.at("content_block")))
        } else if same(kind, "content_block_delta") {
            match AnthropicStreamParser::on_block_delta(index, v.at("delta")) {
                Some(e) => Ok(single(e)),
                None => Ok(Vec::new()),
            }
        } else if same(kind, "content_block_stop") {
            self.close(index);
            Ok(single(StreamEvent::BlockStop { index }))
        } else if same(kind, "message_delta") {
            Ok(self.on_message_delta(&v))
        } else if same(kind, "ping") {
            Ok(single(StreamEvent::Ping))
        } else if same(kind, "error") {
            Err(Error::BadUpstreamPayload(v.at("error").at("message").string_or("upstream stream error")))
        } else {
            Ok(Vec::new())
        }
    }

    fn finish(&mut self) -> (r: Vec<StreamEvent>)
        ensures
            (Step { p: final(self)@, out: views::of(r@) }) == finished(old(self)@),
    {
        let mut out: Vec<StreamEvent> = Vec::new();
        for i in 0..self.open.len()
            invariant
                out@.len() == i,
                forall|j: int|
                    0 <= j < i ==> (#[trigger] out@[j])@ == (EventV::BlockStop { index: self.open@[j] }),
        {
            out.push(StreamEvent::BlockStop { index: self.open[i] });
        }
        assert(views::of(out@) =~= block_stops(self@.open));
        self.open = Vec::new();
        if self.started && !self.stopped {
            out.push(StreamEvent::Stop { stop_reason: StopReason::Unknown, stop_sequence: None, usage: self.usage });
            self.stopped = true;
        }
        out
    }
}

// -------------------------------------------------------------- stream out

/// What an open block holds.
#[derive(Debug, Clone, Copy, PartialEq, Eq, Structural)]
pub enum OpenKind {
    Text,
    Thinking,
    ToolUse,
}

/// Renders canonical events as an Anthropic SSE stream, opening and closing
/// content blocks as needed.
pub struct AnthropicStreamEncoder {
    pub model: String,
    pub open: Vec<(u32, OpenKind)>,
    pub started: bool,
    pub usage: Usage,
    pub id: String,
    pub finished: bool,
}

pub struct EncoderV {
    pub model: Seq<char>,
    pub open: Seq<(u32, OpenKind)>,
    pub started: bool,
    pub usage: Usage,
    pub id: Seq<char>,
    pub finished: bool,
}

impl View for AnthropicStreamEncoder {
    type V = EncoderV;

    open spec fn view(&self) -> EncoderV {
        EncoderV {
            model: self.model@,
            open: self.open@,
            started: self.started,
            usage: self.usage,
            id: self.id@,
            finished: self.finished,
        }
    }
}

pub open spec fn fresh_encoder(model: Seq<char>, id: Seq<char>) -> EncoderV {
    EncoderV { model, open: Seq::empty(), started: false, usage: ir::no_usage(), id, finished: false }
}

/// A frame under its event name.
pub open spec fn named_frame(event: Seq<char>, data: Tree) -> FrameV {
    FrameV { event: Some(event), data: json::rendered(data) }
}

/// Where a block is open, from the `i`th on; the length where it is not.
pub open spec fn open_at(open: Seq<(u32, OpenKind)>, index: u32, i: int) -> int
    decreases open.len() - i,
{
    if i < 0 || i >= open.len() {
        open.len() as int
    } else if open[i].0 == index {
        i
    } else {
        open_at(open, index, i + 1)
    }
}

/// No block is open twice.
pub open spec fn open_once(open: Seq<(u32, OpenKind)>) -> bool {
    forall|i: int, j: int| 0 <= i < j < open.len() ==> (#[trigger] open[i]).0 != (#[trigger] open[j]).0
}

/// An encoder with the frames that it has put out.
pub struct Written {
    pub e: EncoderV,
    pub out: Seq<FrameV>,
}

pub open spec fn type_only(t: Seq<char>) -> Seq<(Seq<char>, Tree)> {
    json::fs().with("type"@, json::st(t))
}

pub open spec fn stop_frame(index: u32) -> FrameV {
    named_frame(
        "content_block_stop"@,
        Tree::Obj(type_only("content_block_stop"@).with("index"@, json::num(index as int))),
    )
}

pub open spec fn start_data(index: u32, block: Tree) -> Tree {
    Tree::Obj(
        type_only("content_block_start"@).with("index"@, json::num(index as int)).with("content_block"@, block),
    )
}

pub open spec fn delta_frame(index: u32, kind: Seq<char>, key: Seq<char>, v: Seq<char>) -> FrameV {
    named_frame(
        "content_block_delta"@,
        Tree::Obj(
            type_only("content_block_delta"@).with("index"@, json::num(index as int)).with(
                "delta"@,
                Tree::Obj(type_only(kind).with(key, json::st(v))),
            ),
        ),
    )
}

pub open spec fn text_start() -> Tree {
    Tree::Obj(type_only("text"@).with("text"@, json::st(Seq::empty())))
}

pub open spec fn thinking_start() -> Tree {
    Tree::Obj(
        type_only("thinking"@).with("thinking"@, json::st(Seq::empty())).with(
            "signature"@,
            json::st(Seq::empty()),
        ),
    )
}

impl Written {
    pub open spec fn emit(self, f: FrameV) -> Written {
        Written { out: self.out.push(f), ..self }
    }

    pub open spec fn ensure_started(self) -> Written {
        if self.e.started {
            self
        } else {
            Written { e: EncoderV { started: true, ..self.e }, ..self }.emit(
                named_frame(
                    "message_start"@,
                    Tree::Obj(
                        type_only("message_start"@).with(
                            "message"@,
                            Tree::Obj(
                                json::fs().with("id"@, json::st(self.e.id)).with(
                                    "type"@,
                                    json::st("message"@),
                                ).with("role"@, json::st("assistant"@)).with("model"@, json::st(self.e.model)).with(
                                    "content"@,
                                    Tree::Arr(Seq::empty()),
                                ).with("stop_reason"@, Tree::Null).with("stop_sequence"@, Tree::Null).with(
                                    "usage"@,
                                    usage_out(self.e.usage),
                                ),
                            ),
                        ),
                    ),
                ),
            )
        }
    }

    /// Open `index` as `kind`, closing it first if it was open as another kind.
    pub open spec fn ensure_block(self, index: u32, kind: OpenKind, block: Tree) -> Written {
        let w = self.ensure_started();
        let at = open_at(w.e.open, index, 0);
        if 0 <= at < w.e.open.len() && w.e.open[at].1 == kind {
            w
        } else {
            let w = if 0 <= at < w.e.open.len() {
                Written { e: EncoderV { open: w.e.open.remove(at), ..w.e }, ..w }.emit(stop_frame(index))
            } else {
                w
            };
            Written { e: EncoderV { open: w.e.open.push((index, kind)), ..w.e }, ..w }.emit(
                named_frame("content_block_start"@, start_data(index, block)),
            )
        }
    }

    /// Close every block that is open.
    pub open spec fn close_all(self) -> Written {
        Written {
            e: EncoderV { open: Seq::empty(), ..self.e },
            out: self.out + Seq::new(self.e.open.len(), |i: int| stop_frame(self.e.open[i].0)),
        }
    }

    /// The two frames that end a message.
    pub open spec fn end(self, stop_reason: Tree, stop_sequence: Tree) -> Written {
        let w = self.emit(
            named_frame(
                "message_delta"@,
                Tree::Obj(
                    type_only("message_delta"@).with(
                        "delta"@,
                        Tree::Obj(
                            json::fs().with("stop_reason"@, stop_reason).with("stop_sequence"@, stop_sequence),
                        ),
                    ).with(
                        "usage"@,
                        Tree::Obj(json::fs().with("output_tokens"@, json::num(self.e.usage.output_tokens as int))),
                    ),
                ),
            ),
        ).emit(named_frame("message_stop"@, Tree::Obj(type_only("message_stop"@))));
        Written { e: EncoderV { finished: true, ..w.e }, ..w }
    }
}

/// One event.
pub open spec fn encoded_event(e: EncoderV, ev: EventV) -> Written {
    let w = Written { e, out: Seq::empty() };
    match ev {
        EventV::Start { id, model, usage } => Written {
            e: EncoderV { id, model, usage, ..e },
            ..w
        }.ensure_started(),
        EventV::TextDelta { index, text } => w.ensure_block(index, OpenKind::Text, text_start()).emit(
            delta_frame(index, "text_delta"@, "text"@, text),
        ),
        EventV::ThinkingDelta { index, text } => w.ensure_block(index, OpenKind::Thinking, thinking_start()).emit(
            delta_frame(index, "thinking_delta"@, "thinking"@, text),
        ),
        EventV::ThinkingSignature { index, signature } => w.ensure_block(
            index,
            OpenKind::Thinking,
            thinking_start(),
        ).emit(delta_frame(index, "signature_delta"@, "signature"@, signature)),
        EventV::RedactedThinking { index, data } => w.ensure_started().emit(
            named_frame(
                "content_block_start"@,
                start_data(index, Tree::Obj(type_only("redacted_thinking"@).with("data"@, json::st(data)))),
            ),
        ).emit(stop_frame(index)),
        EventV::ToolUseStart { index, id, name } => w.ensure_block(
            index,
            OpenKind::ToolUse,
            Tree::Obj(
                type_only("tool_use"@).with("id"@, json::st(id)).with("name"@, json::st(name)).with(
                    "input"@,
                    Tree::Obj(json::fs()),
                ),
            ),
        ),
        EventV::ToolUseDelta { index, partial_json } => w.ensure_started().emit(
            delta_frame(index, "input_json_delta"@, "partial_json"@, partial_json),
        ),
        EventV::BlockStop { index } => {
            let at = open_at(e.open, index, 0);
            if 0 <= at < e.open.len() {
                Written { e: EncoderV { open: e.open.remove(at), ..e }, ..w }.emit(stop_frame(index))
            } else {
                w
            }
        },
        EventV::Stop { stop_reason, stop_sequence, usage } => {
            let w = w.ensure_started().close_all();
            Written { e: EncoderV { usage, ..w.e }, ..w }.end(
                text_or_null(stop_reason_text(stop_reason)),
                text_or_null(stop_sequence),
            )
        },
        EventV::Ping => w.emit(named_frame("ping"@, Tree::Obj(type_only("ping"@)))),
    }
}

/// The end of the stream: once, and only where no stop came.
pub open spec fn encoded_finish(e: EncoderV) -> Written {
    let w = Written { e, out: Seq::empty() };
    if e.finished {
        w
    } else {
        w.ensure_started().close_all().end(json::st("end_turn"@), Tree::Null)
    }
}

pub(crate) proof fn open_at_bounds(open: Seq<(u32, OpenKind)>, index: u32, i: int)
    requires
        0 <= i <= open.len(),
    ensures
        i <= open_at(open, index, i) <= open.len(),
        open_at(open, index, i) < open.len() ==> open[open_at(open, index, i)].0 == index,
        forall|j: int| i <= j < open_at(open, index, i) ==> (#[trigger] open[j]).0 != index,
    decreases open.len() - i,
{
    if i < open.len() && open[i].0 != index {
        open_at_bounds(open, index, i + 1);
    }
}

/// Whatever comes, no block is open twice, and a stop leaves none open.
pub proof fn blocks_open_once(e: EncoderV, ev: EventV)
    requires
        open_once(e.open),
    ensures
        open_once(encoded_event(e, ev).e.open),
        open_once(encoded_finish(e).e.open),
        ev is Stop ==> encoded_event(e, ev).e.open.len() == 0 && encoded_event(e, ev).e.finished,
        encoded_finish(e).e.finished,
        !e.finished ==> encoded_finish(e).e.open.len() == 0,
{
    match ev {
        EventV::TextDelta { index, .. } => {
            open_at_bounds(e.open, index, 0);
        },
        EventV::ThinkingDelta { index, .. } => {
            open_at_bounds(e.open, index, 0);
        },
        EventV::ThinkingSignature { index, .. } => {
            open_at_bounds(e.open, index, 0);
        },
        EventV::ToolUseStart { index, .. } => {
            open_at_bounds(e.open, index, 0);
        },
        EventV::BlockStop { index } => {
            open_at_bounds(e.open, index, 0);
        },
        _ => {},
    }
}

fn frame(event: &str, data: Json) -> (r: SseFrame)
    ensures
        r@ == named_frame(event@, data@),
{
    SseFrame { event: Some(event.to_owned()), data: json::render(&data) }
}

fn typed(t: &str) -> (r: Fields)
    ensures
        r@ == type_only(t@),
{
    Fields::new().with("type", js(t))
}

fn encode_stop(index: u32) -> (r: SseFrame)
    ensures
        r@ == stop_frame(index),
{
    frame("content_block_stop", typed("content_block_stop").with("index", Json::UInt(index as u64)).done())
}

fn encode_start(index: u32, block: Json) -> (r: SseFrame)
    ensures
        r@ == named_frame("content_block_start"@, start_data(index, block@)),
{
    frame(
        "content_block_start",
        typed("content_block_start").with("index", Json::UInt(index as u64)).with("content_block", block).done(),
    )
}

fn encode_delta(index: u32, kind: &str, key: &str, v: &str) -> (r: SseFrame)
    ensures
        r@ == delta_frame(index, kind@, key@, v@),
{
    frame(
        "content_block_delta",
        typed("content_block_delta").with("index", Json::UInt(index as u64)).with(
            "delta",
            typed(kind).with(key, js(v)).done(),
        ).done(),
    )
}

fn encode_text_start() -> (r: Json)
    ensures
        r@ == text_start(),
{
    typed("text").with("text", Json::Str(String::new())).done()
}

fn encode_thinking_start() -> (r: Json)
    ensures
        r@ == thinking_start(),
{
    typed("thinking").with("thinking", Json::Str(String::new())).with("signature", Json::Str(String::new())).done()
}

impl AnthropicStreamEncoder {
    /// An encoder for a message with this identifier.
    pub fn starting(model: &str, id: String) -> (r: Self)
        ensures
            r@ == fresh_encoder(model@, id@),
    {
        AnthropicStreamEncoder {
            model: model.to_owned(),
            open: Vec::new(),
            started: false,
            usage: Usage::default(),
            id,
            finished: false,
        }
    }

    /// An encoder for a fresh message.
    pub fn new(model: &str) -> (r: Self)
        ensures
            r@ == fresh_encoder(model@, r@.id),
            draw::is_fresh_id(r@.id, "msg_"@),
    {
        AnthropicStreamEncoder::starting(model, draw::fresh_id("msg_"))
    }

    fn ensure_started(&mut self, out: &mut Vec<SseFrame>)
        ensures
            (Written { e: final(self)@, out: views::of(final(out)@) }) == (Written {
                e: old(self)@,
                out: views::of(old(out)@),
            }).ensure_started(),
    {
        if self.started {
            return;
        }
        self.started = true;
        out.push(
            frame(
                "message_start",
                typed("message_start").with(
                    "message",
                    Fields::new().with("id", js(self.id.as_str())).with("type", js("message")).with(
                        "role",
                        js("assistant"),
                    ).with("model", js(self.model.as_str())).with("content", json::no_items()).with(
                        "stop_reason",
                        Json::Null,
                    ).with("stop_sequence", Json::Null).with("usage", encode_usage(&self.usage)).done(),
                ).done(),
            ),
        );
    }

    fn position(&self, index: u32) -> (r: usize)
        ensures
            r == open_at(self@.open, index, 0),
            r <= self@.open.len(),
    {
        let mut i: usize = 0;
        while i < self.open.len() && self.open[i].0 != index
            invariant
                i <= self.open@.len(),
                open_at(self.open@, index, 0) == open_at(self.open@, index, i as int),
            decreases self.open@.len() - i,
        {
            i += 1;
        }
        i
    }

    /// Open `index` as `kind`, closing it first if it was open as another kind.
    fn ensure_block(&mut self, out: &mut Vec<SseFrame>, index: u32, kind: OpenKind, block: Json)
        ensures
            (Written { e: final(self)@, out: views::of(final(out)@) }) == (Written {
                e: old(self)@,
                out: views::of(old(out)@),
            }).ensure_block(index, kind, block@),
    {
        self.ensure_started(out);
        let at: usize = self.position(index);
        if at < self.open.len() {
            if self.open[at].1 == kind {
                return;
            }
            out.push(encode_stop(index));
            let _ = self.open.remove(at);
        }
        self.open.push((index, kind));
        out.push(encode_start(index, block));
    }

    fn close_all(&mut self, out: &mut Vec<SseFrame>)
        ensures
            (Written { e: final(self)@, out: views::of(final(out)@) }) == (Written {
                e: old(self)@,
                out: views::of(old(out)@),
            }).close_all(),
    {
        let ghost before = views::of(out@);
        let ghost open = self@.open;
        let ghost stops = Seq::new(open.len(), |i: int| stop_frame(open[i].0));
        assert(before + stops.take(0) =~= before);
        for i in 0..self.open.len()
            invariant
                self@ == old(self)@,
                open == self.open@,
                stops == Seq::new(open.len(), |i: int| stop_frame(open[i].0)),
                views::of(out@) == before + stops.take(i as int),
        {
            out.push(encode_stop(self.open[i].0));
            proof {
                crate::views::take_one_more(stops, i as int);
                assert(before + stops.take(i + 1) =~= (before + stops.take(i as int)).push(stops[i as int]));
            }
        }
        assert(stops.take(stops.len() as int) =~= stops);
        self.open = Vec::new();
    }

    fn end(&mut self, stop_reason: Json, stop_sequence: Json, out: &mut Vec<SseFrame>)
        ensures
            (Written { e: final(self)@, out: views::of(final(out)@) }) == (Written {
                e: old(self)@,
                out: views::of(old(out)@),
            }).end(stop_reason@, stop_sequence@),
    {
        out.push(
            frame(
                "message_delta",
                typed("message_delta").with(
                    "delta",
                    Fields::new().with("stop_reason", stop_reason).with("stop_sequence", stop_sequence).done(),
                ).with(
                    "usage",
                    Fields::new().with("output_tokens", Json::UInt(self.usage.output_tokens as u64)).done(),
                ).done(),
            ),
        );
        out.push(frame("message_stop", typed("message_stop").done()));
        self.finished = true;
    }
}

impl StreamEncoder for AnthropicStreamEncoder {
    fn encode(&mut self, event: &StreamEvent) -> (r: Vec<SseFrame>)
        ensures
            (Written { e: final(self)@, out: views::of(r@) }) == encoded_event(old(self)@, event@),
    {
        let mut out: Vec<SseFrame> = Vec::new();
        match event {
            StreamEvent::Start { id, model, usage } => {
                self.id = id.clone();
                self.model = model.clone();
                self.usage = *usage;
                self.ensure_started(&mut out);
            },
            StreamEvent::TextDelta { index, text } => {
                self.ensure_block(&mut out, *index, OpenKind::Text, encode_text_start());
                out.push(encode_delta(*index, "text_delta", "text", text.as_str()));
            },
            StreamEvent::ThinkingDelta { index, text } => {
                self.ensure_block(&mut out, *index, OpenKind::Thinking, encode_thinking_start());
                out.push(encode_delta(*index, "thinking_delta", "thinking", text.as_str()));
            },
            StreamEvent::ThinkingSignature { index, signature } => {
                self.ensure_block(&mut out, *index, OpenKind::Thinking, encode_thinking_start());
                out.push(encode_delta(*index, "signature_delta", "signature", signature.as_str()));
            },
            StreamEvent::RedactedThinking { index, data } => {
                self.ensure_started(&mut out);
                out.push(encode_start(*index, typed("redacted_thinking").with("data", js(data.as_str())).done()));
                out.push(encode_stop(*index));
            },
            StreamEvent::ToolUseStart { index, id, name } => {
                let block = typed("tool_use").with("id", js(id.as_str())).with("name", js(name.as_str())).with(
                    "input",
                    Fields::new().done(),
                ).done();
                self.ensure_block(&mut out, *index, OpenKind::ToolUse, block);
            },
            StreamEvent::ToolUseDelta { index, partial_json } => {
                self.ensure_started(&mut out);
                out.push(encode_delta(*index, "input_json_delta", "partial_json", partial_json.as_str()));
            },
            StreamEvent::BlockStop { index } => {
                let at: usize = self.position(*index);
                if at < self.open.len() {
                    let _ = self.open.remove(at);
                    out.push(encode_stop(*index));
                }
            },
            StreamEvent::Stop { stop_reason, stop_sequence, usage } => {
                self.ensure_started(&mut out);
                self.close_all(&mut out);
                self.usage = *usage;
                self.end(
                    js_or_null(stop_reason_to_str(*stop_reason)),
                    string_or_null(stop_sequence),
                    &mut out,
                );
            },
            StreamEvent::Ping => {
                out.push(frame("ping", typed("ping").done()));
            },
        }
        out
    }

    fn finish(&mut self) -> (r: Vec<SseFrame>)
        ensures
            (Written { e: final(self)@, out: views::of(r@) }) == encoded_finish(old(self)@),
    {
        let mut out: Vec<SseFrame> = Vec::new();
        if self.finished {
            return out;
        }
        self.ensure_started(&mut out);
        self.close_all(&mut out);
        self.end(js("end_turn"), Json::Null, &mut out);
        out
    }

    fn error(&mut self, err: &Error) -> (r: Vec<SseFrame>)
        ensures
            views::of(r@) == Seq::empty().push(named_frame("error"@, err@.wire(Dialect::Anthropic))),
            final(self)@ == old(self)@,
    {
        let mut out: Vec<SseFrame> = Vec::new();
        out.push(frame("error", err.to_wire(Dialect::Anthropic)));
        out
    }
}

} // verus!
