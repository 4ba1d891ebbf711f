//! OpenAI Responses API (`/v1/responses`) dialect.
//!
//! This is the newer OpenAI format built around items and parts. The decoder
//! lifts Responses items into the canonical form, the encoder renders canonical
//! content back into a Responses response, and the stream parser/encoder handle
//! the SSE lifecycle.

use crate::draw;
use crate::error;
use crate::error::{Error, ErrorV};
use crate::ir;
use crate::ir::{
    BlockV, ChatRequest, ChatResponse, ChoiceV, ContentBlock, Dialect, EventV, MediaSource, Message, MessageV, PartV,
    RequestV, ResponseV, Role, SourceV, StopReason, StreamEvent, SystemPart, SystemV, ToolChoice, ToolDef,
    ToolResultPart, ToolV, UnsupportedContentPolicy, Usage,
};
use crate::json;
use crate::json::{array, array1, js, no_items, whole, At, Build, Fields, Json, Lookup, Tree};
use crate::protocol;
use crate::protocol::openai;
use crate::protocol::openai::{arguments_json, decode_effort, encode_effort, is_true, system_text, tool_result_text};
use crate::protocol::reasoning_bridge;
use crate::protocol::sse::{FrameV, SseFrame};
use crate::protocol::{bump, normalize_audio_format, policy_text, StreamEncoder, StreamParser};
use crate::text;
use crate::text::{concat, decimal, same, trim};
use crate::views;
use vstd::prelude::*;

verus! {

broadcast use crate::views::group_views;

// -------------------------------------------------------------- request in

/// The MIME subtype of an audio format.
pub open spec fn audio_subtype(format: Seq<char>) -> Seq<char> {
    if format == "mp3"@ {
        "mpeg"@
    } else {
        format
    }
}

/// Convert an OpenAI audio format string to a MIME subtype.
fn normalize_audio_format_to_mime(format: &str) -> (r: &str)
    ensures
        r@ == audio_subtype(format@),
{
    if same(format, "mp3") {
        "mpeg"
    } else {
        format
    }
}

/// A picture: by its URL, or else by its file.
pub open spec fn image_block(p: Tree) -> Option<BlockV> {
    match p.at("image_url"@).at("url"@).text() {
        Some(url) => Some(BlockV::Image { source: ir::source_of_url(url) }),
        None => match p.at("file_id"@).text() {
            Some(id) => Some(BlockV::Image { source: SourceV::Reference { id } }),
            None => None,
        },
    }
}

pub open spec fn audio_block(p: Tree) -> Option<BlockV> {
    match p.at("input_audio"@) {
        Some(audio) => {
            let media_type = "audio/"@ + audio_subtype(audio.at("format"@).text_or("wav"@));
            Some(
                BlockV::Audio {
                    source: SourceV::Base64 { media_type, data: audio.at("data"@).text_or(Seq::empty()) },
                    media_type,
                },
            )
        },
        None => None,
    }
}

/// A file: its data, or else its URL, or else its identifier.
pub open spec fn file_block(p: Tree) -> Option<BlockV> {
    let media_type = p.at("media_type"@).text_or("application/octet-stream"@);
    let name = p.at("filename"@).text();
    match p.at("file_data"@).text() {
        Some(data) => Some(BlockV::File { source: SourceV::Base64 { media_type, data }, media_type, name }),
        None => match p.at("file_url"@).text() {
            Some(url) => Some(BlockV::File { source: SourceV::Url { url }, media_type, name }),
            None => match p.at("file_id"@).text() {
                Some(id) => Some(BlockV::File { source: SourceV::Reference { id }, media_type, name }),
                None => None,
            },
        },
    }
}

/// The block of a picture, a sound or a file.
pub open spec fn media_block(p: Tree) -> Option<BlockV> {
    let kind = p.at("type"@).text();
    if kind == Some("input_image"@) {
        image_block(p)
    } else if kind == Some("input_audio"@) {
        audio_block(p)
    } else if kind == Some("input_file"@) {
        file_block(p)
    } else {
        None
    }
}

fn decode_image(p: &Json) -> (r: Option<ContentBlock>)
    ensures
        views::opt(r) == image_block(p@),
{
    match p.at("image_url").at("url").text() {
        Some(url) => Some(ContentBlock::Image { source: MediaSource::from_url(url) }),
        None => match p.at("file_id").opt_string() {
            Some(id) => Some(ContentBlock::Image { source: MediaSource::Reference { id } }),
            None => None,
        },
    }
}

fn decode_audio(p: &Json) -> (r: Option<ContentBlock>)
    ensures
        views::opt(r) == audio_block(p@),
{
    let audio = p.at("input_audio");
    if !audio.is_some() {
        return None;
    }
    let format = audio.at("format").string_or("wav");
    let media_type = concat("audio/", normalize_audio_format_to_mime(format.as_str()));
    Some(
        ContentBlock::Audio {
            source: MediaSource::Base64 { media_type: media_type.clone(), data: audio.at("data").string() },
            media_type,
        },
    )
}

fn decode_file(p: &Json) -> (r: Option<ContentBlock>)
    ensures
        views::opt(r) == file_block(p@),
{
    let media_type = p.at("media_type").string_or("application/octet-stream");
    let name = p.at("filename").opt_string();
    if let Some(data) = p.at("file_data").opt_string() {
        Some(
            ContentBlock::File {
                source: MediaSource::Base64 { media_type: media_type.clone(), data },
                media_type,
                name,
            },
        )
    } else if let Some(url) = p.at("file_url").opt_string() {
        Some(ContentBlock::File { source: MediaSource::Url { url }, media_type, name })
    } else if let Some(id) = p.at("file_id").opt_string() {
        Some(ContentBlock::File { source: MediaSource::Reference { id }, media_type, name })
    } else {
        None
    }
}

fn decode_media(p: &Json) -> (r: Option<ContentBlock>)
    ensures
        views::opt(r) == media_block(p@),
{
    let kind = p.at("type");
    if kind.is_text("input_image") {
        decode_image(p)
    } else if kind.is_text("input_audio") {
        decode_audio(p)
    } else if kind.is_text("input_file") {
        decode_file(p)
    } else {
        None
    }
}

/// One part of a message item.
pub open spec fn part_block(p: Tree) -> Option<BlockV> {
    let kind = p.at("type"@).text();
    if kind == Some("output_text"@) || kind == Some("input_text"@) {
        match p.at("text"@).text() {
            Some(t) => Some(ir::text_block(t)),
            None => None,
        }
    } else {
        media_block(p)
    }
}

fn decode_part(p: &Json) -> (r: Option<ContentBlock>)
    ensures
        views::opt(r) == part_block(p@),
{
    let kind = p.at("type");
    if kind.is_text("output_text") || kind.is_text("input_text") {
        match p.at("text").text() {
            Some(t) => Some(ContentBlock::text(t)),
            None => None,
        }
    } else {
        decode_media(p)
    }
}

pub open spec fn part_blocks(ps: Seq<Tree>, i: int, acc: Seq<BlockV>) -> Seq<BlockV>
    decreases ps.len() - i,
{
    if i < 0 || i >= ps.len() {
        acc
    } else {
        match part_block(ps[i]) {
            Some(b) => part_blocks(ps, i + 1, acc.push(b)),
            None => part_blocks(ps, i + 1, acc),
        }
    }
}

fn decode_parts(v: At<'_>) -> (r: Vec<ContentBlock>)
    ensures
        views::of(r@) == match v@.list() {
            Some(ps) => part_blocks(ps, 0, Seq::empty()),
            None => Seq::empty(),
        },
{
    let mut out: Vec<ContentBlock> = Vec::new();
    if let Some(ps) = v.list() {
        let ghost trees = views::of(ps@);
        for i in 0..ps.len()
            invariant
                trees == views::of(ps@),
                part_blocks(trees, 0, Seq::empty()) == part_blocks(trees, i as int, views::of(out@)),
        {
            assert(trees[i as int] == ps@[i as int]@);
            if let Some(b) = decode_part(&ps[i]) {
                out.push(b);
            }
        }
    }
    out
}

/// A function call's arguments; those that are not JSON are kept as they stand.
pub open spec fn call_arguments(item: Tree) -> Tree {
    let arguments = item.at("arguments"@).text_or("{}"@);
    match json::parsed(arguments) {
        Ok(t) => t,
        Err(_) => Tree::Str(arguments),
    }
}

pub open spec fn call_block(item: Tree) -> BlockV {
    BlockV::ToolUse {
        id: item.at("call_id"@).text_or(Seq::empty()),
        name: item.at("name"@).text_or(Seq::empty()),
        input: call_arguments(item),
    }
}

fn decode_call(item: &Json) -> (r: ContentBlock)
    ensures
        r@ == call_block(item@),
{
    let arguments = item.at("arguments").string_or("{}");
    let input = match json::parse(arguments.as_str()) {
        Ok(v) => v,
        Err(_) => js(arguments.as_str()),
    };
    ContentBlock::ToolUse { id: item.at("call_id").string(), name: item.at("name").string(), input }
}

/// The first text of a reasoning summary.
pub open spec fn summary_text(item: Tree) -> Option<Seq<char>> {
    match item.at("summary"@).list() {
        Some(s) => if s.len() > 0 { s[0].at("text"@).text() } else { None },
        None => None,
    }
}

/// The thinking of a reasoning item: what the bridge holds, or else its summary.
pub open spec fn reasoning_block(item: Tree) -> Option<BlockV> {
    match reasoning_bridge::block_of(item) {
        Some(b) => Some(b),
        None => match summary_text(item) {
            Some(text) => Some(BlockV::Thinking { text, signature: None }),
            None => None,
        },
    }
}

fn decode_reasoning(item: &Json) -> (r: Option<ContentBlock>)
    ensures
        views::opt(r) == reasoning_block(item@),
{
    if let Some(b) = reasoning_bridge::decode_reasoning_item(item) {
        return Some(b);
    }
    match item.at("summary").list() {
        Some(s) => if s.len() > 0 {
            assert(views::of(s@)[0] == s@[0]@);
            match s[0].at("text").opt_string() {
                Some(text) => Some(ContentBlock::Thinking { text, signature: None }),
                None => None,
            }
        } else {
            None
        },
        None => None,
    }
}

pub open spec fn turn_of(role: Role, b: BlockV) -> MessageV {
    MessageV { role, content: Seq::empty().push(b) }
}

/// The turn that an input item makes; some make none.
pub open spec fn item_turn(item: Tree) -> Option<MessageV> {
    let kind = item.at("type"@).text_or(Seq::empty());
    if kind == "function_call"@ {
        Some(turn_of(Role::Assistant, call_block(item)))
    } else if kind == "function_call_output"@ {
        Some(
            turn_of(
                Role::User,
                BlockV::ToolResult {
                    tool_use_id: item.at("call_id"@).text_or(Seq::empty()),
                    name: Seq::empty(),
                    content: Seq::empty().push(PartV::Text { text: item.at("output"@).text_or(Seq::empty()) }),
                    is_error: false,
                },
            ),
        )
    } else if kind == "input_text"@ {
        Some(turn_of(Role::User, ir::text_block(item.at("text"@).text_or(Seq::empty()))))
    } else if kind == "input_image"@ || kind == "input_audio"@ || kind == "input_file"@ {
        match media_block(item) {
            Some(b) => Some(turn_of(Role::User, b)),
            None => None,
        }
    } else if kind == "reasoning"@ {
        match reasoning_block(item) {
            Some(b) => Some(turn_of(Role::Assistant, b)),
            None => None,
        }
    } else if kind == "message"@ {
        Some(
            MessageV {
                role: if item.at("role"@).text() == Some("assistant"@) { Role::Assistant } else { Role::User },
                content: match item.at("content"@).list() {
                    Some(ps) => part_blocks(ps, 0, Seq::empty()),
                    None => Seq::empty(),
                },
            },
        )
    } else {
        None
    }
}

fn single(role: Role, b: ContentBlock) -> (r: Message)
    ensures
        r@ == turn_of(role, b@),
{
    let mut content: Vec<ContentBlock> = Vec::new();
    content.push(b);
    Message { role, content }
}

fn single_opt(role: Role, b: Option<ContentBlock>) -> (r: Option<Message>)
    ensures
        views::opt(r) == match views::opt(b) {
            Some(x) => Some(turn_of(role, x)),
            None => None,
        },
{
    match b {
        Some(x) => Some(single(role, x)),
        None => None,
    }
}

fn decode_input_item(item: &Json) -> (r: Option<Message>)
    ensures
        views::opt(r) == item_turn(item@),
{
    let kind = item.at("type").string();
    let kind = kind.as_str();
    if same(kind, "function_call") {
        Some(single(Role::Assistant, decode_call(item)))
    } else if same(kind, "function_call_output") {
        let mut content: Vec<ToolResultPart> = Vec::new();
        content.push(ToolResultPart::Text { text: item.at("output").string() });
        Some(
            single(
                Role::User,
                ContentBlock::ToolResult {
                    tool_use_id: item.at("call_id").string(),
                    name: String::new(),
                    content,
                    is_error: false,
                },
            ),
        )
    } else if same(kind, "input_text") {
        Some(single(Role::User, ContentBlock::text(item.at("text").string().as_str())))
    } else if same(kind, "input_image") || same(kind, "input_audio") || same(kind, "input_file") {
        single_opt(Role::User, decode_media(item))
    } else if same(kind, "reasoning") {
        single_opt(Role::Assistant, decode_reasoning(item))
    } else if same(kind, "message") {
        Some(
            Message {
                role: if item.at("role").is_text("assistant") { Role::Assistant } else { Role::User },
                content: decode_parts(item.at("content")),
            },
        )
    } else {
        None
    }
}

pub open spec fn turns(items: Seq<Tree>, i: int, acc: Seq<MessageV>) -> Seq<MessageV>
    decreases items.len() - i,
{
    if i < 0 || i >= items.len() {
        acc
    } else {
        match item_turn(items[i]) {
            Some(m) => turns(items, i + 1, acc.push(m)),
            None => turns(items, i + 1, acc),
        }
    }
}

fn decode_input(v: At<'_>) -> (r: Vec<Message>)
    ensures
        views::of(r@) == match v@.list() {
            Some(items) => turns(items, 0, Seq::empty()),
            None => Seq::empty(),
        },
{
    let mut out: Vec<Message> = Vec::new();
    if let Some(items) = v.list() {
        let ghost trees = views::of(items@);
        for i in 0..items.len()
            invariant
                trees == views::of(items@),
                turns(trees, 0, Seq::empty()) == turns(trees, i as int, views::of(out@)),
        {
            assert(trees[i as int] == items@[i as int]@);
            if let Some(m) = decode_input_item(&items[i]) {
                out.push(m);
            }
        }
    }
    out
}

/// One part of the instructions: its text, or the part itself where it is one.
pub open spec fn instruction(p: Tree) -> Option<Seq<char>> {
    match p.at("text"@).text() {
        Some(t) => Some(t),
        None => Some(p).text(),
    }
}

pub open spec fn instructions(ps: Seq<Tree>, i: int, acc: Seq<SystemV>) -> Seq<SystemV>
    decreases ps.len() - i,
{
    if i < 0 || i >= ps.len() {
        acc
    } else {
        match instruction(ps[i]) {
            Some(t) => instructions(ps, i + 1, acc.push(ir::system_part(t))),
            None => instructions(ps, i + 1, acc),
        }
    }
}

pub open spec fn system_of(v: Option<Tree>) -> Seq<SystemV> {
    match v {
        Some(Tree::Str(s)) => Seq::empty().push(ir::system_part(s)),
        Some(Tree::Arr(ps)) => instructions(ps, 0, Seq::empty()),
        _ => Seq::empty(),
    }
}

fn decode_system(v: At<'_>) -> (r: Vec<SystemPart>)
    ensures
        views::of(r@) == system_of(v@),
{
    let mut out: Vec<SystemPart> = Vec::new();
    if let Some(s) = v.text() {
        out.push(SystemPart::new(s));
    } else if let Some(ps) = v.list() {
        let ghost trees = views::of(ps@);
        for i in 0..ps.len()
            invariant
                trees == views::of(ps@),
                instructions(trees, 0, Seq::empty()) == instructions(trees, i as int, views::of(out@)),
        {
            assert(trees[i as int] == ps@[i as int]@);
            if let Some(t) = ps[i].at("text").text() {
                out.push(SystemPart::new(t));
            } else if let Some(t) = ps[i].here().text() {
                out.push(SystemPart::new(t));
            }
        }
    }
    out
}

/// A tool definition; one without a name is skipped.
pub open spec fn tool(t: Tree) -> Option<ToolV> {
    match t.at("name"@).text() {
        Some(name) => Some(
            ToolV {
                name,
                description: t.at("description"@).text(),
                input_schema: match t.at("parameters"@) {
                    Some(s) => s,
                    None => openai::object_schema(),
                },
                cache_control: None,
            },
        ),
        None => None,
    }
}

pub open spec fn tools(ts: Seq<Tree>, i: int, acc: Seq<ToolV>) -> Seq<ToolV>
    decreases ts.len() - i,
{
    if i < 0 || i >= ts.len() {
        acc
    } else {
        match tool(ts[i]) {
            Some(t) => tools(ts, i + 1, acc.push(t)),
            None => tools(ts, i + 1, acc),
        }
    }
}

fn decode_tool(t: &Json) -> (r: Option<ToolDef>)
    ensures
        views::opt(r) == tool(t@),
{
    match t.at("name").opt_string() {
        Some(name) => Some(
            ToolDef {
                name,
                description: t.at("description").opt_string(),
                input_schema: match t.at("parameters").copied() {
                    Some(s) => s,
                    None => Fields::new().with("type", js("object")).done(),
                },
                cache_control: None,
            },
        ),
        None => None,
    }
}

fn decode_tools(v: At<'_>) -> (r: Vec<ToolDef>)
    ensures
        views::of(r@) == match v@.list() {
            Some(ts) => tools(ts, 0, Seq::empty()),
            None => Seq::empty(),
        },
{
    let mut out: Vec<ToolDef> = Vec::new();
    if let Some(ts) = v.list() {
        let ghost trees = views::of(ts@);
        for i in 0..ts.len()
            invariant
                trees == views::of(ts@),
                tools(trees, 0, Seq::empty()) == tools(trees, i as int, views::of(out@)),
        {
            assert(trees[i as int] == ts@[i as int]@);
            if let Some(t) = decode_tool(&ts[i]) {
                out.push(t);
            }
        }
    }
    out
}

pub open spec fn choice(v: Option<Tree>) -> Option<ChoiceV> {
    match v {
        Some(Tree::Str(s)) => if s == "auto"@ {
            Some(ChoiceV::Auto)
        } else if s == "none"@ {
            Some(ChoiceV::NoTool)
        } else if s == "required"@ || s == "any"@ {
            Some(ChoiceV::Any)
        } else {
            None
        },
        _ => match v.at("name"@).text() {
            Some(name) => Some(ChoiceV::Specific { name }),
            None => None,
        },
    }
}

fn decode_choice(v: At<'_>) -> (r: Option<ToolChoice>)
    ensures
        views::opt(r) == choice(v@),
{
    match v.text() {
        Some(s) => if same(s, "auto") {
            Some(ToolChoice::Auto)
        } else if same(s, "none") {
            Some(ToolChoice::NoTool)
        } else if same(s, "required") || same(s, "any") {
            Some(ToolChoice::Any)
        } else {
            None
        },
        None => match v.at("name").opt_string() {
            Some(name) => Some(ToolChoice::Specific { name }),
            None => None,
        },
    }
}

/// The fields with one more taken over from a lookup, where it is there.
pub open spec fn carried(m: Seq<(Seq<char>, Tree)>, key: Seq<char>, v: Option<Tree>) -> Seq<(Seq<char>, Tree)> {
    match v {
        Some(t) => m.set(key, t),
        None => m,
    }
}

fn carry(m: &mut Fields, key: &str, v: At<'_>)
    ensures
        final(m)@ == carried(old(m)@, key@, v@),
{
    if let Some(j) = v.copied() {
        m.put(key, j);
    }
}

/// The fields that are passed on without being looked at.
pub open spec fn carried_fields(m: Seq<(Seq<char>, Tree)>, from: Tree) -> Seq<(Seq<char>, Tree)> {
    let m = carried(m, "store"@, from.at("store"@));
    let m = carried(m, "previous_response_id"@, from.at("previous_response_id"@));
    let m = carried(m, "truncation"@, from.at("truncation"@));
    carried(m, "include"@, from.at("include"@))
}

fn carry_fields(m: &mut Fields, from: &Json)
    ensures
        final(m)@ == carried_fields(old(m)@, from@),
{
    carry(m, "store", from.at("store"));
    carry(m, "previous_response_id", from.at("previous_response_id"));
    carry(m, "truncation", from.at("truncation"));
    carry(m, "include", from.at("include"));
}

/// The request that a body holds.
pub open spec fn request_of(body: Tree) -> Result<RequestV, ErrorV> {
    match Some(body).fields() {
        None => Err(ErrorV::InvalidRequest("Responses request body must be a JSON object"@)),
        Some(_) => match body.at("model"@).text() {
            None => Err(ErrorV::InvalidRequest("`model` is required"@)),
            Some(model) => Ok(
                RequestV {
                    model,
                    source_dialect: Dialect::OpenAIResponses,
                    system: system_of(body.at("instructions"@)),
                    messages: match body.at("input"@).list() {
                        Some(items) => turns(items, 0, Seq::empty()),
                        None => Seq::empty(),
                    },
                    max_tokens: body.at("max_output_tokens"@).limit(),
                    temperature: body.at("temperature"@).float(),
                    top_p: body.at("top_p"@).float(),
                    top_k: None,
                    stop_sequences: Seq::empty(),
                    stream: body.at("stream"@).flag() == Some(true),
                    tools: match body.at("tools"@).list() {
                        Some(ts) => tools(ts, 0, Seq::empty()),
                        None => Seq::empty(),
                    },
                    tool_choice: choice(body.at("tool_choice"@)),
                    thinking: openai::effort(body.at("reasoning"@).at("effort"@).text()),
                    metadata_user: body.at("metadata"@).at("user"@).text(),
                    passthrough: carried_fields(json::fs(), body),
                    unsupported_content_policy: UnsupportedContentPolicy::Drop,
                },
            ),
        },
    }
}

/// Decode a Responses request.
pub fn decode_request(body: Json) -> (r: Result<ChatRequest, Error>)
    ensures
        error::outcome(r) == request_of(body@),
{
    if body.here().fields().is_none() {
        return Err(Error::invalid("Responses request body must be a JSON object"));
    }
    let model = match body.at("model").text() {
        Some(m) => m,
        None => {
            return Err(Error::invalid("`model` is required"));
        },
    };
    let mut req = ChatRequest::new(model, Dialect::OpenAIResponses);
    req.system = decode_system(body.at("instructions"));
    req.messages = decode_input(body.at("input"));
    req.max_tokens = body.at("max_output_tokens").limit();
    req.stream = is_true(body.at("stream").flag());
    req.temperature = body.at("temperature").float();
    req.top_p = body.at("top_p").float();
    req.metadata_user = body.at("metadata").at("user").opt_string();
    let mut kept = Fields::new();
    carry_fields(&mut kept, &body);
    req.passthrough = kept;
    req.tools = decode_tools(body.at("tools"));
    req.tool_choice = decode_choice(body.at("tool_choice"));
    req.thinking = decode_effort(body.at("reasoning").at("effort").text());
    Ok(req)
}

// ------------------------------------------------------------- request out

/// What a turn becomes, gathered block by block: the parts of its message, and
/// items of their own.
pub struct Gathered {
    pub parts: Seq<Tree>,
    pub items: Seq<Tree>,
}

pub open spec fn input_text(t: Seq<char>) -> Tree {
    Tree::Obj(json::fs().with("type"@, json::st("input_text"@)).with("text"@, json::st(t)))
}

pub open spec fn image_out(s: SourceV) -> Tree {
    let m = json::fs().with("type"@, json::st("input_image"@));
    Tree::Obj(
        match s {
            SourceV::Reference { id } => m.with("file_id"@, json::st(id)),
            _ => m.with(
                "image_url"@,
                Tree::Obj(json::fs().with("url"@, json::st(ir::url_of_source(s)))),
            ),
        },
    )
}

pub open spec fn file_out(s: SourceV, name: Option<Seq<char>>) -> Tree {
    let m = json::fs().with("type"@, json::st("input_file"@));
    let m = match s {
        SourceV::Base64 { data, .. } => m.with("file_data"@, json::st(data)),
        SourceV::Url { url } => m.with("file_url"@, json::st(url)),
        SourceV::Reference { id } => m.with("file_id"@, json::st(id)),
    };
    Tree::Obj(
        match name {
            Some(n) => m.set("filename"@, json::st(n)),
            None => m,
        },
    )
}

pub open spec fn summary_item(t: Seq<char>) -> Seq<(Seq<char>, Tree)> {
    json::fs().with("type"@, json::st("reasoning"@)).with(
        "summary"@,
        Tree::Arr(
            Seq::empty().push(
                Tree::Obj(json::fs().with("type"@, json::st("summary_text"@)).with("text"@, json::st(t))),
            ),
        ),
    )
}

/// One block of a turn more.
pub open spec fn gather(g: Gathered, b: BlockV, policy: UnsupportedContentPolicy) -> Result<Gathered, ErrorV> {
    match b {
        BlockV::Text { text, .. } => Ok(Gathered { parts: g.parts.push(input_text(text)), ..g }),
        BlockV::Image { source } => Ok(Gathered { parts: g.parts.push(image_out(source)), ..g }),
        BlockV::ToolUse { id, name, input } => Ok(
            Gathered {
                items: g.items.push(
                    Tree::Obj(
                        json::fs().with("type"@, json::st("function_call"@)).with("call_id"@, json::st(id)).with(
                            "name"@,
                            json::st(name),
                        ).with("arguments"@, json::st(openai::arguments_text(input))),
                    ),
                ),
                ..g
            },
        ),
        BlockV::ToolResult { tool_use_id, content, .. } => Ok(
            Gathered {
                items: g.items.push(
                    Tree::Obj(
                        json::fs().with("type"@, json::st("function_call_output"@)).with(
                            "call_id"@,
                            json::st(tool_use_id),
                        ).with("output"@, json::st(text::joined(openai::result_texts(content), "\n"@))),
                    ),
                ),
                ..g
            },
        ),
        BlockV::Thinking { text, signature } => match reasoning_bridge::item_of(b) {
            Some(item) => Ok(Gathered { items: g.items.push(item), ..g }),
            None => if signature is None {
                Ok(Gathered { items: g.items.push(Tree::Obj(summary_item(text))), ..g })
            } else {
                Ok(g)
            },
        },
        BlockV::RedactedThinking { .. } => match reasoning_bridge::item_of(b) {
            Some(item) => Ok(Gathered { items: g.items.push(item), ..g }),
            None => Ok(g),
        },
        BlockV::Audio { source: SourceV::Base64 { data, .. }, media_type } => Ok(
            Gathered {
                parts: g.parts.push(
                    Tree::Obj(
                        json::fs().with("type"@, json::st("input_audio"@)).with(
                            "input_audio"@,
                            Tree::Obj(
                                json::fs().with("data"@, json::st(data)).with(
                                    "format"@,
                                    json::st(protocol::audio_format(media_type)),
                                ),
                            ),
                        ),
                    ),
                ),
                ..g
            },
        ),
        BlockV::File { source, name, .. } => Ok(Gathered { parts: g.parts.push(file_out(source, name)), ..g }),
        BlockV::Audio { .. } | BlockV::Document { .. } | BlockV::Video { .. } | BlockV::Citation { .. }
        | BlockV::Annotation { .. } => match protocol::stand_in_text(policy, b) {
            Ok(Some(t)) => Ok(Gathered { parts: g.parts.push(input_text(t)), ..g }),
            Ok(None) => Ok(g),
            Err(e) => Err(e),
        },
    }
}

pub open spec fn gather_all(g: Gathered, bs: Seq<BlockV>, i: int, policy: UnsupportedContentPolicy) -> Result<
    Gathered,
    ErrorV,
>
    decreases bs.len() - i,
{
    if i < 0 || i >= bs.len() {
        Ok(g)
    } else {
        match gather(g, bs[i], policy) {
            Ok(next) => gather_all(next, bs, i + 1, policy),
            Err(e) => Err(e),
        }
    }
}

struct Gathering {
    parts: Vec<Json>,
    items: Vec<Json>,
}

impl View for Gathering {
    type V = Gathered;

    closed spec fn view(&self) -> Gathered {
        Gathered { parts: views::of(self.parts@), items: views::of(self.items@) }
    }
}

fn encode_input_text(t: &str) -> (r: Json)
    ensures
        r@ == input_text(t@),
{
    Fields::new().with("type", js("input_text")).with("text", js(t)).done()
}

fn encode_image(s: &MediaSource) -> (r: Json)
    ensures
        r@ == image_out(s@),
{
    match s {
        MediaSource::Reference { id } => Fields::new().with("type", js("input_image")).with(
            "file_id",
            js(id.as_str()),
        ).done(),
        _ => Fields::new().with("type", js("input_image")).with(
            "image_url",
            Fields::new().with("url", Json::Str(s.to_data_url())).done(),
        ).done(),
    }
}

fn encode_file(s: &MediaSource, name: &Option<String>) -> (r: Json)
    ensures
        r@ == file_out(s@, views::opt(*name)),
{
    let m = Fields::new().with("type", js("input_file"));
    let mut m = match s {
        MediaSource::Base64 { data, .. } => m.with("file_data", js(data.as_str())),
        MediaSource::Url { url } => m.with("file_url", js(url.as_str())),
        MediaSource::Reference { id } => m.with("file_id", js(id.as_str())),
    };
    if let Some(n) = name {
        m.put("filename", js(n.as_str()));
    }
    m.done()
}

fn encode_summary(t: &str) -> (r: Fields)
    ensures
        r@ == summary_item(t@),
{
    Fields::new().with("type", js("reasoning")).with(
        "summary",
        array1(Fields::new().with("type", js("summary_text")).with("text", js(t)).done()),
    )
}

fn gather_block(g: &mut Gathering, b: &ContentBlock, policy: UnsupportedContentPolicy) -> (r: Result<(), Error>)
    ensures
        match r {
            Ok(_) => gather(old(g)@, b@, policy) == Ok::<Gathered, ErrorV>(final(g)@),
            Err(e) => gather(old(g)@, b@, policy) == Err::<Gathered, ErrorV>(e@),
        },
{
    match b {
        ContentBlock::Text { text, .. } => g.parts.push(encode_input_text(text.as_str())),
        ContentBlock::Image { source } => g.parts.push(encode_image(source)),
        ContentBlock::ToolUse { id, name, input } => g.items.push(
            Fields::new().with("type", js("function_call")).with("call_id", js(id.as_str())).with(
                "name",
                js(name.as_str()),
            ).with("arguments", Json::Str(arguments_json(input))).done(),
        ),
        ContentBlock::ToolResult { tool_use_id, content, .. } => g.items.push(
            Fields::new().with("type", js("function_call_output")).with("call_id", js(tool_use_id.as_str())).with(
                "output",
                Json::Str(tool_result_text(content)),
            ).done(),
        ),
        ContentBlock::Thinking { text, signature } => {
            match reasoning_bridge::encode_thinking_block(b) {
                Some(item) => g.items.push(item),
                None => {
                    if signature.is_none() {
                        g.items.push(encode_summary(text.as_str()).done());
                    }
                },
            }
        },
        ContentBlock::RedactedThinking { .. } => {
            match reasoning_bridge::encode_thinking_block(b) {
                Some(item) => g.items.push(item),
                None => {},
            }
        },
        ContentBlock::Audio { source: MediaSource::Base64 { data, .. }, media_type } => {
            let format = normalize_audio_format(media_type.as_str());
            g.parts.push(
                Fields::new().with("type", js("input_audio")).with(
                    "input_audio",
                    Fields::new().with("data", js(data.as_str())).with("format", Json::Str(format)).done(),
                ).done(),
            );
        },
        ContentBlock::File { source, name, .. } => g.parts.push(encode_file(source, name)),
        ContentBlock::Audio { .. } | ContentBlock::Document { .. } | ContentBlock::Video { .. }
        | ContentBlock::Citation { .. } | ContentBlock::Annotation { .. } => {
            match policy_text(policy, b) {
                Ok(Some(t)) => g.parts.push(encode_input_text(t.as_str())),
                Ok(None) => {},
                Err(e) => {
                    return Err(e);
                },
            }
        },
    }
    Ok(())
}

pub open spec fn role_text(r: Role) -> Seq<char> {
    if r == Role::Assistant {
        "assistant"@
    } else {
        "user"@
    }
}

/// The input items with one turn more: its message first, then items of their own.
pub open spec fn turn_out(out: Seq<Tree>, m: MessageV, policy: UnsupportedContentPolicy) -> Result<Seq<Tree>, ErrorV> {
    match gather_all(Gathered { parts: Seq::empty(), items: Seq::empty() }, m.content, 0, policy) {
        Ok(g) => Ok(
            (if g.parts.len() > 0 {
                out.push(
                    Tree::Obj(
                        json::fs().with("type"@, json::st("message"@)).with(
                            "role"@,
                            json::st(role_text(m.role)),
                        ).with("content"@, Tree::Arr(g.parts)),
                    ),
                )
            } else {
                out
            }) + g.items,
        ),
        Err(e) => Err(e),
    }
}

pub open spec fn turns_out(out: Seq<Tree>, ms: Seq<MessageV>, i: int, policy: UnsupportedContentPolicy) -> Result<
    Seq<Tree>,
    ErrorV,
>
    decreases ms.len() - i,
{
    if i < 0 || i >= ms.len() {
        Ok(out)
    } else {
        match turn_out(out, ms[i], policy) {
            Ok(next) => turns_out(next, ms, i + 1, policy),
            Err(e) => Err(e),
        }
    }
}

fn encode_turn(m: &Message, out: &mut Vec<Json>, policy: UnsupportedContentPolicy) -> (r: Result<(), Error>)
    ensures
        match r {
            Ok(_) => turn_out(views::of(old(out)@), m@, policy) == Ok::<Seq<Tree>, ErrorV>(views::of(final(out)@)),
            Err(e) => turn_out(views::of(old(out)@), m@, policy) == Err::<Seq<Tree>, ErrorV>(e@),
        },
{
    let ghost blocks = m@.content;
    let ghost start = Gathered { parts: Seq::empty(), items: Seq::empty() };
    let mut g = Gathering { parts: Vec::new(), items: Vec::new() };
    assert(g@ == start);
    for i in 0..m.content.len()
        invariant
            blocks == views::of(m.content@),
            m@.content == blocks,
            start == (Gathered { parts: Seq::empty(), items: Seq::empty() }),
            gather_all(start, blocks, 0, policy) == gather_all(g@, blocks, i as int, policy),
    {
        assert(blocks[i as int] == m.content@[i as int]@);
        match gather_block(&mut g, &m.content[i], policy) {
            Ok(_) => {},
            Err(e) => {
                return Err(e);
            },
        }
    }
    if g.parts.len() > 0 {
        out.push(
            Fields::new().with("type", js("message")).with(
                "role",
                js(if m.role == Role::Assistant { "assistant" } else { "user" }),
            ).with("content", array(g.parts)).done(),
        );
    }
    let mut items = g.items;
    out.append(&mut items);
    Ok(())
}

pub open spec fn tool_out(t: ToolV) -> Tree {
    Tree::Obj(
        json::fs().with("type"@, json::st("function"@)).with("name"@, json::st(t.name)).with(
            "description"@,
            json::st(
                match t.description {
                    Some(d) => d,
                    None => Seq::empty(),
                },
            ),
        ).with("parameters"@, t.input_schema),
    )
}

pub open spec fn tools_out(ts: Seq<ToolV>) -> Tree {
    Tree::Arr(Seq::new(ts.len(), |i: int| tool_out(ts[i])))
}

fn encode_tools(ts: &Vec<ToolDef>) -> (r: Json)
    ensures
        r@ == tools_out(views::of(ts@)),
{
    let mut out: Vec<Json> = Vec::new();
    for i in 0..ts.len()
        invariant
            out@.len() == i,
            forall|j: int| 0 <= j < i ==> (#[trigger] out@[j])@ == tool_out(ts@[j]@),
    {
        let t: &ToolDef = &ts[i];
        let description = match &t.description {
            Some(d) => js(d.as_str()),
            None => Json::Str(String::new()),
        };
        let x = Fields::new().with("type", js("function")).with("name", js(t.name.as_str())).with(
            "description",
            description,
        ).with("parameters", t.input_schema.clone()).done();
        assert(x@ == tool_out(t@));
        out.push(x);
    }
    let r = array(out);
    assert(r@->Arr_0 =~= tools_out(views::of(ts@))->Arr_0);
    r
}

pub open spec fn choice_out(c: ChoiceV) -> Tree {
    match c {
        ChoiceV::Auto => json::st("auto"@),
        ChoiceV::NoTool => json::st("none"@),
        ChoiceV::Any => json::st("required"@),
        ChoiceV::Specific { name } => Tree::Obj(
            json::fs().with("type"@, json::st("function"@)).with("name"@, json::st(name)),
        ),
    }
}

fn encode_choice(c: &ToolChoice) -> (r: Json)
    ensures
        r@ == choice_out(c@),
{
    match c {
        ToolChoice::Auto => js("auto"),
        ToolChoice::NoTool => js("none"),
        ToolChoice::Any => js("required"),
        ToolChoice::Specific { name } => Fields::new().with("type", js("function")).with(
            "name",
            js(name.as_str()),
        ).done(),
    }
}

pub open spec fn request_fields(req: RequestV, model: Seq<char>, input: Seq<Tree>) -> Seq<(Seq<char>, Tree)> {
    let b = json::fs().set("model"@, json::st(model));
    let b = if req.system.len() > 0 {
        b.set("instructions"@, json::st(text::joined(openai::system_texts(req.system), "\n\n"@)))
    } else {
        b
    };
    let b = b.set("input"@, Tree::Arr(input));
    let b = match req.max_tokens {
        Some(n) => b.set("max_output_tokens"@, json::num(n as int)),
        None => b,
    };
    let b = if req.stream { b.set("stream"@, Tree::Bool(true)) } else { b };
    let b = if req.tools.len() > 0 { b.set("tools"@, tools_out(req.tools)) } else { b };
    let b = match req.tool_choice {
        Some(c) => b.set("tool_choice"@, choice_out(c)),
        None => b,
    };
    let b = match req.thinking {
        Some(t) => b.set("reasoning"@, Tree::Obj(json::fs().with("effort"@, json::st(openai::effort_out(t))))),
        None => b,
    };
    let b = match req.temperature {
        Some(t) => b.set("temperature"@, Tree::Float(t)),
        None => b,
    };
    let b = match req.top_p {
        Some(p) => b.set("top_p"@, Tree::Float(p)),
        None => b,
    };
    let b = match req.metadata_user {
        Some(u) => b.set("metadata"@, Tree::Obj(json::fs().with("user"@, json::st(u)))),
        None => b,
    };
    carried_fields(b, Tree::Obj(req.passthrough))
}

/// The body for a request.
pub open spec fn request_body(req: RequestV, model: Seq<char>) -> Result<Tree, ErrorV> {
    match turns_out(Seq::empty(), req.messages, 0, req.unsupported_content_policy) {
        Ok(input) => Ok(Tree::Obj(request_fields(req, model, input))),
        Err(e) => Err(e),
    }
}

fn encode_head(req: &ChatRequest, upstream_model: &str, input: Vec<Json>) -> (r: Fields)
    ensures
        r@ == request_fields(req@, upstream_model@, views::of(input@)),
{
    let mut body = Fields::new();
    body.put("model", js(upstream_model));
    if req.system.len() > 0 {
        body.put("instructions", Json::Str(system_text(&req.system)));
    }
    body.put("input", array(input));
    if let Some(n) = req.max_tokens {
        body.put("max_output_tokens", Json::UInt(n as u64));
    }
    if req.stream {
        body.put("stream", Json::Bool(true));
    }
    if req.tools.len() > 0 {
        body.put("tools", encode_tools(&req.tools));
    }
    if let Some(c) = &req.tool_choice {
        body.put("tool_choice", encode_choice(c));
    }
    if let Some(t) = &req.thinking {
        body.put("reasoning", Fields::new().with("effort", js(encode_effort(t))).done());
    }
    if let Some(t) = &req.temperature {
        body.put("temperature", Json::Float(t.clone()));
    }
    if let Some(p) = &req.top_p {
        body.put("top_p", Json::Float(p.clone()));
    }
    if let Some(u) = &req.metadata_user {
        body.put("metadata", Fields::new().with("user", js(u.as_str())).done());
    }
    carry(&mut body, "store", req.passthrough.at("store"));
    carry(&mut body, "previous_response_id", req.passthrough.at("previous_response_id"));
    carry(&mut body, "truncation", req.passthrough.at("truncation"));
    carry(&mut body, "include", req.passthrough.at("include"));
    body
}

/// Encode a request for a Responses upstream.
pub fn encode_request(req: &ChatRequest, upstream_model: &str) -> (r: Result<Json, Error>)
    ensures
        error::outcome(r) == request_body(req@, upstream_model@),
{
    let mut input: Vec<Json> = Vec::new();
    let ghost ms = req@.messages;
    let policy = req.unsupported_content_policy;
    for i in 0..req.messages.len()
        invariant
            ms == views::of(req.messages@),
            ms == req@.messages,
            policy == req@.unsupported_content_policy,
            turns_out(Seq::empty(), ms, 0, policy) == turns_out(views::of(input@), ms, i as int, policy),
    {
        assert(ms[i as int] == req.messages@[i as int]@);
        match encode_turn(&req.messages[i], &mut input, policy) {
            Ok(_) => {},
            Err(e) => {
                return Err(e);
            },
        }
    }
    Ok(encode_head(req, upstream_model, input).done())
}

// --------------------------------------------------------------- responses

pub open spec fn output_texts(ps: Seq<Tree>, i: int, acc: Seq<BlockV>) -> Seq<BlockV>
    decreases ps.len() - i,
{
    if i < 0 || i >= ps.len() {
        acc
    } else if ps[i].at("type"@).text() == Some("output_text"@) && ps[i].at("text"@).text() is Some {
        output_texts(ps, i + 1, acc.push(ir::text_block(ps[i].at("text"@).text()->0)))
    } else {
        output_texts(ps, i + 1, acc)
    }
}

/// The blocks with one output item more.
pub open spec fn output_item(acc: Seq<BlockV>, item: Tree) -> Seq<BlockV> {
    let kind = item.at("type"@).text();
    if kind == Some("message"@) {
        match item.at("content"@).list() {
            Some(ps) => output_texts(ps, 0, acc),
            None => acc,
        }
    } else if kind == Some("function_call"@) {
        acc.push(call_block(item))
    } else if kind == Some("reasoning"@) {
        match reasoning_block(item) {
            Some(b) => acc.push(b),
            None => acc,
        }
    } else {
        acc
    }
}

pub open spec fn output_items(items: Seq<Tree>, i: int, acc: Seq<BlockV>) -> Seq<BlockV>
    decreases items.len() - i,
{
    if i < 0 || i >= items.len() {
        acc
    } else {
        output_items(items, i + 1, output_item(acc, items[i]))
    }
}

fn decode_output_item(content: &mut Vec<ContentBlock>, item: &Json)
    ensures
        views::of(final(content)@) == output_item(views::of(old(content)@), item@),
{
    let kind = item.at("type");
    if kind.is_text("message") {
        if let Some(ps) = item.at("content").list() {
            let ghost trees = views::of(ps@);
            let ghost start = views::of(content@);
            for i in 0..ps.len()
                invariant
                    trees == views::of(ps@),
                    output_texts(trees, 0, start) == output_texts(trees, i as int, views::of(content@)),
            {
                assert(trees[i as int] == ps@[i as int]@);
                if ps[i].at("type").is_text("output_text") {
                    if let Some(t) = ps[i].at("text").text() {
                        content.push(ContentBlock::text(t));
                    }
                }
            }
        }
    } else if kind.is_text("function_call") {
        content.push(decode_call(item));
    } else if kind.is_text("reasoning") {
        if let Some(b) = decode_reasoning(item) {
            content.push(b);
        }
    }
}

pub open spec fn usage_of(v: Option<Tree>) -> Usage {
    match v.not_null() {
        None => ir::no_usage(),
        Some(u) => Usage {
            input_tokens: u.at("input_tokens"@).count(),
            output_tokens: u.at("output_tokens"@).count(),
            cache_read_tokens: u.at("input_tokens_details"@).at("cached_tokens"@).count(),
            cache_write_tokens: 0,
            reasoning_tokens: u.at("output_tokens_details"@).at("reasoning_tokens"@).count(),
        },
    }
}

pub(crate) fn decode_usage(v: At<'_>) -> (r: Usage)
    ensures
        r == usage_of(v@),
{
    let u = v.not_null();
    if !u.is_some() {
        return Usage::default();
    }
    Usage {
        input_tokens: u.at("input_tokens").count(),
        output_tokens: u.at("output_tokens").count(),
        cache_read_tokens: u.at("input_tokens_details").at("cached_tokens").count(),
        cache_write_tokens: 0,
        reasoning_tokens: u.at("output_tokens_details").at("reasoning_tokens").count(),
    }
}

pub open spec fn usage_out(u: Usage) -> Tree {
    Tree::Obj(
        json::fs().with("input_tokens"@, json::num(u.input_tokens as int)).with(
            "output_tokens"@,
            json::num(u.output_tokens as int),
        ).with("total_tokens"@, json::num(u.input_tokens + u.output_tokens)).with(
            "input_tokens_details"@,
            Tree::Obj(json::fs().with("cached_tokens"@, json::num(u.cache_read_tokens as int))),
        ).with(
            "output_tokens_details"@,
            Tree::Obj(json::fs().with("reasoning_tokens"@, json::num(u.reasoning_tokens as int))),
        ),
    )
}

pub(crate) fn encode_usage(u: &Usage) -> (r: Json)
    ensures
        r@ == usage_out(*u),
{
    Fields::new().with("input_tokens", Json::UInt(u.input_tokens as u64)).with(
        "output_tokens",
        Json::UInt(u.output_tokens as u64),
    ).with("total_tokens", Json::UInt(u.total())).with(
        "input_tokens_details",
        Fields::new().with("cached_tokens", Json::UInt(u.cache_read_tokens as u64)).done(),
    ).with(
        "output_tokens_details",
        Fields::new().with("reasoning_tokens", Json::UInt(u.reasoning_tokens as u64)).done(),
    ).done()
}

pub open spec fn is_incomplete(body: Tree) -> bool {
    body.at("status"@).text() == Some("incomplete"@)
}

/// What of an answer only this dialect knows.
pub open spec fn kept_fields(body: Tree) -> Seq<(Seq<char>, Tree)> {
    let m = match body.at("previous_response_id"@).text() {
        Some(id) => json::fs().set("previous_response_id"@, json::st(id)),
        None => json::fs(),
    };
    match body.at("incomplete_details"@).at("reason"@).text() {
        Some(reason) => if is_incomplete(body) {
            m.set("incomplete_details"@, Tree::Obj(json::fs().with("reason"@, json::st(reason))))
        } else {
            m
        },
        None => m,
    }
}

pub open spec fn response_of(body: Tree) -> Result<ResponseV, ErrorV> {
    match body.at("error"@) {
        Some(err) => Err(ErrorV::BadUpstreamPayload(err.at("message"@).text_or("unknown upstream error"@))),
        None => Ok(
            ResponseV {
                id: body.at("id"@).text_or("resp_unknown"@),
                model: body.at("model"@).text_or(Seq::empty()),
                content: match body.at("output"@).list() {
                    Some(items) => output_items(items, 0, Seq::empty()),
                    None => Seq::empty(),
                },
                stop_reason: if is_incomplete(body) { StopReason::MaxTokens } else { StopReason::EndTurn },
                stop_sequence: None,
                usage: usage_of(body.at("usage"@)),
                passthrough: kept_fields(body),
            },
        ),
    }
}

/// Decode an answer.
pub fn decode_response(body: Json) -> (r: Result<ChatResponse, Error>)
    ensures
        error::outcome(r) == response_of(body@),
{
    let err = body.at("error");
    if err.is_some() {
        return Err(Error::BadUpstreamPayload(err.at("message").string_or("unknown upstream error")));
    }
    let mut content: Vec<ContentBlock> = Vec::new();
    if let Some(items) = body.at("output").list() {
        let ghost trees = views::of(items@);
        for i in 0..items.len()
            invariant
                trees == views::of(items@),
                output_items(trees, 0, Seq::empty()) == output_items(trees, i as int, views::of(content@)),
        {
            assert(trees[i as int] == items@[i as int]@);
            decode_output_item(&mut content, &items[i]);
        }
    }
    let incomplete = body.at("status").is_text("incomplete");
    let mut kept = Fields::new();
    if let Some(id) = body.at("previous_response_id").text() {
        kept.put("previous_response_id", js(id));
    }
    if incomplete {
        if let Some(reason) = body.at("incomplete_details").at("reason").text() {
            kept.put("incomplete_details", Fields::new().with("reason", js(reason)).done());
        }
    }
    Ok(
        ChatResponse {
            id: body.at("id").string_or("resp_unknown"),
            model: body.at("model").string(),
            content,
            stop_reason: if incomplete { StopReason::MaxTokens } else { StopReason::EndTurn },
            stop_sequence: None,
            usage: decode_usage(body.at("usage")),
            passthrough: kept,
        },
    )
}

/// The content of an output message.
pub open spec fn output_content(t: Seq<char>) -> Tree {
    Tree::Arr(
        Seq::empty().push(
            Tree::Obj(
                json::fs().with("type"@, json::st("output_text"@)).with("text"@, json::st(t)).with(
                    "annotations"@,
                    Tree::Arr(Seq::empty()),
                ),
            ),
        ),
    )
}

/// The output item of a block; some make none.
pub open spec fn item_out(b: BlockV) -> Option<Tree> {
    match b {
        BlockV::Text { text, .. } => Some(
            Tree::Obj(
                json::fs().with("type"@, json::st("message"@)).with("role"@, json::st("assistant"@)).with(
                    "status"@,
                    json::st("completed"@),
                ).with("content"@, output_content(text)),
            ),
        ),
        BlockV::ToolUse { id, name, input } => Some(
            Tree::Obj(
                json::fs().with("type"@, json::st("function_call"@)).with("id"@, json::st("fc_"@ + id)).with(
                    "call_id"@,
                    json::st(id),
                ).with("name"@, json::st(name)).with("arguments"@, json::st(openai::arguments_text(input))).with(
                    "status"@,
                    json::st("completed"@),
                ),
            ),
        ),
        BlockV::Thinking { text, .. } => Some(
            Tree::Obj(
                match reasoning_bridge::item_of(b) {
                    Some(item) => carried(
                        summary_item(text),
                        "encrypted_content"@,
                        item.at("encrypted_content"@),
                    ),
                    None => summary_item(text),
                },
            ),
        ),
        BlockV::RedactedThinking { .. } => reasoning_bridge::item_of(b),
        _ => None,
    }
}

fn encode_output_content(t: &str) -> (r: Json)
    ensures
        r@ == output_content(t@),
{
    array1(
        Fields::new().with("type", js("output_text")).with("text", js(t)).with("annotations", no_items()).done(),
    )
}

fn encode_item(b: &ContentBlock) -> (r: Option<Json>)
    ensures
        views::opt(r) == item_out(b@),
{
    match b {
        ContentBlock::Text { text, .. } => Some(
            Fields::new().with("type", js("message")).with("role", js("assistant")).with(
                "status",
                js("completed"),
            ).with("content", encode_output_content(text.as_str())).done(),
        ),
        ContentBlock::ToolUse { id, name, input } => Some(
            Fields::new().with("type", js("function_call")).with("id", Json::Str(concat("fc_", id.as_str()))).with(
                "call_id",
                js(id.as_str()),
            ).with("name", js(name.as_str())).with("arguments", Json::Str(arguments_json(input))).with(
                "status",
                js("completed"),
            ).done(),
        ),
        ContentBlock::Thinking { text, .. } => {
            let mut m = encode_summary(text.as_str());
            if let Some(item) = reasoning_bridge::encode_thinking_block(b) {
                carry(&mut m, "encrypted_content", item.at("encrypted_content"));
            }
            Some(m.done())
        },
        ContentBlock::RedactedThinking { .. } => reasoning_bridge::encode_thinking_block(b),
        _ => None,
    }
}

pub open spec fn items_out(bs: Seq<BlockV>, i: int, acc: Seq<Tree>) -> Seq<Tree>
    decreases bs.len() - i,
{
    if i < 0 || i >= bs.len() {
        acc
    } else {
        match item_out(bs[i]) {
            Some(t) => items_out(bs, i + 1, acc.push(t)),
            None => items_out(bs, i + 1, acc),
        }
    }
}

pub open spec fn status_text(r: StopReason) -> Seq<char> {
    if r == StopReason::MaxTokens {
        "incomplete"@
    } else {
        "completed"@
    }
}

/// The body for an answer made at `created`.
pub open spec fn response_body(resp: ResponseV, created: i64) -> Tree {
    let kept = Tree::Obj(resp.passthrough);
    let m = json::fs().with("id"@, json::st(resp.id)).with("object"@, json::st("response"@)).with(
        "created_at"@,
        json::integer(created),
    ).with("status"@, json::st(status_text(resp.stop_reason))).with("model"@, json::st(resp.model)).with(
        "output"@,
        Tree::Arr(items_out(resp.content, 0, Seq::empty())),
    ).with("output_text"@, json::st(ir::texts_of(resp.content, 0, Seq::empty()))).with(
        "usage"@,
        usage_out(resp.usage),
    );
    let m = carried(m, "previous_response_id"@, kept.at("previous_response_id"@));
    let m = carried(m, "metadata"@, kept.at("metadata"@));
    Tree::Obj(
        if resp.stop_reason == StopReason::MaxTokens {
            m.set(
                "incomplete_details"@,
                match kept.at("incomplete_details"@) {
                    Some(d) => d,
                    None => Tree::Obj(json::fs().with("reason"@, json::st("max_output_tokens"@))),
                },
            )
        } else {
            m
        },
    )
}

/// Encode an answer made at `created`.
pub fn encode_response_at(resp: &ChatResponse, created: i64) -> (r: Json)
    ensures
        r@ == response_body(resp@, created),
{
    let ghost blocks = resp@.content;
    let mut output: Vec<Json> = Vec::new();
    for i in 0..resp.content.len()
        invariant
            blocks == views::of(resp.content@),
            items_out(blocks, 0, Seq::empty()) == items_out(blocks, i as int, views::of(output@)),
    {
        assert(blocks[i as int] == resp.content@[i as int]@);
        if let Some(t) = encode_item(&resp.content[i]) {
            output.push(t);
        }
    }
    let incomplete = resp.stop_reason == StopReason::MaxTokens;
    let mut m = Fields::new().with("id", js(resp.id.as_str())).with("object", js("response")).with(
        "created_at",
        whole(created),
    ).with("status", js(if incomplete { "incomplete" } else { "completed" })).with(
        "model",
        js(resp.model.as_str()),
    ).with("output", array(output)).with("output_text", Json::Str(resp.text())).with(
        "usage",
        encode_usage(&resp.usage),
    );
    carry(&mut m, "previous_response_id", resp.passthrough.at("previous_response_id"));
    carry(&mut m, "metadata", resp.passthrough.at("metadata"));
    if incomplete {
        let details = match resp.passthrough.at("incomplete_details").copied() {
            Some(d) => d,
            None => Fields::new().with("reason", js("max_output_tokens")).done(),
        };
        m.put("incomplete_details", details);
    }
    m.done()
}

/// Encode an answer; it is made now.
pub fn encode_response(resp: &ChatResponse) -> (r: Json)
    ensures
        exists|created: i64| r@ == #[trigger] response_body(resp@, created),
{
    encode_response_at(resp, draw::unix_now())
}

// --------------------------------------------------------------- stream in

pub struct ResponsesStreamParser {
    pub id: String,
    pub model: String,
    pub started: bool,
    pub stopped: bool,
    pub next_index: u32,
    pub text_index: Option<u32>,
    pub thinking_index: Option<u32>,
    /// Item and call identifiers -> canonical block index.
    pub tool_indices: Vec<(String, u32)>,
    pub usage: Usage,
}

pub struct ParserV {
    pub id: Seq<char>,
    pub model: Seq<char>,
    pub started: bool,
    pub stopped: bool,
    pub next_index: u32,
    pub text_index: Option<u32>,
    pub thinking_index: Option<u32>,
    pub tool_indices: Seq<(Seq<char>, u32)>,
    pub usage: Usage,
}

/// The names of a list of named numbers, and the numbers.
pub open spec fn named(s: Seq<(String, u32)>) -> Seq<(Seq<char>, u32)> {
    Seq::new(s.len(), |i: int| (s[i].0@, s[i].1))
}

impl View for ResponsesStreamParser {
    type V = ParserV;

    open spec fn view(&self) -> ParserV {
        ParserV {
            id: self.id@,
            model: self.model@,
            started: self.started,
            stopped: self.stopped,
            next_index: self.next_index,
            text_index: self.text_index,
            thinking_index: self.thinking_index,
            tool_indices: named(self.tool_indices@),
            usage: self.usage,
        }
    }
}

pub open spec fn fresh_parser(model: Seq<char>) -> ParserV {
    ParserV {
        id: Seq::empty(),
        model,
        started: false,
        stopped: false,
        next_index: 0,
        text_index: None,
        thinking_index: None,
        tool_indices: Seq::empty(),
        usage: ir::no_usage(),
    }
}

/// Where a name is, from the `i`th on; the length where it is not.
pub open spec fn name_at(m: Seq<(Seq<char>, u32)>, name: Seq<char>, i: int) -> int
    decreases m.len() - i,
{
    if i < 0 || i >= m.len() {
        m.len() as int
    } else if m[i].0 == name {
        i
    } else {
        name_at(m, name, i + 1)
    }
}

/// The number of a name.
pub open spec fn number_of(m: Seq<(Seq<char>, u32)>, name: Seq<char>) -> Option<u32> {
    let at = name_at(m, name, 0);
    if 0 <= at < m.len() {
        Some(m[at].1)
    } else {
        None
    }
}

/// The list with a number under a name; an empty name is none.
pub open spec fn with_number(m: Seq<(Seq<char>, u32)>, name: Seq<char>, n: u32) -> Seq<(Seq<char>, u32)> {
    let at = name_at(m, name, 0);
    if name.len() == 0 {
        m
    } else if 0 <= at < m.len() {
        m.update(at, (name, n))
    } else {
        m.push((name, n))
    }
}

/// A parser after a frame, with the events of the frame.
pub struct Step {
    pub p: ParserV,
    pub out: Seq<EventV>,
}

pub open spec fn no_event(p: ParserV) -> Step {
    Step { p, out: Seq::empty() }
}

pub open spec fn one_event(p: ParserV, e: EventV) -> Step {
    Step { p, out: Seq::empty().push(e) }
}

impl ParserV {
    /// Have a text block open: the open one is used again while its deltas keep arriving.
    pub open spec fn open_text(self) -> ParserV {
        match self.text_index {
            Some(_) => self,
            None => ParserV {
                text_index: Some(self.next_index),
                next_index: protocol::bumped(self.next_index),
                ..self
            },
        }
    }

    pub open spec fn open_thinking(self) -> ParserV {
        match self.thinking_index {
            Some(_) => self,
            None => ParserV {
                thinking_index: Some(self.next_index),
                next_index: protocol::bumped(self.next_index),
                ..self
            },
        }
    }

    pub open spec fn start_event(self) -> EventV {
        EventV::Start { id: self.id, model: self.model, usage: self.usage }
    }

    pub open spec fn stop_event(self) -> EventV {
        EventV::Stop { stop_reason: StopReason::EndTurn, stop_sequence: None, usage: self.usage }
    }
}

pub open spec fn on_created(p: ParserV, event: Tree) -> Step {
    let response = event.at("response"@);
    let q = ParserV {
        id: response.at("id"@).text_or("resp_stream"@),
        model: response.at("model"@).text_or(p.model),
        started: true,
        ..p
    };
    one_event(q, q.start_event())
}

pub open spec fn on_item_added(p: ParserV, item: Option<Tree>) -> Step {
    if item.at("type"@).text() == Some("function_call"@) {
        let index = p.next_index;
        let item_id = item.at("id"@).text_or(Seq::empty());
        let call_id = item.at("call_id"@).text_or(Seq::empty());
        one_event(
            ParserV {
                next_index: protocol::bumped(index),
                tool_indices: with_number(with_number(p.tool_indices, item_id, index), call_id, index),
                ..p
            },
            EventV::ToolUseStart { index, id: call_id, name: item.at("name"@).text_or(Seq::empty()) },
        )
    } else {
        no_event(p)
    }
}

pub open spec fn on_part_added(p: ParserV, part: Option<Tree>) -> ParserV {
    let kind = part.at("type"@).text();
    if kind == Some("output_text"@) {
        p.open_text()
    } else if kind == Some("reasoning"@) {
        p.open_thinking()
    } else {
        p
    }
}

pub open spec fn on_part_done(p: ParserV, part: Option<Tree>) -> ParserV {
    let kind = part.at("type"@).text();
    if kind == Some("output_text"@) {
        ParserV { text_index: None, ..p }
    } else if kind == Some("reasoning"@) {
        ParserV { thinking_index: None, ..p }
    } else {
        p
    }
}

/// The block that an arguments delta belongs to.
pub open spec fn arguments_block(p: ParserV, event: Tree) -> Option<u32> {
    match number_of(p.tool_indices, event.at("item_id"@).text_or(Seq::empty())) {
        Some(i) => Some(i),
        None => match event.at("call_id"@).text() {
            Some(id) => number_of(p.tool_indices, id),
            None => None,
        },
    }
}

pub open spec fn on_completed(p: ParserV, event: Tree) -> Step {
    let out = if p.started { Seq::empty() } else { Seq::empty().push(p.start_event()) };
    let usage = match event.at("response"@).at("usage"@) {
        Some(u) => usage_of(Some(u)),
        None => p.usage,
    };
    let q = ParserV { started: true, stopped: true, usage, ..p };
    Step { p: q, out: out.push(q.stop_event()) }
}

/// One event of the stream.
pub open spec fn push_event(p: ParserV, event: Tree) -> Step {
    let kind = event.at("type"@).text_or(Seq::empty());
    if kind == "response.created"@ {
        on_created(p, event)
    } else if kind == "response.output_item.added"@ {
        on_item_added(p, event.at("item"@))
    } else if kind == "response.content_part.added"@ {
        no_event(on_part_added(p, event.at("part"@)))
    } else if kind == "response.content_part.done"@ {
        no_event(on_part_done(p, event.at("part"@)))
    } else if kind == "response.output_item.done"@ {
        no_event(ParserV { text_index: None, thinking_index: None, ..p })
    } else if kind == "response.output_text.delta"@ {
        let q = p.open_text();
        match event.at("delta"@).text() {
            Some(text) => one_event(q, EventV::TextDelta { index: q.text_index->0, text }),
            None => no_event(q),
        }
    } else if kind == "response.function_call_arguments.delta"@ {
        match (arguments_block(p, event), event.at("delta"@).text()) {
            (Some(index), Some(partial_json)) => one_event(p, EventV::ToolUseDelta { index, partial_json }),
            _ => no_event(p),
        }
    } else if kind == "response.reasoning_summary_text.delta"@ {
        let q = p.open_thinking();
        match event.at("delta"@).text() {
            Some(text) => one_event(q, EventV::ThinkingDelta { index: q.thinking_index->0, text }),
            None => no_event(q),
        }
    } else if kind == "response.completed"@ {
        on_completed(p, event)
    } else {
        no_event(p)
    }
}

/// One frame.
pub open spec fn push_frame(p: ParserV, frame: FrameV) -> Result<Step, ErrorV> {
    let data = text::trimmed(frame.data);
    if data.len() == 0 || data == "[DONE]"@ {
        Ok(no_event(p))
    } else {
        match frame.json() {
            Ok(event) => Ok(push_event(p, event)),
            Err(e) => Err(e),
        }
    }
}

/// The end of the body: a stop that did not come is made up for.
pub open spec fn finished(p: ParserV) -> Step {
    if p.started && !p.stopped {
        one_event(ParserV { stopped: true, ..p }, p.stop_event())
    } else {
        no_event(p)
    }
}

/// Ending twice is ending once.
pub proof fn finishing_twice_adds_nothing(p: ParserV)
    ensures
        finished(finished(p).p) == no_event(finished(p).p),
{
}

fn one(e: StreamEvent) -> (r: Vec<StreamEvent>)
    ensures
        views::of(r@) == Seq::empty().push(e@),
{
    let mut out: Vec<StreamEvent> = Vec::new();
    out.push(e);
    out
}

impl ResponsesStreamParser {
    pub fn new(model: &str) -> (r: Self)
        ensures
            r@ == fresh_parser(model@),
    {
        let r = ResponsesStreamParser {
            id: String::new(),
            model: model.to_owned(),
            started: false,
            stopped: false,
            next_index: 0,
            text_index: None,
            thinking_index: None,
            tool_indices: Vec::new(),
            usage: Usage::default(),
        };
        assert(r@.id =~= Seq::empty());
        assert(r@.tool_indices =~= Seq::empty());
        r
    }

    fn open_text(&mut self) -> (r: u32)
        ensures
            final(self)@ == old(self)@.open_text(),
            final(self)@.text_index == Some(r),
    {
        if let Some(i) = self.text_index {
            return i;
        }
        let index: u32 = self.next_index;
        self.next_index = bump(self.next_index);
        self.text_index = Some(index);
        index
    }

    fn open_thinking(&mut self) -> (r: u32)
        ensures
            final(self)@ == old(self)@.open_thinking(),
            final(self)@.thinking_index == Some(r),
    {
        if let Some(i) = self.thinking_index {
            return i;
        }
        let index: u32 = self.next_index;
        self.next_index = bump(self.next_index);
        self.thinking_index = Some(index);
        index
    }

    fn position(&self, name: &str) -> (r: usize)
        ensures
            r == name_at(self@.tool_indices, name@, 0),
            r <= self.tool_indices@.len(),
    {
        let mut i: usize = 0;
        while i < self.tool_indices.len() && !same(self.tool_indices[i].0.as_str(), name)
            invariant
                i <= self.tool_indices@.len(),
                name_at(self@.tool_indices, name@, 0) == name_at(self@.tool_indices, name@, i as int),
            decreases self.tool_indices@.len() - i,
        {
            i += 1;
        }
        i
    }

    fn number(&self, name: &str) -> (r: Option<u32>)
        ensures
            r == number_of(self@.tool_indices, name@),
    {
        let at: usize = self.position(name);
        if at < self.tool_indices.len() {
            Some(self.tool_indices[at].1)
        } else {
            None
        }
    }

    fn set_number(&mut self, name: &str, n: u32)
        ensures
            final(self)@ == (ParserV {
                tool_indices: with_number(old(self)@.tool_indices, name@, n),
                ..old(self)@
            }),
    {
        if name.unicode_len() == 0 {
            return;
        }
        let at: usize = self.position(name);
        if at < self.tool_indices.len() {
            self.tool_indices.set(at, (name.to_owned(), n));
        } else {
            self.tool_indices.push((name.to_owned(), n));
        }
        assert(self@.tool_indices =~= with_number(old(self)@.tool_indices, name@, n));
    }

    fn start_event(&self) -> (r: StreamEvent)
        ensures
            r@ == self@.start_event(),
    {
        StreamEvent::Start { id: self.id.clone(), model: self.model.clone(), usage: self.usage }
    }

    fn stop_event(&self) -> (r: StreamEvent)
        ensures
            r@ == self@.stop_event(),
    {
        StreamEvent::Stop { stop_reason: StopReason::EndTurn, stop_sequence: None, usage: self.usage }
    }

    fn on_item_added(&mut self, item: At<'_>) -> (r: Vec<StreamEvent>)
        ensures
            (Step { p: final(self)@, out: views::of(r@) }) == on_item_added(old(self)@, item@),
    {
        if !item.at("type").is_text("function_call") {
            return Vec::new();
        }
        let index: u32 = self.next_index;
        self.next_index = bump(self.next_index);
        let item_id = item.at("id").string();
        let call_id = item.at("call_id").string();
        self.set_number(item_id.as_str(), index);
        self.set_number(call_id.as_str(), index);
        one(StreamEvent::ToolUseStart { index, id: call_id, name: item.at("name").string() })
    }

    fn on_part_added(&mut self, part: At<'_>)
        ensures
            final(self)@ == on_part_added(old(self)@, part@),
    {
        let kind = part.at("type");
        if kind.is_text("output_text") {
            let _ = self.open_text();
        } else if kind.is_text("reasoning") {
            let _ = self.open_thinking();
        }
    }

    fn on_part_done(&mut self, part: At<'_>)
        ensures
            final(self)@ == on_part_done(old(self)@, part@),
    {
        let kind = part.at("type");
        if kind.is_text("output_text") {
            self.text_index = None;
        } else if kind.is_text("reasoning") {
            self.thinking_index = None;
        }
    }

    fn on_completed(&mut self, event: &Json) -> (r: Vec<StreamEvent>)
        ensures
            (Step { p: final(self)@, out: views::of(r@) }) == on_completed(old(self)@, event@),
    {
        let mut out: Vec<StreamEvent> = Vec::new();
        if !self.started {
            out.push(self.start_event());
            self.started = true;
        }
        let u = event.at("response").at("usage");
        if u.is_some() {
            self.usage = decode_usage(u);
        }
        self.stopped = true;
        out.push(self.stop_event());
        out
    }

    fn on_created(&mut self, event: &Json) -> (r: Vec<StreamEvent>)
        ensures
            (Step { p: final(self)@, out: views::of(r@) }) == on_created(old(self)@, event@),
    {
        let response = event.at("response");
        self.id = response.at("id").string_or("resp_stream");
        if let Some(m) = response.at("model").opt_string() {
            self.model = m;
        }
        self.started = true;
        one(self.start_event())
    }

    fn push_event(&mut self, event: &Json) -> (r: Vec<StreamEvent>)
        ensures
            (Step { p: final(self)@, out: views::of(r@) }) == push_event(old(self)@, event@),
    {
        let kind = event.at("type").string();
        let kind = kind.as_str();
        if same(kind, "response.created") {
            self.on_created(event)
        } else if same(kind, "response.output_item.added") {
            self.on_item_added(event.at("item"))
        } else if same(kind, "response.content_part.added") {
            self.on_part_added(event.at("part"));
            Vec::new()
        } else if same(kind, "response.content_part.done") {
            self.on_part_done(event.at("part"));
            Vec::new()
        } else if same(kind, "response.output_item.done") {
            self.text_index = None;
            self.thinking_index = None;
            Vec::new()
        } else if same(kind, "response.output_text.delta") {
            let index: u32 = self.open_text();
            match event.at("delta").opt_string() {
                Some(text) => one(StreamEvent::TextDelta { index, text }),
                None => Vec::new(),
            }
        } else if same(kind, "response.function_call_arguments.delta") {
            let item_id = event.at("item_id").string();
            let index = match self.number(item_id.as_str()) {
                Some(i) => Some(i),
                None => match event.at("call_id").text() {
                    Some(id) => self.number(id),
                    None => None,
                },
            };
            match (index, event.at("delta").opt_string()) {
                (Some(index), Some(partial_json)) => one(StreamEvent::ToolUseDelta { index, partial_json }),
                _ => Vec::new(),
            }
        } else if same(kind, "response.reasoning_summary_text.delta") {
            let index: u32 = self.open_thinking();
            match event.at("delta").opt_string() {
                Some(text) => one(StreamEvent::ThinkingDelta { index, text }),
                None => Vec::new(),
            }
        } else if same(kind, "response.completed") {
            self.on_completed(event)
        } else {
            Vec::new()
        }
    }
}

impl StreamParser for ResponsesStreamParser {
    fn push(&mut self, frame: &SseFrame) -> (r: Result<Vec<StreamEvent>, Error>)
        ensures
            match r {
                Ok(out) => push_frame(old(self)@, frame@) == Ok::<Step, ErrorV>(
                    Step { p: final(self)@, out: views::of(out@) },
                ),
                Err(e) => push_frame(old(self)@, frame@) == Err::<Step, ErrorV>(e@) && final(self)@ == old(self)@,
            },
    {
        let data = trim(frame.data.as_str());
        if data.unicode_len() == 0 || same(data, "[DONE]") {
            return Ok(Vec::new());
        }
        match frame.json() {
            Ok(event) => Ok(self.push_event(&event)),
            Err(e) => Err(e),
        }
    }

    fn finish(&mut self) -> (r: Vec<StreamEvent>)
        ensures
            (Step { p: final(self)@, out: views::of(r@) }) == finished(old(self)@),
    {
        if self.started && !self.stopped {
            self.stopped = true;
            one(self.stop_event())
        } else {
            Vec::new()
        }
    }
}

// -------------------------------------------------------------- stream out

/// What the open output item holds.
#[derive(Debug, Clone, Copy, PartialEq, Eq, Structural)]
pub enum OutputItemKind {
    Text,
    Thinking,
}

/// Per-tool-call state, fully independent of the open text or thinking item.
pub struct ToolOutputState {
    pub output_index: u32,
    pub item_id: String,
    pub call_id: String,
    pub name: String,
    pub arguments: String,
}

pub struct ToolStateV {
    pub output_index: u32,
    pub item_id: Seq<char>,
    pub call_id: Seq<char>,
    pub name: Seq<char>,
    pub arguments: Seq<char>,
}

impl View for ToolOutputState {
    type V = ToolStateV;

    open spec fn view(&self) -> ToolStateV {
        ToolStateV {
            output_index: self.output_index,
            item_id: self.item_id@,
            call_id: self.call_id@,
            name: self.name@,
            arguments: self.arguments@,
        }
    }
}

pub struct ResponsesStreamEncoder {
    pub id: String,
    pub model: String,
    pub created_at: i64,
    pub done: bool,
    pub next_output_index: u32,
    // Text/thinking state: sequential, one at a time.
    pub current_output_index: u32,
    pub content_index: u32,
    pub current_kind: Option<OutputItemKind>,
    pub content_part_open: bool,
    pub output_item_open: bool,
    pub current_item_id: String,
    pub current_text: String,
    pub current_thinking: String,
    // Tool state: parallel, per block index, in the order the calls began.
    pub tool_states: Vec<(u32, ToolOutputState)>,
    // Finished items by output index, in its order.
    pub output_items: Vec<(u32, Json)>,
}

pub struct EncoderV {
    pub id: Seq<char>,
    pub model: Seq<char>,
    pub created_at: i64,
    pub done: bool,
    pub next_output_index: u32,
    pub current_output_index: u32,
    pub content_index: u32,
    pub current_kind: Option<OutputItemKind>,
    pub content_part_open: bool,
    pub output_item_open: bool,
    pub current_item_id: Seq<char>,
    pub current_text: Seq<char>,
    pub current_thinking: Seq<char>,
    pub tool_states: Seq<(u32, ToolStateV)>,
    pub output_items: Seq<(u32, Tree)>,
}

pub open spec fn tool_views(s: Seq<(u32, ToolOutputState)>) -> Seq<(u32, ToolStateV)> {
    Seq::new(s.len(), |i: int| (s[i].0, s[i].1@))
}

pub open spec fn item_views(s: Seq<(u32, Json)>) -> Seq<(u32, Tree)> {
    Seq::new(s.len(), |i: int| (s[i].0, s[i].1@))
}

impl View for ResponsesStreamEncoder {
    type V = EncoderV;

    open spec fn view(&self) -> EncoderV {
        EncoderV {
            id: self.id@,
            model: self.model@,
            created_at: self.created_at,
            done: self.done,
            next_output_index: self.next_output_index,
            current_output_index: self.current_output_index,
            content_index: self.content_index,
            current_kind: self.current_kind,
            content_part_open: self.content_part_open,
            output_item_open: self.output_item_open,
            current_item_id: self.current_item_id@,
            current_text: self.current_text@,
            current_thinking: self.current_thinking@,
            tool_states: tool_views(self.tool_states@),
            output_items: item_views(self.output_items@),
        }
    }
}

pub open spec fn fresh_encoder(model: Seq<char>, id: Seq<char>, created_at: i64) -> EncoderV {
    EncoderV {
        id,
        model,
        created_at,
        done: false,
        next_output_index: 0,
        current_output_index: 0,
        content_index: 0,
        current_kind: None,
        content_part_open: false,
        output_item_open: false,
        current_item_id: Seq::empty(),
        current_text: Seq::empty(),
        current_thinking: Seq::empty(),
        tool_states: Seq::empty(),
        output_items: Seq::empty(),
    }
}

/// Where a tool call of a block is, from the `i`th on; the length where it is not.
pub open spec fn tool_at(s: Seq<(u32, ToolStateV)>, index: u32, i: int) -> int
    decreases s.len() - i,
{
    if i < 0 || i >= s.len() {
        s.len() as int
    } else if s[i].0 == index {
        i
    } else {
        tool_at(s, index, i + 1)
    }
}

pub open spec fn with_tool(s: Seq<(u32, ToolStateV)>, index: u32, t: ToolStateV) -> Seq<(u32, ToolStateV)> {
    let at = tool_at(s, index, 0);
    if 0 <= at < s.len() {
        s.update(at, (index, t))
    } else {
        s.push((index, t))
    }
}

/// Where an output index belongs, from the `i`th item on.
pub open spec fn item_at(s: Seq<(u32, Tree)>, k: u32, i: int) -> int
    decreases s.len() - i,
{
    if i < 0 || i >= s.len() {
        s.len() as int
    } else if s[i].0 >= k {
        i
    } else {
        item_at(s, k, i + 1)
    }
}

/// The items with one more, in the order of their indices.
#[verifier::opaque]
pub open spec fn with_item(s: Seq<(u32, Tree)>, k: u32, v: Tree) -> Seq<(u32, Tree)> {
    let at = item_at(s, k, 0);
    if 0 <= at < s.len() && s[at].0 == k {
        s.update(at, (k, v))
    } else {
        s.insert(at, (k, v))
    }
}

pub open spec fn item_of(s: Seq<(u32, Tree)>, k: u32) -> Option<Tree> {
    let at = item_at(s, k, 0);
    if 0 <= at < s.len() && s[at].0 == k {
        Some(s[at].1)
    } else {
        None
    }
}

/// The items in the order of their indices, none twice.
pub open spec fn in_order(s: Seq<(u32, Tree)>) -> bool {
    forall|i: int, j: int| 0 <= i < j < s.len() ==> (#[trigger] s[i]).0 < (#[trigger] s[j]).0
}

proof fn item_at_bounds(s: Seq<(u32, Tree)>, k: u32, i: int)
    requires
        0 <= i <= s.len(),
    ensures
        i <= item_at(s, k, i) <= s.len(),
        item_at(s, k, i) < s.len() ==> s[item_at(s, k, i)].0 >= k,
        forall|j: int| i <= j < item_at(s, k, i) ==> (#[trigger] s[j]).0 < k,
    decreases s.len() - i,
{
    if i < s.len() && s[i].0 < k {
        item_at_bounds(s, k, i + 1);
    }
}

proof fn item_at_is_first(s: Seq<(u32, Tree)>, k: u32, at: int)
    requires
        0 <= at <= s.len(),
        at < s.len() ==> s[at].0 >= k,
        forall|j: int| 0 <= j < at ==> (#[trigger] s[j]).0 < k,
    ensures
        item_at(s, k, 0) == at,
{
    item_at_bounds(s, k, 0);
    let found = item_at(s, k, 0);
    if found < at {
        assert(s[found].0 < k);
    } else if at < found {
        assert(s[at].0 < k);
    }
}

/// A finished item is found under its index, the others stay, and the order holds.
pub proof fn items_stay_in_order(s: Seq<(u32, Tree)>, k: u32, v: Tree, other: u32)
    requires
        in_order(s),
    ensures
        in_order(with_item(s, k, v)),
        item_of(with_item(s, k, v), k) == Some(v),
        other != k ==> item_of(with_item(s, k, v), other) == item_of(s, other),
{
    reveal(with_item);
    item_at_bounds(s, k, 0);
    item_at_bounds(s, other, 0);
    let t = with_item(s, k, v);
    let at = item_at(s, k, 0);
    let there = at < s.len() && s[at].0 == k;
    assert(t[at] == (k, v));
    assert(forall|j: int| 0 <= j < at ==> t[j] == s[j]);
    assert(forall|j: int| at < j < t.len() ==> (#[trigger] t[j]) == if there { s[j] } else { s[j - 1] });
    item_at_is_first(t, k, at);
    if other != k {
        let from = item_at(s, other, 0);
        let to = if other < k || there { from } else { from + 1 };
        if other < k {
            if from < at {
                assert(t[from] == s[from]);
            } else if from > at {
                assert(s[at].0 < other);
            }
        } else {
            assert forall|j: int| 0 <= j < to implies (#[trigger] t[j]).0 < other by {
                if j > at && !there {
                    assert(s[j - 1].0 < other);
                } else if j > at {
                    assert(s[j].0 < other);
                } else if j < at {
                    assert(s[j].0 < k);
                }
            }
            if from < at {
                assert(s[from].0 < k);
            }
        }
        item_at_is_first(t, other, to);
    }
}

/// An encoder with the frames that it has put out.
pub struct Written {
    pub e: EncoderV,
    pub out: Seq<FrameV>,
}

/// A frame named as its payload's type.
pub open spec fn event_frame(kind: Seq<char>, rest: Seq<(Seq<char>, Tree)>) -> FrameV {
    FrameV { event: Some(kind), data: json::rendered(Tree::Obj(rest)) }
}

pub open spec fn typed(kind: Seq<char>) -> Seq<(Seq<char>, Tree)> {
    json::fs().with("type"@, json::st(kind))
}

impl EncoderV {
    /// A payload about the open content part.
    pub open spec fn part_head(self, kind: Seq<char>) -> Seq<(Seq<char>, Tree)> {
        typed(kind).with("item_id"@, json::st(self.current_item_id)).with(
            "output_index"@,
            json::num(self.current_output_index as int),
        ).with("content_index"@, json::num(self.content_index as int))
    }

    /// The item that is finished.
    pub open spec fn finished_item(self) -> Option<Tree> {
        match self.current_kind {
            Some(OutputItemKind::Text) => if self.current_text.len() > 0 {
                Some(
                    Tree::Obj(
                        json::fs().with("id"@, json::st(self.current_item_id)).with(
                            "type"@,
                            json::st("message"@),
                        ).with("role"@, json::st("assistant"@)).with("status"@, json::st("completed"@)).with(
                            "content"@,
                            output_content(self.current_text),
                        ),
                    ),
                )
            } else {
                None
            },
            Some(OutputItemKind::Thinking) => if self.current_thinking.len() > 0 {
                Some(
                    Tree::Obj(
                        json::fs().with("id"@, json::st(self.current_item_id)).with(
                            "type"@,
                            json::st("reasoning"@),
                        ).with(
                            "summary"@,
                            Tree::Arr(
                                Seq::empty().push(
                                    Tree::Obj(
                                        json::fs().with("type"@, json::st("summary_text"@)).with(
                                            "text"@,
                                            json::st(self.current_thinking),
                                        ),
                                    ),
                                ),
                            ),
                        ),
                    ),
                )
            } else {
                None
            },
            None => None,
        }
    }

    /// The open item put among the finished ones.
    pub open spec fn finalized(self) -> EncoderV {
        match self.finished_item() {
            Some(item) => EncoderV {
                output_items: with_item(self.output_items, self.current_output_index, item),
                current_text: if self.current_kind == Some(OutputItemKind::Text) {
                    Seq::empty()
                } else {
                    self.current_text
                },
                current_thinking: if self.current_kind == Some(OutputItemKind::Thinking) {
                    Seq::empty()
                } else {
                    self.current_thinking
                },
                ..self
            },
            None => self,
        }
    }

    /// What is told of the item when it closes.
    pub open spec fn closing_item(self) -> Tree {
        match item_of(self.output_items, self.current_output_index) {
            Some(item) => item,
            None => empty_item(self.current_item_id),
        }
    }

    pub open spec fn output(self) -> Tree {
        Tree::Arr(Seq::new(self.output_items.len(), |i: int| self.output_items[i].1))
    }

    /// The frame that ends the response, with the finished items.
    pub open spec fn completed(self, status: Seq<char>, usage: Option<Usage>) -> FrameV {
        let m = json::fs().with("id"@, json::st(self.id)).with("object"@, json::st("response"@)).with(
            "created_at"@,
            json::integer(self.created_at),
        ).with("status"@, json::st(status)).with("model"@, json::st(self.model)).with("output"@, self.output());
        let m = match usage {
            Some(u) => m.with("usage"@, usage_out(u)),
            None => m,
        };
        event_frame("response.completed"@, typed("response.completed"@).with("response"@, Tree::Obj(m)))
    }
}

/// What is told of an item that stayed empty.
pub open spec fn empty_item(id: Seq<char>) -> Tree {
    Tree::Obj(
        json::fs().with("id"@, json::st(id)).with("type"@, json::st("message"@)).with(
            "status"@,
            json::st("completed"@),
        ),
    )
}

pub open spec fn part_kind(k: OutputItemKind) -> Seq<char> {
    match k {
        OutputItemKind::Text => "output_text"@,
        OutputItemKind::Thinking => "reasoning"@,
    }
}

pub open spec fn part_out(k: OutputItemKind) -> Tree {
    Tree::Obj(json::fs().with("type"@, json::st(part_kind(k))))
}

pub open spec fn item_done_frame(output_index: u32, item: Tree) -> FrameV {
    event_frame(
        "response.output_item.done"@,
        typed("response.output_item.done"@).with("output_index"@, json::num(output_index as int)).with(
            "item"@,
            item,
        ),
    )
}

pub open spec fn item_added_frame(output_index: u32, item: Tree) -> FrameV {
    event_frame(
        "response.output_item.added"@,
        typed("response.output_item.added"@).with("output_index"@, json::num(output_index as int)).with(
            "item"@,
            item,
        ),
    )
}

/// Arguments that did not come are an empty object.
pub open spec fn arguments_or_empty(a: Seq<char>) -> Seq<char> {
    if a.len() == 0 {
        "{}"@
    } else {
        a
    }
}

pub open spec fn arguments_done_frame(t: ToolStateV, arguments: Seq<char>) -> FrameV {
    event_frame(
        "response.function_call_arguments.done"@,
        typed("response.function_call_arguments.done"@).with("item_id"@, json::st(t.item_id)).with(
            "output_index"@,
            json::num(t.output_index as int),
        ).with("content_index"@, json::num(0)).with("arguments"@, json::st(arguments)),
    )
}

pub open spec fn call_item(t: ToolStateV, status: Seq<char>) -> Tree {
    Tree::Obj(
        json::fs().with("type"@, json::st("function_call"@)).with("id"@, json::st(t.item_id)).with(
            "call_id"@,
            json::st(t.call_id),
        ).with("name"@, json::st(t.name)).with("arguments"@, json::st(arguments_or_empty(t.arguments))).with(
            "status"@,
            json::st(status),
        ),
    )
}

impl Written {
    pub open spec fn emit(self, f: FrameV) -> Written {
        Written { out: self.out.push(f), ..self }
    }

    /// The last event of the open content part, and its end.
    pub open spec fn close_part(self) -> Written {
        if !self.e.content_part_open {
            self
        } else {
            let w = match self.e.current_kind {
                Some(OutputItemKind::Text) => self.emit(
                    event_frame(
                        "response.output_text.done"@,
                        self.e.part_head("response.output_text.done"@).with(
                            "text"@,
                            json::st(self.e.current_text),
                        ),
                    ),
                ),
                Some(OutputItemKind::Thinking) => self.emit(
                    event_frame(
                        "response.reasoning_summary_text.done"@,
                        self.e.part_head("response.reasoning_summary_text.done"@).with(
                            "text"@,
                            json::st(self.e.current_thinking),
                        ),
                    ),
                ),
                None => self,
            };
            let w = Written { e: EncoderV { content_part_open: false, ..w.e }, ..w };
            match self.e.current_kind {
                Some(k) => w.emit(
                    event_frame(
                        "response.content_part.done"@,
                        w.e.part_head("response.content_part.done"@).with("part"@, part_out(k)),
                    ),
                ),
                None => w,
            }
        }
    }

    /// Close the open text or thinking item: its last text event, the end of its
    /// part, and the end of the item with the whole item in it.
    pub open spec fn close_item(self) -> Written {
        if !self.e.output_item_open {
            self
        } else {
            let w = self.close_part();
            let e = EncoderV { output_item_open: false, ..w.e.finalized() };
            Written { e: EncoderV { current_kind: None, ..e }, ..w }.emit(
                item_done_frame(e.current_output_index, e.closing_item()),
            )
        }
    }

    /// Switch to an item of `kind`, where another is open or none is.
    pub open spec fn open_item(self, kind: OutputItemKind) -> Written {
        if self.e.current_kind == Some(kind) {
            self
        } else {
            let w = self.close_item();
            let i = w.e.next_output_index;
            let id = match kind {
                OutputItemKind::Text => "msg_"@ + text::digits(i as nat),
                OutputItemKind::Thinking => "rs_"@ + text::digits(i as nat),
            };
            let e = EncoderV {
                next_output_index: protocol::bumped(i),
                current_output_index: i,
                content_index: 0,
                current_kind: Some(kind),
                output_item_open: true,
                current_text: if kind == OutputItemKind::Text { Seq::empty() } else { w.e.current_text },
                current_thinking: if kind == OutputItemKind::Thinking { Seq::empty() } else { w.e.current_thinking },
                current_item_id: id,
                ..w.e
            };
            let item = match kind {
                OutputItemKind::Text => json::fs().with("id"@, json::st(id)).with(
                    "type"@,
                    json::st("message"@),
                ).with("role"@, json::st("assistant"@)).with("status"@, json::st("in_progress"@)).with(
                    "content"@,
                    Tree::Arr(Seq::empty()),
                ),
                OutputItemKind::Thinking => json::fs().with("id"@, json::st(id)).with(
                    "type"@,
                    json::st("reasoning"@),
                ).with("summary"@, Tree::Arr(Seq::empty())),
            };
            Written { e, ..w }.emit(item_added_frame(i, Tree::Obj(item)))
        }
    }

    /// Have a content part open in the item of `kind`.
    pub open spec fn open_part(self, kind: OutputItemKind) -> Written {
        if self.e.content_part_open {
            self
        } else {
            let e = EncoderV { content_part_open: true, ..self.e };
            Written { e, ..self }.emit(
                event_frame(
                    "response.content_part.added"@,
                    e.part_head("response.content_part.added"@).with("part"@, part_out(kind)),
                ),
            )
        }
    }

    /// A text or thinking delta.
    pub open spec fn delta(self, kind: OutputItemKind, t: Seq<char>) -> Written {
        let w = self.open_item(kind).open_part(kind);
        let name = match kind {
            OutputItemKind::Text => "response.output_text.delta"@,
            OutputItemKind::Thinking => "response.reasoning_summary_text.delta"@,
        };
        let w = w.emit(event_frame(name, w.e.part_head(name).with("delta"@, json::st(t))));
        Written {
            e: match kind {
                OutputItemKind::Text => EncoderV { current_text: w.e.current_text + t, ..w.e },
                OutputItemKind::Thinking => EncoderV { current_thinking: w.e.current_thinking + t, ..w.e },
            },
            ..w
        }
    }

    /// End a tool call.
    pub open spec fn end_call(self, t: ToolStateV, arguments: Seq<char>, status: Seq<char>) -> Written {
        let item = call_item(t, status);
        let w = self.emit(arguments_done_frame(t, arguments));
        Written {
            e: EncoderV { output_items: with_item(w.e.output_items, t.output_index, item), ..w.e },
            ..w
        }.emit(item_done_frame(t.output_index, item))
    }

    /// End the tool calls that are still going, from the `i`th on.
    pub open spec fn flush(self, ts: Seq<(u32, ToolStateV)>, i: int) -> Written
        decreases ts.len() - i,
    {
        if i < 0 || i >= ts.len() {
            self
        } else {
            self.end_call(ts[i].1, arguments_or_empty(ts[i].1.arguments), "incomplete"@).flush(ts, i + 1)
        }
    }

    pub open spec fn flush_all(self) -> Written {
        Written { e: EncoderV { tool_states: Seq::empty(), ..self.e }, ..self }.flush(self.e.tool_states, 0)
    }

    /// The end of the response.
    pub open spec fn complete(self, status: Seq<char>, usage: Option<Usage>) -> Written {
        Written { e: EncoderV { output_items: Seq::empty(), ..self.e }, ..self }.emit(self.e.completed(status, usage))
    }
}

pub open spec fn nothing_written(e: EncoderV) -> Written {
    Written { e, out: Seq::empty() }
}

pub open spec fn on_start(e: EncoderV, id: Seq<char>, model: Seq<char>) -> Written {
    let e = EncoderV {
        id: if id.len() > 0 { id } else { e.id },
        model: if model.len() > 0 { model } else { e.model },
        ..e
    };
    nothing_written(e).emit(
        event_frame(
            "response.created"@,
            typed("response.created"@).with(
                "response"@,
                Tree::Obj(
                    json::fs().with("id"@, json::st(e.id)).with("object"@, json::st("response"@)).with(
                        "created_at"@,
                        json::integer(e.created_at),
                    ).with("status"@, json::st("in_progress"@)).with("model"@, json::st(e.model)).with(
                        "output"@,
                        Tree::Arr(Seq::empty()),
                    ),
                ),
            ),
        ),
    )
}

/// A tool call starts. It leaves the open text or thinking item alone.
pub open spec fn on_tool_start(e: EncoderV, index: u32, id: Seq<char>, name: Seq<char>) -> Written {
    let i = e.next_output_index;
    let t = ToolStateV { output_index: i, item_id: "fc_"@ + id, call_id: id, name, arguments: Seq::empty() };
    nothing_written(
        EncoderV {
            next_output_index: protocol::bumped(i),
            tool_states: with_tool(e.tool_states, index, t),
            ..e
        },
    ).emit(
        item_added_frame(
            i,
            Tree::Obj(
                json::fs().with("id"@, json::st(t.item_id)).with("type"@, json::st("function_call"@)).with(
                    "call_id"@,
                    json::st(id),
                ).with("name"@, json::st(name)).with("arguments"@, json::st(Seq::empty())).with(
                    "status"@,
                    json::st("in_progress"@),
                ),
            ),
        ),
    )
}

pub open spec fn on_tool_delta(e: EncoderV, index: u32, partial: Seq<char>) -> Written {
    let at = tool_at(e.tool_states, index, 0);
    if 0 <= at < e.tool_states.len() {
        let t = e.tool_states[at].1;
        nothing_written(
            EncoderV {
                tool_states: e.tool_states.update(
                    at,
                    (e.tool_states[at].0, ToolStateV { arguments: t.arguments + partial, ..t }),
                ),
                ..e
            },
        ).emit(
            event_frame(
                "response.function_call_arguments.delta"@,
                typed("response.function_call_arguments.delta"@).with("item_id"@, json::st(t.item_id)).with(
                    "output_index"@,
                    json::num(t.output_index as int),
                ).with("content_index"@, json::num(0)).with("delta"@, json::st(partial)),
            ),
        )
    } else {
        nothing_written(e)
    }
}

pub open spec fn on_block_stop(e: EncoderV, index: u32) -> Written {
    let at = tool_at(e.tool_states, index, 0);
    if 0 <= at < e.tool_states.len() {
        let t = e.tool_states[at].1;
        nothing_written(EncoderV { tool_states: e.tool_states.remove(at), ..e }).end_call(
            t,
            t.arguments,
            "completed"@,
        )
    } else {
        nothing_written(e)
    }
}

/// One event.
pub open spec fn encoded_event(e: EncoderV, ev: EventV) -> Written {
    match ev {
        EventV::Start { id, model, .. } => on_start(e, id, model),
        EventV::TextDelta { text, .. } => nothing_written(e).delta(OutputItemKind::Text, text),
        EventV::ThinkingDelta { text, .. } => nothing_written(e).delta(OutputItemKind::Thinking, text),
        EventV::ToolUseStart { index, id, name } => on_tool_start(e, index, id, name),
        EventV::ToolUseDelta { index, partial_json } => on_tool_delta(e, index, partial_json),
        EventV::BlockStop { index } => on_block_stop(e, index),
        EventV::Stop { usage, .. } => {
            let w = nothing_written(e).close_item().flush_all().complete("completed"@, Some(usage));
            Written { e: EncoderV { done: true, ..w.e }, ..w }
        },
        _ => nothing_written(e),
    }
}

/// The end of the stream: once, and only where no stop came.
pub open spec fn encoded_finish(e: EncoderV) -> Written {
    if e.done {
        nothing_written(e)
    } else {
        let w = nothing_written(EncoderV { done: true, ..e }).close_item();
        let status = if w.e.tool_states.len() > 0 { "incomplete"@ } else { "completed"@ };
        w.flush_all().complete(status, None)
    }
}

/// An error in the middle of the stream ends it.
pub open spec fn encoded_error(e: EncoderV, err: ErrorV) -> Written {
    let w = if e.done {
        nothing_written(e)
    } else {
        nothing_written(EncoderV { done: true, ..e }).close_item()
    };
    Written { e: EncoderV { output_items: Seq::empty(), ..w.e }, ..w }.emit(
        event_frame(
            "response.failed"@,
            typed("response.failed"@).with(
                "response"@,
                Tree::Obj(
                    json::fs().with("id"@, json::st(w.e.id)).with("object"@, json::st("response"@)).with(
                        "status"@,
                        json::st("failed"@),
                    ).with("model"@, json::st(w.e.model)).with("error"@, err.wire(Dialect::OpenAIResponses)).with(
                        "output"@,
                        w.e.output(),
                    ),
                ),
            ),
        ),
    )
}

fn named_frame(kind: &str, rest: Fields) -> (r: SseFrame)
    ensures
        r@ == event_frame(kind@, rest@),
{
    SseFrame { event: Some(kind.to_owned()), data: json::render(&rest.done()) }
}

fn of_type(kind: &str) -> (r: Fields)
    ensures
        r@ == typed(kind@),
{
    Fields::new().with("type", js(kind))
}

fn encode_item_done(output_index: u32, item: Json) -> (r: SseFrame)
    ensures
        r@ == item_done_frame(output_index, item@),
{
    named_frame(
        "response.output_item.done",
        of_type("response.output_item.done").with("output_index", Json::UInt(output_index as u64)).with(
            "item",
            item,
        ),
    )
}

fn encode_item_added(output_index: u32, item: Json) -> (r: SseFrame)
    ensures
        r@ == item_added_frame(output_index, item@),
{
    named_frame(
        "response.output_item.added",
        of_type("response.output_item.added").with("output_index", Json::UInt(output_index as u64)).with(
            "item",
            item,
        ),
    )
}

fn filled_arguments(a: &String) -> (r: String)
    ensures
        r@ == arguments_or_empty(a@),
{
    if a.as_str().unicode_len() == 0 {
        "{}".to_owned()
    } else {
        a.clone()
    }
}

fn encode_part(k: OutputItemKind) -> (r: Json)
    ensures
        r@ == part_out(k),
{
    let name = match k {
        OutputItemKind::Text => "output_text",
        OutputItemKind::Thinking => "reasoning",
    };
    Fields::new().with("type", js(name)).done()
}

impl ResponsesStreamEncoder {
    /// An encoder for a response with this identifier, made at `created_at`.
    pub fn starting(model: &str, id: String, created_at: i64) -> (r: Self)
        ensures
            r@ == fresh_encoder(model@, id@, created_at),
    {
        let r = ResponsesStreamEncoder {
            id,
            model: model.to_owned(),
            created_at,
            done: false,
            next_output_index: 0,
            current_output_index: 0,
            content_index: 0,
            current_kind: None,
            content_part_open: false,
            output_item_open: false,
            current_item_id: String::new(),
            current_text: String::new(),
            current_thinking: String::new(),
            tool_states: Vec::new(),
            output_items: Vec::new(),
        };
        assert(r@.current_item_id =~= Seq::empty());
        assert(r@.current_text =~= Seq::empty());
        assert(r@.tool_states =~= Seq::empty());
        assert(r@.output_items =~= Seq::empty());
        r
    }

    /// An encoder for a fresh response, made now.
    pub fn new(model: &str) -> (r: Self)
        ensures
            r@ == fresh_encoder(model@, r@.id, r@.created_at),
            draw::is_fresh_id(r@.id, "resp-"@),
    {
        ResponsesStreamEncoder::starting(model, draw::fresh_id("resp-"), draw::unix_now())
    }

    fn part_head(&self, kind: &str) -> (r: Fields)
        ensures
            r@ == self@.part_head(kind@),
    {
        of_type(kind).with("item_id", js(self.current_item_id.as_str())).with(
            "output_index",
            Json::UInt(self.current_output_index as u64),
        ).with("content_index", Json::UInt(self.content_index as u64))
    }

    fn item_position(&self, k: u32) -> (r: usize)
        ensures
            r == item_at(self@.output_items, k, 0),
            r <= self.output_items@.len(),
    {
        let mut i: usize = 0;
        while i < self.output_items.len() && self.output_items[i].0 < k
            invariant
                i <= self.output_items@.len(),
                item_at(self@.output_items, k, 0) == item_at(self@.output_items, k, i as int),
            decreases self.output_items@.len() - i,
        {
            i += 1;
        }
        i
    }

    fn put_item(&mut self, k: u32, v: Json)
        ensures
            final(self)@ == (EncoderV {
                output_items: with_item(old(self)@.output_items, k, v@),
                ..old(self)@
            }),
    {
        reveal(with_item);
        let at: usize = self.item_position(k);
        if at < self.output_items.len() && self.output_items[at].0 == k {
            self.output_items.set(at, (k, v));
        } else {
            self.output_items.insert(at, (k, v));
        }
        assert(self@.output_items =~= with_item(old(self)@.output_items, k, v@));
    }

    fn closing_item(&self) -> (r: Json)
        ensures
            r@ == self@.closing_item(),
    {
        let at: usize = self.item_position(self.current_output_index);
        if at < self.output_items.len() && self.output_items[at].0 == self.current_output_index {
            self.output_items[at].1.clone()
        } else {
            Fields::new().with("id", js(self.current_item_id.as_str())).with("type", js("message")).with(
                "status",
                js("completed"),
            ).done()
        }
    }

    /// Collect the finished items, in the order of their indices.
    fn take_output(&mut self) -> (r: Json)
        ensures
            r@ == old(self)@.output(),
            final(self)@ == (EncoderV { output_items: Seq::empty(), ..old(self)@ }),
    {
        let mut out: Vec<Json> = Vec::new();
        for i in 0..self.output_items.len()
            invariant
                self@ == old(self)@,
                out@.len() == i,
                forall|j: int| 0 <= j < i ==> (#[trigger] out@[j])@ == self@.output_items[j].1,
        {
            let v = self.output_items[i].1.clone();
            out.push(v);
        }
        assert(views::of(out@) =~= self@.output()->Arr_0);
        self.output_items = Vec::new();
        assert(self@.output_items =~= Seq::empty());
        array(out)
    }

    fn close_part(&mut self, out: &mut Vec<SseFrame>)
        ensures
            (Written { e: final(self)@, out: views::of(final(out)@) }) == (Written {
                e: old(self)@,
                out: views::of(old(out)@),
            }).close_part(),
    {
        if !self.content_part_open {
            return;
        }
        match self.current_kind {
            Some(OutputItemKind::Text) => out.push(
                named_frame(
                    "response.output_text.done",
                    self.part_head("response.output_text.done").with("text", js(self.current_text.as_str())),
                ),
            ),
            Some(OutputItemKind::Thinking) => out.push(
                named_frame(
                    "response.reasoning_summary_text.done",
                    self.part_head("response.reasoning_summary_text.done").with(
                        "text",
                        js(self.current_thinking.as_str()),
                    ),
                ),
            ),
            None => {},
        }
        self.content_part_open = false;
        if let Some(k) = self.current_kind {
            out.push(
                named_frame(
                    "response.content_part.done",
                    self.part_head("response.content_part.done").with("part", encode_part(k)),
                ),
            );
        }
    }

    /// Put the open text or thinking item among the finished ones.
    fn finalize_output_item(&mut self)
        ensures
            final(self)@ == old(self)@.finalized(),
    {
        match self.current_kind {
            Some(OutputItemKind::Text) => {
                if self.current_text.as_str().unicode_len() > 0 {
                    let item = Fields::new().with("id", js(self.current_item_id.as_str())).with(
                        "type",
                        js("message"),
                    ).with("role", js("assistant")).with("status", js("completed")).with(
                        "content",
                        encode_output_content(self.current_text.as_str()),
                    ).done();
                    self.put_item(self.current_output_index, item);
                    self.current_text = String::new();
                    assert(self@.current_text =~= Seq::empty());
                }
            },
            Some(OutputItemKind::Thinking) => {
                if self.current_thinking.as_str().unicode_len() > 0 {
                    let item = Fields::new().with("id", js(self.current_item_id.as_str())).with(
                        "type",
                        js("reasoning"),
                    ).with(
                        "summary",
                        array1(
                            Fields::new().with("type", js("summary_text")).with(
                                "text",
                                js(self.current_thinking.as_str()),
                            ).done(),
                        ),
                    ).done();
                    self.put_item(self.current_output_index, item);
                    self.current_thinking = String::new();
                    assert(self@.current_thinking =~= Seq::empty());
                }
            },
            None => {},
        }
    }

    /// Close the open text or thinking item.
    fn close_output_item(&mut self, out: &mut Vec<SseFrame>)
        ensures
            (Written { e: final(self)@, out: views::of(final(out)@) }) == (Written {
                e: old(self)@,
                out: views::of(old(out)@),
            }).close_item(),
    {
        if !self.output_item_open {
            return;
        }
        self.close_part(out);
        self.finalize_output_item();
        self.output_item_open = false;
        let item = self.closing_item();
        out.push(encode_item_done(self.current_output_index, item));
        self.current_kind = None;
    }

    fn open_item(&mut self, kind: OutputItemKind, out: &mut Vec<SseFrame>)
        ensures
            (Written { e: final(self)@, out: views::of(final(out)@) }) == (Written {
                e: old(self)@,
                out: views::of(old(out)@),
            }).open_item(kind),
    {
        if let Some(k) = self.current_kind {
            if k == kind {
                return;
            }
        }
        self.close_output_item(out);
        let i: u32 = self.next_output_index;
        self.next_output_index = bump(i);
        self.current_output_index = i;
        self.content_index = 0;
        self.current_kind = Some(kind);
        self.output_item_open = true;
        match kind {
            OutputItemKind::Text => {
                self.current_text = String::new();
                assert(self@.current_text =~= Seq::empty());
                self.current_item_id = concat("msg_", decimal(i as u64).as_str());
                out.push(
                    encode_item_added(
                        i,
                        Fields::new().with("id", js(self.current_item_id.as_str())).with("type", js("message")).with(
                            "role",
                            js("assistant"),
                        ).with("status", js("in_progress")).with("content", no_items()).done(),
                    ),
                );
            },
            OutputItemKind::Thinking => {
                self.current_thinking = String::new();
                assert(self@.current_thinking =~= Seq::empty());
                self.current_item_id = concat("rs_", decimal(i as u64).as_str());
                out.push(
                    encode_item_added(
                        i,
                        Fields::new().with("id", js(self.current_item_id.as_str())).with(
                            "type",
                            js("reasoning"),
                        ).with("summary", no_items()).done(),
                    ),
                );
            },
        }
    }

    fn open_part(&mut self, kind: OutputItemKind, out: &mut Vec<SseFrame>)
        ensures
            (Written { e: final(self)@, out: views::of(final(out)@) }) == (Written {
                e: old(self)@,
                out: views::of(old(out)@),
            }).open_part(kind),
    {
        if self.content_part_open {
            return;
        }
        self.content_part_open = true;
        out.push(
            named_frame(
                "response.content_part.added",
                self.part_head("response.content_part.added").with("part", encode_part(kind)),
            ),
        );
    }

    fn delta(&mut self, kind: OutputItemKind, t: &str, out: &mut Vec<SseFrame>)
        ensures
            (Written { e: final(self)@, out: views::of(final(out)@) }) == (Written {
                e: old(self)@,
                out: views::of(old(out)@),
            }).delta(kind, t@),
    {
        self.open_item(kind, out);
        self.open_part(kind, out);
        match kind {
            OutputItemKind::Text => {
                out.push(
                    named_frame(
                        "response.output_text.delta",
                        self.part_head("response.output_text.delta").with("delta", js(t)),
                    ),
                );
                self.current_text.append(t);
            },
            OutputItemKind::Thinking => {
                out.push(
                    named_frame(
                        "response.reasoning_summary_text.delta",
                        self.part_head("response.reasoning_summary_text.delta").with("delta", js(t)),
                    ),
                );
                self.current_thinking.append(t);
            },
        }
    }

    fn end_call(&mut self, t: &ToolOutputState, arguments: &str, status: &str, out: &mut Vec<SseFrame>)
        ensures
            (Written { e: final(self)@, out: views::of(final(out)@) }) == (Written {
                e: old(self)@,
                out: views::of(old(out)@),
            }).end_call(t@, arguments@, status@),
    {
        out.push(
            named_frame(
                "response.function_call_arguments.done",
                of_type("response.function_call_arguments.done").with("item_id", js(t.item_id.as_str())).with(
                    "output_index",
                    Json::UInt(t.output_index as u64),
                ).with("content_index", Json::UInt(0)).with("arguments", js(arguments)),
            ),
        );
        let item = Fields::new().with("type", js("function_call")).with("id", js(t.item_id.as_str())).with(
            "call_id",
            js(t.call_id.as_str()),
        ).with("name", js(t.name.as_str())).with("arguments", Json::Str(filled_arguments(&t.arguments))).with(
            "status",
            js(status),
        ).done();
        self.put_item(t.output_index, item.clone());
        out.push(encode_item_done(t.output_index, item));
    }

    /// End the tool calls that are still going.
    fn flush_tools(&mut self, out: &mut Vec<SseFrame>)
        ensures
            (Written { e: final(self)@, out: views::of(final(out)@) }) == (Written {
                e: old(self)@,
                out: views::of(old(out)@),
            }).flush_all(),
    {
        let mut states: Vec<(u32, ToolOutputState)> = Vec::new();
        std::mem::swap(&mut states, &mut self.tool_states);
        assert(self@.tool_states =~= Seq::empty());
        let ghost ts = tool_views(states@);
        let ghost start = Written { e: self@, out: views::of(out@) };
        for i in 0..states.len()
            invariant
                ts == tool_views(states@),
                start.flush(ts, 0) == (Written { e: self@, out: views::of(out@) }).flush(ts, i as int),
        {
            assert(ts[i as int] == (states@[i as int].0, states@[i as int].1@));
            let arguments = filled_arguments(&states[i].1.arguments);
            self.end_call(&states[i].1, arguments.as_str(), "incomplete", out);
        }
    }

    fn complete(&mut self, status: &str, usage: Option<&Usage>, out: &mut Vec<SseFrame>)
        ensures
            (Written { e: final(self)@, out: views::of(final(out)@) }) == (Written {
                e: old(self)@,
                out: views::of(old(out)@),
            }).complete(
                status@,
                match usage {
                    Some(u) => Some(*u),
                    None => None,
                },
            ),
    {
        let output = self.take_output();
        let m = Fields::new().with("id", js(self.id.as_str())).with("object", js("response")).with(
            "created_at",
            whole(self.created_at),
        ).with("status", js(status)).with("model", js(self.model.as_str())).with("output", output);
        let m = match usage {
            Some(u) => m.with("usage", encode_usage(u)),
            None => m,
        };
        out.push(named_frame("response.completed", of_type("response.completed").with("response", m.done())));
    }

    fn tool_position(&self, index: u32) -> (r: usize)
        ensures
            r == tool_at(self@.tool_states, index, 0),
            r <= self.tool_states@.len(),
    {
        let mut i: usize = 0;
        while i < self.tool_states.len() && self.tool_states[i].0 != index
            invariant
                i <= self.tool_states@.len(),
                tool_at(self@.tool_states, index, 0) == tool_at(self@.tool_states, index, i as int),
            decreases self.tool_states@.len() - i,
        {
            i += 1;
        }
        i
    }

    fn on_tool_start(&mut self, index: u32, id: &str, name: &str) -> (r: Vec<SseFrame>)
        ensures
            (Written { e: final(self)@, out: views::of(r@) }) == on_tool_start(old(self)@, index, id@, name@),
    {
        let i: u32 = self.next_output_index;
        self.next_output_index = bump(i);
        let item_id = concat("fc_", id);
        let t = ToolOutputState {
            output_index: i,
            item_id: item_id.clone(),
            call_id: id.to_owned(),
            name: name.to_owned(),
            arguments: String::new(),
        };
        assert(t@.arguments =~= Seq::empty());
        let at: usize = self.tool_position(index);
        if at < self.tool_states.len() {
            self.tool_states.set(at, (index, t));
        } else {
            self.tool_states.push((index, t));
        }
        assert(self@.tool_states =~= with_tool(old(self)@.tool_states, index, t@));
        let mut out: Vec<SseFrame> = Vec::new();
        out.push(
            encode_item_added(
                i,
                Fields::new().with("id", Json::Str(item_id)).with("type", js("function_call")).with(
                    "call_id",
                    js(id),
                ).with("name", js(name)).with("arguments", Json::Str(String::new())).with(
                    "status",
                    js("in_progress"),
                ).done(),
            ),
        );
        out
    }

    fn on_tool_delta(&mut self, index: u32, partial: &str) -> (r: Vec<SseFrame>)
        ensures
            (Written { e: final(self)@, out: views::of(r@) }) == on_tool_delta(old(self)@, index, partial@),
    {
        let mut out: Vec<SseFrame> = Vec::new();
        let at: usize = self.tool_position(index);
        if at < self.tool_states.len() {
            let (k, t) = self.tool_states.remove(at);
            let mut t = t;
            let ghost before = t@;
            t.arguments.append(partial);
            out.push(
                named_frame(
                    "response.function_call_arguments.delta",
                    of_type("response.function_call_arguments.delta").with("item_id", js(t.item_id.as_str())).with(
                        "output_index",
                        Json::UInt(t.output_index as u64),
                    ).with("content_index", Json::UInt(0)).with("delta", js(partial)),
                ),
            );
            self.tool_states.insert(at, (k, t));
            assert(self@.tool_states =~= old(self)@.tool_states.update(
                at as int,
                (k, ToolStateV { arguments: before.arguments + partial@, ..before }),
            ));
        }
        out
    }

    fn on_block_stop(&mut self, index: u32) -> (r: Vec<SseFrame>)
        ensures
            (Written { e: final(self)@, out: views::of(r@) }) == on_block_stop(old(self)@, index),
    {
        let mut out: Vec<SseFrame> = Vec::new();
        let at: usize = self.tool_position(index);
        if at < self.tool_states.len() {
            let (_, t) = self.tool_states.remove(at);
            assert(self@.tool_states =~= old(self)@.tool_states.remove(at as int));
            self.end_call(&t, t.arguments.as_str(), "completed", &mut out);
        }
        out
    }

    fn on_start(&mut self, id: &str, model: &str) -> (r: Vec<SseFrame>)
        ensures
            (Written { e: final(self)@, out: views::of(r@) }) == on_start(old(self)@, id@, model@),
    {
        if id.unicode_len() > 0 {
            self.id = id.to_owned();
        }
        if model.unicode_len() > 0 {
            self.model = model.to_owned();
        }
        let mut out: Vec<SseFrame> = Vec::new();
        out.push(
            named_frame(
                "response.created",
                of_type("response.created").with(
                    "response",
                    Fields::new().with("id", js(self.id.as_str())).with("object", js("response")).with(
                        "created_at",
                        whole(self.created_at),
                    ).with("status", js("in_progress")).with("model", js(self.model.as_str())).with(
                        "output",
                        no_items(),
                    ).done(),
                ),
            ),
        );
        out
    }
}

impl StreamEncoder for ResponsesStreamEncoder {
    fn encode(&mut self, event: &StreamEvent) -> (r: Vec<SseFrame>)
        ensures
            (Written { e: final(self)@, out: views::of(r@) }) == encoded_event(old(self)@, event@),
    {
        match event {
            StreamEvent::Start { id, model, .. } => self.on_start(id.as_str(), model.as_str()),
            StreamEvent::TextDelta { text, .. } => {
                let mut out: Vec<SseFrame> = Vec::new();
                self.delta(OutputItemKind::Text, text.as_str(), &mut out);
                out
            },
            StreamEvent::ThinkingDelta { text, .. } => {
                let mut out: Vec<SseFrame> = Vec::new();
                self.delta(OutputItemKind::Thinking, text.as_str(), &mut out);
                out
            },
            StreamEvent::ToolUseStart { index, id, name } => self.on_tool_start(*index, id.as_str(), name.as_str()),
            StreamEvent::ToolUseDelta { index, partial_json } => self.on_tool_delta(*index, partial_json.as_str()),
            StreamEvent::BlockStop { index } => self.on_block_stop(*index),
            StreamEvent::Stop { usage, .. } => {
                let mut out: Vec<SseFrame> = Vec::new();
                self.close_output_item(&mut out);
                self.flush_tools(&mut out);
                self.complete("completed", Some(usage), &mut out);
                self.done = true;
                out
            },
            _ => Vec::new(),
        }
    }

    fn finish(&mut self) -> (r: Vec<SseFrame>)
        ensures
            (Written { e: final(self)@, out: views::of(r@) }) == encoded_finish(old(self)@),
    {
        let mut out: Vec<SseFrame> = Vec::new();
        if self.done {
            return out;
        }
        self.done = true;
        self.close_output_item(&mut out);
        let status = if self.tool_states.len() > 0 { "incomplete" } else { "completed" };
        self.flush_tools(&mut out);
        self.complete(status, None, &mut out);
        out
    }

    fn error(&mut self, err: &Error) -> (r: Vec<SseFrame>)
        ensures
            (Written { e: final(self)@, out: views::of(r@) }) == encoded_error(old(self)@, err@),
    {
        let mut out: Vec<SseFrame> = Vec::new();
        if !self.done {
            self.done = true;
            self.close_output_item(&mut out);
        }
        let output = self.take_output();
        out.push(
            named_frame(
                "response.failed",
                of_type("response.failed").with(
                    "response",
                    Fields::new().with("id", js(self.id.as_str())).with("object", js("response")).with(
                        "status",
                        js("failed"),
                    ).with("model", js(self.model.as_str())).with(
                        "error",
                        err.to_wire(Dialect::OpenAIResponses),
                    ).with("output", output).done(),
                ),
            ),
        );
        out
    }
}

} // verus!
