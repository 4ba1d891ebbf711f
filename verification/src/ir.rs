//! The canonical form of a conversation, which every dialect is read into and
//! written from.

use crate::json::{Fields, Float, Json, Tree};
use crate::text;
use crate::text::{concat3, split_once, strip_prefix};
use crate::views;
use vstd::prelude::*;

verus! {

/// The wire format that a client or a provider speaks.
#[derive(Debug, Clone, Copy, PartialEq, Eq, Structural)]
pub enum Dialect {
    Anthropic,
    OpenAI,
    OpenAIResponses,
    Gemini,
}

/// What a request may need of a model.
#[derive(Debug, Clone, Copy, PartialEq, Eq, Structural)]
pub enum Capability {
    Tools,
    Vision,
    Thinking,
}

#[derive(Debug, Clone, Copy, PartialEq, Eq, Structural)]
pub enum Role {
    User,
    Assistant,
}

#[derive(Debug, Clone, Copy, PartialEq, Eq, Structural)]
pub enum StopReason {
    EndTurn,
    MaxTokens,
    StopSequence,
    ToolUse,
    Refusal,
    Unknown,
}

/// What to do with content that the target dialect cannot carry.
#[derive(Debug, Clone, Copy, PartialEq, Eq, Structural)]
pub enum UnsupportedContentPolicy {
    /// Leave it out.
    Drop,
    /// Put a short text in its place.
    Placeholder,
    /// Refuse the request.
    Reject,
}

/// Token counters of one exchange.
#[derive(Debug, Clone, Copy, PartialEq, Eq, Structural)]
pub struct Usage {
    pub input_tokens: u32,
    pub output_tokens: u32,
    pub cache_read_tokens: u32,
    pub cache_write_tokens: u32,
    pub reasoning_tokens: u32,
}

pub open spec fn no_usage() -> Usage {
    Usage {
        input_tokens: 0,
        output_tokens: 0,
        cache_read_tokens: 0,
        cache_write_tokens: 0,
        reasoning_tokens: 0,
    }
}

impl Default for Usage {
    fn default() -> (r: Self)
        ensures
            r == no_usage(),
    {
        Usage {
            input_tokens: 0,
            output_tokens: 0,
            cache_read_tokens: 0,
            cache_write_tokens: 0,
            reasoning_tokens: 0,
        }
    }
}

impl Usage {
    pub open spec fn total_spec(self) -> u64 {
        (self.input_tokens as u64 + self.output_tokens as u64) as u64
    }

    /// Tokens in and out; cached and reasoning tokens are part of those.
    pub fn total(&self) -> (r: u64)
        ensures
            r == self.total_spec(),
            r == self.input_tokens + self.output_tokens,
    {
        self.input_tokens as u64 + self.output_tokens as u64
    }
}

/// Where a picture, a sound or a file is.
#[derive(Debug, PartialEq)]
pub enum MediaSource {
    Base64 { media_type: String, data: String },
    Url { url: String },
    Reference { id: String },
}

pub enum SourceV {
    Base64 { media_type: Seq<char>, data: Seq<char> },
    Url { url: Seq<char> },
    Reference { id: Seq<char> },
}

impl View for MediaSource {
    type V = SourceV;

    open spec fn view(&self) -> SourceV {
        match self {
            MediaSource::Base64 { media_type, data } => SourceV::Base64 { media_type: media_type@, data: data@ },
            MediaSource::Url { url } => SourceV::Url { url: url@ },
            MediaSource::Reference { id } => SourceV::Reference { id: id@ },
        }
    }
}

/// A `data:` URL holds its bytes; any other URL points elsewhere.
pub open spec fn source_of_url(url: Seq<char>) -> SourceV {
    let rest = url.skip("data:"@.len() as int);
    let cut = text::first_at(rest, ";base64,"@, 0);
    if "data:"@.is_prefix_of(url) && cut >= 0 {
        SourceV::Base64 {
            media_type: rest.take(cut),
            data: rest.skip(cut + ";base64,"@.len()),
        }
    } else {
        SourceV::Url { url }
    }
}

pub open spec fn url_of_source(s: SourceV) -> Seq<char> {
    match s {
        SourceV::Base64 { media_type, data } => "data:"@ + media_type + ";base64,"@ + data,
        SourceV::Url { url } => url,
        SourceV::Reference { id } => id,
    }
}

impl MediaSource {
    pub fn from_url(url: &str) -> (r: MediaSource)
        ensures
            r@ == source_of_url(url@),
    {
        proof {
            reveal_strlit(";base64,");
        }
        if let Some(rest) = strip_prefix(url, "data:") {
            if let Some((media_type, data)) = split_once(rest, ";base64,") {
                return MediaSource::Base64 { media_type: media_type.to_owned(), data: data.to_owned() };
            }
        }
        MediaSource::Url { url: url.to_owned() }
    }

    pub fn to_data_url(&self) -> (r: String)
        ensures
            r@ == url_of_source(self@),
    {
        match self {
            MediaSource::Base64 { media_type, data } => {
                let mut out = concat3("data:", media_type.as_str(), ";base64,");
                out.append(data.as_str());
                out
            },
            MediaSource::Url { url } => url.clone(),
            MediaSource::Reference { id } => id.clone(),
        }
    }
}

impl Clone for MediaSource {
    fn clone(&self) -> (r: Self)
        ensures
            r@ == self@,
    {
        match self {
            MediaSource::Base64 { media_type, data } => MediaSource::Base64 {
                media_type: media_type.clone(),
                data: data.clone(),
            },
            MediaSource::Url { url } => MediaSource::Url { url: url.clone() },
            MediaSource::Reference { id } => MediaSource::Reference { id: id.clone() },
        }
    }
}

/// One part of a tool's answer.
#[derive(Debug, PartialEq)]
pub enum ToolResultPart {
    Text { text: String },
    Image { source: MediaSource },
}

pub enum PartV {
    Text { text: Seq<char> },
    Image { source: SourceV },
}

impl View for ToolResultPart {
    type V = PartV;

    open spec fn view(&self) -> PartV {
        match self {
            ToolResultPart::Text { text } => PartV::Text { text: text@ },
            ToolResultPart::Image { source } => PartV::Image { source: source@ },
        }
    }
}

impl Clone for ToolResultPart {
    fn clone(&self) -> (r: Self)
        ensures
            r@ == self@,
    {
        match self {
            ToolResultPart::Text { text } => ToolResultPart::Text { text: text.clone() },
            ToolResultPart::Image { source } => ToolResultPart::Image { source: source.clone() },
        }
    }
}

/// One block of a message.
#[derive(Debug, PartialEq)]
#[allow(inconsistent_fields)]
pub enum ContentBlock {
    Text { text: String, cache_control: Option<Json> },
    Image { source: MediaSource },
    Document { source: MediaSource },
    Audio { source: MediaSource, media_type: String },
    Video { source: MediaSource, media_type: String },
    File { source: MediaSource, media_type: String, name: Option<String> },
    Citation { text: String },
    Annotation { text: String },
    ToolUse { id: String, name: String, input: Json },
    ToolResult { tool_use_id: String, name: String, content: Vec<ToolResultPart>, is_error: bool },
    Thinking { text: String, signature: Option<String> },
    RedactedThinking { data: String },
}

#[allow(inconsistent_fields)]
pub enum BlockV {
    Text { text: Seq<char>, cache_control: Option<Tree> },
    Image { source: SourceV },
    Document { source: SourceV },
    Audio { source: SourceV, media_type: Seq<char> },
    Video { source: SourceV, media_type: Seq<char> },
    File { source: SourceV, media_type: Seq<char>, name: Option<Seq<char>> },
    Citation { text: Seq<char> },
    Annotation { text: Seq<char> },
    ToolUse { id: Seq<char>, name: Seq<char>, input: Tree },
    ToolResult { tool_use_id: Seq<char>, name: Seq<char>, content: Seq<PartV>, is_error: bool },
    Thinking { text: Seq<char>, signature: Option<Seq<char>> },
    RedactedThinking { data: Seq<char> },
}

impl View for ContentBlock {
    type V = BlockV;

    open spec fn view(&self) -> BlockV {
        match self {
            ContentBlock::Text { text, cache_control } => BlockV::Text {
                text: text@,
                cache_control: views::opt(*cache_control),
            },
            ContentBlock::Image { source } => BlockV::Image { source: source@ },
            ContentBlock::Document { source } => BlockV::Document { source: source@ },
            ContentBlock::Audio { source, media_type } => BlockV::Audio {
                source: source@,
                media_type: media_type@,
            },
            ContentBlock::Video { source, media_type } => BlockV::Video {
                source: source@,
                media_type: media_type@,
            },
            ContentBlock::File { source, media_type, name } => BlockV::File {
                source: source@,
                media_type: media_type@,
                name: views::opt(*name),
            },
            ContentBlock::Citation { text } => BlockV::Citation { text: text@ },
            ContentBlock::Annotation { text } => BlockV::Annotation { text: text@ },
            ContentBlock::ToolUse { id, name, input } => BlockV::ToolUse { id: id@, name: name@, input: input@ },
            ContentBlock::ToolResult { tool_use_id, name, content, is_error } => BlockV::ToolResult {
                tool_use_id: tool_use_id@,
                name: name@,
                content: views::of(content@),
                is_error: *is_error,
            },
            ContentBlock::Thinking { text, signature } => BlockV::Thinking {
                text: text@,
                signature: views::opt(*signature),
            },
            ContentBlock::RedactedThinking { data } => BlockV::RedactedThinking { data: data@ },
        }
    }
}

/// A block of text without a cache marker.
pub open spec fn text_block(text: Seq<char>) -> BlockV {
    BlockV::Text { text, cache_control: None }
}

impl BlockV {
    pub open spec fn as_text(self) -> Option<Seq<char>> {
        match self {
            BlockV::Text { text, .. } => Some(text),
            _ => None,
        }
    }
}

/// Copy an optional document.
pub fn copy_opt_json(o: &Option<Json>) -> (r: Option<Json>)
    ensures
        views::opt(r) == views::opt(*o),
{
    match o {
        Some(j) => Some(j.clone()),
        None => None,
    }
}

/// Copy an optional text.
pub fn copy_opt_string(o: &Option<String>) -> (r: Option<String>)
    ensures
        views::opt(r) == views::opt(*o),
{
    match o {
        Some(s) => Some(s.clone()),
        None => None,
    }
}

/// Copy a list of texts.
pub fn copy_strings(v: &Vec<String>) -> (r: Vec<String>)
    ensures
        views::of(r@) == views::of(v@),
{
    let mut out: Vec<String> = Vec::new();
    for i in 0..v.len()
        invariant
            out@.len() == i,
            forall|j: int| 0 <= j < i ==> (#[trigger] out@[j])@ == v@[j]@,
    {
        out.push(v[i].clone());
    }
    assert(views::of(out@) =~= views::of(v@));
    out
}

fn copy_parts(v: &Vec<ToolResultPart>) -> (r: Vec<ToolResultPart>)
    ensures
        views::of(r@) == views::of(v@),
{
    let mut out: Vec<ToolResultPart> = Vec::new();
    for i in 0..v.len()
        invariant
            out@.len() == i,
            forall|j: int| 0 <= j < i ==> (#[trigger] out@[j])@ == v@[j]@,
    {
        out.push(v[i].clone());
    }
    assert(views::of(out@) =~= views::of(v@));
    out
}

impl ContentBlock {
    pub fn text(text: &str) -> (r: ContentBlock)
        ensures
            r@ == text_block(text@),
    {
        ContentBlock::Text { text: text.to_owned(), cache_control: None }
    }

    pub fn as_text(&self) -> (r: Option<&str>)
        ensures
            views::opt_str(r) == self@.as_text(),
    {
        match self {
            ContentBlock::Text { text, .. } => Some(text.as_str()),
            _ => None,
        }
    }
}

impl Clone for ContentBlock {
    fn clone(&self) -> (r: Self)
        ensures
            r@ == self@,
    {
        match self {
            ContentBlock::Text { text, cache_control } => ContentBlock::Text {
                text: text.clone(),
                cache_control: copy_opt_json(cache_control),
            },
            ContentBlock::Image { source } => ContentBlock::Image { source: source.clone() },
            ContentBlock::Document { source } => ContentBlock::Document { source: source.clone() },
            ContentBlock::Audio { source, media_type } => ContentBlock::Audio {
                source: source.clone(),
                media_type: media_type.clone(),
            },
            ContentBlock::Video { source, media_type } => ContentBlock::Video {
                source: source.clone(),
                media_type: media_type.clone(),
            },
            ContentBlock::File { source, media_type, name } => ContentBlock::File {
                source: source.clone(),
                media_type: media_type.clone(),
                name: copy_opt_string(name),
            },
            ContentBlock::Citation { text } => ContentBlock::Citation { text: text.clone() },
            ContentBlock::Annotation { text } => ContentBlock::Annotation { text: text.clone() },
            ContentBlock::ToolUse { id, name, input } => ContentBlock::ToolUse {
                id: id.clone(),
                name: name.clone(),
                input: input.clone(),
            },
            ContentBlock::ToolResult { tool_use_id, name, content, is_error } => ContentBlock::ToolResult {
                tool_use_id: tool_use_id.clone(),
                name: name.clone(),
                content: copy_parts(content),
                is_error: *is_error,
            },
            ContentBlock::Thinking { text, signature } => ContentBlock::Thinking {
                text: text.clone(),
                signature: copy_opt_string(signature),
            },
            ContentBlock::RedactedThinking { data } => ContentBlock::RedactedThinking { data: data.clone() },
        }
    }
}

/// One turn.
#[derive(Debug, PartialEq)]
pub struct Message {
    pub role: Role,
    pub content: Vec<ContentBlock>,
}

pub struct MessageV {
    pub role: Role,
    pub content: Seq<BlockV>,
}

impl View for Message {
    type V = MessageV;

    open spec fn view(&self) -> MessageV {
        MessageV { role: self.role, content: views::of(self.content@) }
    }
}

/// Copy a list of blocks.
pub fn copy_blocks(v: &Vec<ContentBlock>) -> (r: Vec<ContentBlock>)
    ensures
        views::of(r@) == views::of(v@),
{
    let mut out: Vec<ContentBlock> = Vec::new();
    for i in 0..v.len()
        invariant
            out@.len() == i,
            forall|j: int| 0 <= j < i ==> (#[trigger] out@[j])@ == v@[j]@,
    {
        let b = v[i].clone();
        out.push(b);
    }
    assert(views::of(out@) =~= views::of(v@));
    out
}

/// A message of the user's that says `text`.
pub open spec fn user_message(text: Seq<char>) -> MessageV {
    MessageV { role: Role::User, content: Seq::empty().push(text_block(text)) }
}

impl Message {
    /// A message of the user's that says `text`.
    pub fn user_text(text: &str) -> (r: Message)
        ensures
            r@ == user_message(text@),
    {
        broadcast use crate::views::group_views;

        let mut content: Vec<ContentBlock> = Vec::new();
        content.push(ContentBlock::text(text));
        Message { role: Role::User, content }
    }
}

impl Clone for Message {
    fn clone(&self) -> (r: Self)
        ensures
            r@ == self@,
    {
        Message { role: self.role, content: copy_blocks(&self.content) }
    }
}

/// One part of the system prompt.
#[derive(Debug, PartialEq)]
pub struct SystemPart {
    pub text: String,
    pub cache_control: Option<Json>,
}

pub struct SystemV {
    pub text: Seq<char>,
    pub cache_control: Option<Tree>,
}

impl View for SystemPart {
    type V = SystemV;

    open spec fn view(&self) -> SystemV {
        SystemV { text: self.text@, cache_control: views::opt(self.cache_control) }
    }
}

pub open spec fn system_part(text: Seq<char>) -> SystemV {
    SystemV { text, cache_control: None }
}

impl SystemPart {
    pub fn new(text: &str) -> (r: SystemPart)
        ensures
            r@ == system_part(text@),
    {
        SystemPart { text: text.to_owned(), cache_control: None }
    }
}

impl Clone for SystemPart {
    fn clone(&self) -> (r: Self)
        ensures
            r@ == self@,
    {
        SystemPart { text: self.text.clone(), cache_control: copy_opt_json(&self.cache_control) }
    }
}

/// A tool that the model may call.
#[derive(Debug, PartialEq)]
pub struct ToolDef {
    pub name: String,
    pub description: Option<String>,
    pub input_schema: Json,
    pub cache_control: Option<Json>,
}

pub struct ToolV {
    pub name: Seq<char>,
    pub description: Option<Seq<char>>,
    pub input_schema: Tree,
    pub cache_control: Option<Tree>,
}

impl View for ToolDef {
    type V = ToolV;

    open spec fn view(&self) -> ToolV {
        ToolV {
            name: self.name@,
            description: views::opt(self.description),
            input_schema: self.input_schema@,
            cache_control: views::opt(self.cache_control),
        }
    }
}

impl Clone for ToolDef {
    fn clone(&self) -> (r: Self)
        ensures
            r@ == self@,
    {
        ToolDef {
            name: self.name.clone(),
            description: copy_opt_string(&self.description),
            input_schema: self.input_schema.clone(),
            cache_control: copy_opt_json(&self.cache_control),
        }
    }
}

#[derive(Debug, PartialEq)]
pub enum ToolChoice {
    Auto,
    Any,
    NoTool,
    Specific { name: String },
}

pub enum ChoiceV {
    Auto,
    Any,
    NoTool,
    Specific { name: Seq<char> },
}

impl View for ToolChoice {
    type V = ChoiceV;

    open spec fn view(&self) -> ChoiceV {
        match self {
            ToolChoice::Auto => ChoiceV::Auto,
            ToolChoice::Any => ChoiceV::Any,
            ToolChoice::NoTool => ChoiceV::NoTool,
            ToolChoice::Specific { name } => ChoiceV::Specific { name: name@ },
        }
    }
}

#[derive(Debug, Clone, Copy, PartialEq, Eq)]
pub struct ThinkingConfig {
    pub enabled: bool,
    pub budget_tokens: Option<u32>,
}

/// A request, whatever dialect it came in.
#[derive(Debug, PartialEq)]
pub struct ChatRequest {
    pub model: String,
    pub source_dialect: Dialect,
    pub system: Vec<SystemPart>,
    pub messages: Vec<Message>,
    pub max_tokens: Option<u32>,
    pub temperature: Option<Float>,
    pub top_p: Option<Float>,
    pub top_k: Option<u32>,
    pub stop_sequences: Vec<String>,
    pub stream: bool,
    pub tools: Vec<ToolDef>,
    pub tool_choice: Option<ToolChoice>,
    pub thinking: Option<ThinkingConfig>,
    pub metadata_user: Option<String>,
    /// Fields that the canonical form does not know, for a target that speaks
    /// the dialect they came in.
    pub passthrough: Fields,
    pub unsupported_content_policy: UnsupportedContentPolicy,
}

pub struct RequestV {
    pub model: Seq<char>,
    pub source_dialect: Dialect,
    pub system: Seq<SystemV>,
    pub messages: Seq<MessageV>,
    pub max_tokens: Option<u32>,
    pub temperature: Option<Float>,
    pub top_p: Option<Float>,
    pub top_k: Option<u32>,
    pub stop_sequences: Seq<Seq<char>>,
    pub stream: bool,
    pub tools: Seq<ToolV>,
    pub tool_choice: Option<ChoiceV>,
    pub thinking: Option<ThinkingConfig>,
    pub metadata_user: Option<Seq<char>>,
    pub passthrough: Seq<(Seq<char>, Tree)>,
    pub unsupported_content_policy: UnsupportedContentPolicy,
}

impl View for ChatRequest {
    type V = RequestV;

    open spec fn view(&self) -> RequestV {
        RequestV {
            model: self.model@,
            source_dialect: self.source_dialect,
            system: views::of(self.system@),
            messages: views::of(self.messages@),
            max_tokens: self.max_tokens,
            temperature: self.temperature,
            top_p: self.top_p,
            top_k: self.top_k,
            stop_sequences: views::of(self.stop_sequences@),
            stream: self.stream,
            tools: views::of(self.tools@),
            tool_choice: views::opt(self.tool_choice),
            thinking: self.thinking,
            metadata_user: views::opt(self.metadata_user),
            passthrough: self.passthrough@,
            unsupported_content_policy: self.unsupported_content_policy,
        }
    }
}

/// A request with nothing in it but the model.
pub open spec fn empty_request(model: Seq<char>, dialect: Dialect) -> RequestV {
    RequestV {
        model,
        source_dialect: dialect,
        system: Seq::empty(),
        messages: Seq::empty(),
        max_tokens: None,
        temperature: None,
        top_p: None,
        top_k: None,
        stop_sequences: Seq::empty(),
        stream: false,
        tools: Seq::empty(),
        tool_choice: None,
        thinking: None,
        metadata_user: None,
        passthrough: Seq::empty(),
        unsupported_content_policy: UnsupportedContentPolicy::Drop,
    }
}

impl ChatRequest {
    pub fn new(model: &str, dialect: Dialect) -> (r: ChatRequest)
        ensures
            r@ == empty_request(model@, dialect),
    {
        let r = ChatRequest {
            model: model.to_owned(),
            source_dialect: dialect,
            system: Vec::new(),
            messages: Vec::new(),
            max_tokens: None,
            temperature: None,
            top_p: None,
            top_k: None,
            stop_sequences: Vec::new(),
            stream: false,
            tools: Vec::new(),
            tool_choice: None,
            thinking: None,
            metadata_user: None,
            passthrough: Fields::new(),
            unsupported_content_policy: UnsupportedContentPolicy::Drop,
        };
        proof {
            broadcast use crate::views::group_views;
        }
        r
    }
}

fn copy_system(v: &Vec<SystemPart>) -> (r: Vec<SystemPart>)
    ensures
        views::of(r@) == views::of(v@),
{
    let mut out: Vec<SystemPart> = Vec::new();
    for i in 0..v.len()
        invariant
            out@.len() == i,
            forall|j: int| 0 <= j < i ==> (#[trigger] out@[j])@ == v@[j]@,
    {
        out.push(v[i].clone());
    }
    assert(views::of(out@) =~= views::of(v@));
    out
}

fn copy_messages(v: &Vec<Message>) -> (r: Vec<Message>)
    ensures
        views::of(r@) == views::of(v@),
{
    let mut out: Vec<Message> = Vec::new();
    for i in 0..v.len()
        invariant
            out@.len() == i,
            forall|j: int| 0 <= j < i ==> (#[trigger] out@[j])@ == v@[j]@,
    {
        out.push(v[i].clone());
    }
    assert(views::of(out@) =~= views::of(v@));
    out
}

fn copy_tools(v: &Vec<ToolDef>) -> (r: Vec<ToolDef>)
    ensures
        views::of(r@) == views::of(v@),
{
    let mut out: Vec<ToolDef> = Vec::new();
    for i in 0..v.len()
        invariant
            out@.len() == i,
            forall|j: int| 0 <= j < i ==> (#[trigger] out@[j])@ == v@[j]@,
    {
        out.push(v[i].clone());
    }
    assert(views::of(out@) =~= views::of(v@));
    out
}

fn copy_float(o: &Option<Float>) -> (r: Option<Float>)
    ensures
        r == *o,
{
    match o {
        Some(f) => Some(f.clone()),
        None => None,
    }
}

fn copy_choice(o: &Option<ToolChoice>) -> (r: Option<ToolChoice>)
    ensures
        views::opt(r) == views::opt(*o),
{
    match o {
        Some(c) => Some(
            match c {
                ToolChoice::Auto => ToolChoice::Auto,
                ToolChoice::Any => ToolChoice::Any,
                ToolChoice::NoTool => ToolChoice::NoTool,
                ToolChoice::Specific { name } => ToolChoice::Specific { name: name.clone() },
            },
        ),
        None => None,
    }
}

impl Clone for ChatRequest {
    fn clone(&self) -> (r: Self)
        ensures
            r@ == self@,
    {
        ChatRequest {
            model: self.model.clone(),
            source_dialect: self.source_dialect,
            system: copy_system(&self.system),
            messages: copy_messages(&self.messages),
            max_tokens: self.max_tokens,
            temperature: copy_float(&self.temperature),
            top_p: copy_float(&self.top_p),
            top_k: self.top_k,
            stop_sequences: copy_strings(&self.stop_sequences),
            stream: self.stream,
            tools: copy_tools(&self.tools),
            tool_choice: copy_choice(&self.tool_choice),
            thinking: self.thinking,
            metadata_user: copy_opt_string(&self.metadata_user),
            passthrough: self.passthrough.clone(),
            unsupported_content_policy: self.unsupported_content_policy,
        }
    }
}

/// A whole answer.
#[derive(Debug, PartialEq)]
pub struct ChatResponse {
    pub id: String,
    pub model: String,
    pub content: Vec<ContentBlock>,
    pub stop_reason: StopReason,
    pub stop_sequence: Option<String>,
    pub usage: Usage,
    /// Fields that only the answer's own dialect knows.
    pub passthrough: Fields,
}

pub struct ResponseV {
    pub id: Seq<char>,
    pub model: Seq<char>,
    pub content: Seq<BlockV>,
    pub stop_reason: StopReason,
    pub stop_sequence: Option<Seq<char>>,
    pub usage: Usage,
    pub passthrough: Seq<(Seq<char>, Tree)>,
}

impl View for ChatResponse {
    type V = ResponseV;

    open spec fn view(&self) -> ResponseV {
        ResponseV {
            id: self.id@,
            model: self.model@,
            content: views::of(self.content@),
            stop_reason: self.stop_reason,
            stop_sequence: views::opt(self.stop_sequence),
            usage: self.usage,
            passthrough: self.passthrough@,
        }
    }
}

/// The text of an answer, from the `i`th block on.
pub open spec fn texts_of(bs: Seq<BlockV>, i: int, acc: Seq<char>) -> Seq<char>
    decreases bs.len() - i,
{
    if i < 0 || i >= bs.len() {
        acc
    } else {
        match bs[i].as_text() {
            Some(t) => texts_of(bs, i + 1, acc + t),
            None => texts_of(bs, i + 1, acc),
        }
    }
}

impl ChatResponse {
    /// The text blocks, one after the other.
    pub fn text(&self) -> (r: String)
        ensures
            r@ == texts_of(self@.content, 0, Seq::empty()),
    {
        let ghost blocks = self@.content;
        let mut out = String::new();
        assert(out@ =~= Seq::empty());
        for i in 0..self.content.len()
            invariant
                blocks == views::of(self.content@),
                texts_of(blocks, 0, Seq::empty()) == texts_of(blocks, i as int, out@),
        {
            assert(blocks[i as int] == self.content@[i as int]@);
            if let Some(t) = self.content[i].as_text() {
                out.append(t);
            }
        }
        out
    }
}

/// One step of a streamed answer.
#[derive(Debug, Clone, PartialEq)]
pub enum StreamEvent {
    Start { id: String, model: String, usage: Usage },
    TextDelta { index: u32, text: String },
    ThinkingDelta { index: u32, text: String },
    ThinkingSignature { index: u32, signature: String },
    RedactedThinking { index: u32, data: String },
    ToolUseStart { index: u32, id: String, name: String },
    ToolUseDelta { index: u32, partial_json: String },
    BlockStop { index: u32 },
    Stop { stop_reason: StopReason, stop_sequence: Option<String>, usage: Usage },
    Ping,
}

pub enum EventV {
    Start { id: Seq<char>, model: Seq<char>, usage: Usage },
    TextDelta { index: u32, text: Seq<char> },
    ThinkingDelta { index: u32, text: Seq<char> },
    ThinkingSignature { index: u32, signature: Seq<char> },
    RedactedThinking { index: u32, data: Seq<char> },
    ToolUseStart { index: u32, id: Seq<char>, name: Seq<char> },
    ToolUseDelta { index: u32, partial_json: Seq<char> },
    BlockStop { index: u32 },
    Stop { stop_reason: StopReason, stop_sequence: Option<Seq<char>>, usage: Usage },
    Ping,
}

impl View for StreamEvent {
    type V = EventV;

    open spec fn view(&self) -> EventV {
        match self {
            StreamEvent::Start { id, model, usage } => EventV::Start { id: id@, model: model@, usage: *usage },
            StreamEvent::TextDelta { index, text } => EventV::TextDelta { index: *index, text: text@ },
            StreamEvent::ThinkingDelta { index, text } => EventV::ThinkingDelta { index: *index, text: text@ },
            StreamEvent::ThinkingSignature { index, signature } => EventV::ThinkingSignature {
                index: *index,
                signature: signature@,
            },
            StreamEvent::RedactedThinking { index, data } => EventV::RedactedThinking { index: *index, data: data@ },
            StreamEvent::ToolUseStart { index, id, name } => EventV::ToolUseStart {
                index: *index,
                id: id@,
                name: name@,
            },
            StreamEvent::ToolUseDelta { index, partial_json } => EventV::ToolUseDelta {
                index: *index,
                partial_json: partial_json@,
            },
            StreamEvent::BlockStop { index } => EventV::BlockStop { index: *index },
            StreamEvent::Stop { stop_reason, stop_sequence, usage } => EventV::Stop {
                stop_reason: *stop_reason,
                stop_sequence: views::opt(*stop_sequence),
                usage: *usage,
            },
            StreamEvent::Ping => EventV::Ping,
        }
    }
}

} // verus!
