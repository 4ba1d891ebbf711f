//! Wire protocol translation.
//!
//! The decoders turn incoming payloads into the [`crate::ir`] types, the
//! encoders turn those into upstream payloads, and each dialect knows how to
//! write answers and streamed events back to a client.

pub mod anthropic;
pub mod gemini;
pub mod openai;
pub mod reasoning_bridge;
pub mod responses;
pub mod round_trips;
pub mod sse;
pub mod stream_laws;

use crate::draw;
use crate::error;
use crate::error::{Error, ErrorV};
use crate::ir;
use crate::ir::{
    BlockV, ChatRequest, ChatResponse, ContentBlock, Dialect, RequestV, ResponseV, StreamEvent,
    UnsupportedContentPolicy,
};
use crate::json::{Json, Tree};
use crate::protocol::anthropic::{AnthropicStreamEncoder, AnthropicStreamParser};
use crate::protocol::gemini::{GeminiStreamEncoder, GeminiStreamParser};
use crate::protocol::openai::{OpenAiStreamEncoder, OpenAiStreamParser};
use crate::protocol::responses::{ResponsesStreamEncoder, ResponsesStreamParser};
use crate::protocol::sse::{FrameV, SseFrame};
use crate::text::{concat, concat3, same, strip_prefix};
use crate::views;
use vstd::prelude::*;

verus! {

/// Per provider deviations from the reference dialect.
///
/// These exist because "OpenAI compatible" is a spectrum: reasoning models
/// reject `max_tokens` and `temperature`, some gateways choke on
/// `stream_options`, and only a few accept `reasoning_effort`.
#[derive(Debug, Clone, Copy, PartialEq, Eq, Structural)]
pub struct ProviderQuirks {
    /// Send `max_completion_tokens` instead of `max_tokens`.
    pub use_max_completion_tokens: bool,
    pub drop_temperature: bool,
    pub drop_top_p: bool,
    pub drop_stop: bool,
    /// Ask for a usage trailer on streaming responses.
    pub stream_usage: bool,
    /// Use `role: "developer"` for the system prompt.
    pub system_as_developer: bool,
    /// Translate thinking budgets into `reasoning_effort`.
    pub send_reasoning_effort: bool,
}

pub open spec fn default_quirks() -> ProviderQuirks {
    ProviderQuirks {
        use_max_completion_tokens: false,
        drop_temperature: false,
        drop_top_p: false,
        drop_stop: false,
        stream_usage: true,
        system_as_developer: false,
        send_reasoning_effort: false,
    }
}

impl Default for ProviderQuirks {
    fn default() -> (r: Self)
        ensures
            r == default_quirks(),
    {
        ProviderQuirks {
            use_max_completion_tokens: false,
            drop_temperature: false,
            drop_top_p: false,
            drop_stop: false,
            stream_usage: true,
            system_as_developer: false,
            send_reasoning_effort: false,
        }
    }
}

/// What a block is, in a word.
pub open spec fn block_kind(b: BlockV) -> Seq<char> {
    match b {
        BlockV::Text { .. } => "text"@,
        BlockV::Image { .. } => "image"@,
        BlockV::Document { .. } => "document"@,
        BlockV::Audio { .. } => "audio"@,
        BlockV::Video { .. } => "video"@,
        BlockV::File { .. } => "file"@,
        BlockV::Citation { .. } => "citation"@,
        BlockV::Annotation { .. } => "annotation"@,
        BlockV::ToolUse { .. } => "tool_use"@,
        BlockV::ToolResult { .. } => "tool_result"@,
        BlockV::Thinking { .. } => "thinking"@,
        BlockV::RedactedThinking { .. } => "redacted_thinking"@,
    }
}

fn kind_of_block(b: &ContentBlock) -> (r: &'static str)
    ensures
        r@ == block_kind(b@),
{
    match b {
        ContentBlock::Text { .. } => "text",
        ContentBlock::Image { .. } => "image",
        ContentBlock::Document { .. } => "document",
        ContentBlock::Audio { .. } => "audio",
        ContentBlock::Video { .. } => "video",
        ContentBlock::File { .. } => "file",
        ContentBlock::Citation { .. } => "citation",
        ContentBlock::Annotation { .. } => "annotation",
        ContentBlock::ToolUse { .. } => "tool_use",
        ContentBlock::ToolResult { .. } => "tool_result",
        ContentBlock::Thinking { .. } => "thinking",
        ContentBlock::RedactedThinking { .. } => "redacted_thinking",
    }
}

/// What stands in for a block that the target dialect cannot carry.
pub open spec fn stand_in(policy: UnsupportedContentPolicy, b: BlockV) -> Result<Option<BlockV>, ErrorV> {
    match policy {
        UnsupportedContentPolicy::Drop => Ok(None),
        UnsupportedContentPolicy::Placeholder => Ok(Some(ir::text_block("["@ + block_kind(b) + "]"@))),
        UnsupportedContentPolicy::Reject => Err(
            ErrorV::InvalidRequest("the target model cannot take this content: "@ + block_kind(b)),
        ),
    }
}

/// The text that stands in for a block, where there is any.
pub open spec fn stand_in_text(policy: UnsupportedContentPolicy, b: BlockV) -> Result<Option<Seq<char>>, ErrorV> {
    match stand_in(policy, b) {
        Ok(Some(t)) => Ok(t.as_text()),
        Ok(None) => Ok(None),
        Err(e) => Err(e),
    }
}

/// Apply the policy for content that the target dialect cannot carry.
pub fn apply_content_policy(policy: UnsupportedContentPolicy, b: &ContentBlock) -> (r: Result<
    Option<ContentBlock>,
    Error,
>)
    ensures
        match r {
            Ok(o) => stand_in(policy, b@) == Ok::<Option<BlockV>, ErrorV>(views::opt(o)),
            Err(e) => stand_in(policy, b@) == Err::<Option<BlockV>, ErrorV>(e@),
        },
{
    match policy {
        UnsupportedContentPolicy::Drop => Ok(None),
        UnsupportedContentPolicy::Placeholder => {
            let t = concat3("[", kind_of_block(b), "]");
            Ok(Some(ContentBlock::text(t.as_str())))
        },
        UnsupportedContentPolicy::Reject => Err(
            Error::InvalidRequest(concat("the target model cannot take this content: ", kind_of_block(b))),
        ),
    }
}

/// The text that stands in for a block, where there is any.
pub(crate) fn policy_text(policy: UnsupportedContentPolicy, b: &ContentBlock) -> (r: Result<Option<String>, Error>)
    ensures
        match r {
            Ok(o) => stand_in_text(policy, b@) == Ok::<Option<Seq<char>>, ErrorV>(views::opt(o)),
            Err(e) => stand_in_text(policy, b@) == Err::<Option<Seq<char>>, ErrorV>(e@),
        },
{
    match apply_content_policy(policy, b) {
        Ok(Some(x)) => match x.as_text() {
            Some(t) => Ok(Some(t.to_owned())),
            None => Ok(None),
        },
        Ok(None) => Ok(None),
        Err(e) => Err(e),
    }
}

/// The short name of an audio type: `audio/mpeg` is `mp3`.
pub open spec fn audio_format(media_type: Seq<char>) -> Seq<char> {
    let sub = if "audio/"@.is_prefix_of(media_type) {
        media_type.skip("audio/"@.len() as int)
    } else {
        media_type
    };
    if sub == "mpeg"@ {
        "mp3"@
    } else if sub == "x-wav"@ {
        "wav"@
    } else {
        sub
    }
}

/// The short name of an audio type.
pub(crate) fn normalize_audio_format(media_type: &str) -> (r: String)
    ensures
        r@ == audio_format(media_type@),
{
    let sub = match strip_prefix(media_type, "audio/") {
        Some(s) => s,
        None => media_type,
    };
    if same(sub, "mpeg") {
        "mp3".to_owned()
    } else if same(sub, "x-wav") {
        "wav".to_owned()
    } else {
        sub.to_owned()
    }
}

/// Translate an upstream SSE frame into canonical events.
///
/// Implementations are stateful because OpenAI chunks carry no block structure.
pub trait StreamParser {
    fn push(&mut self, frame: &SseFrame) -> Result<Vec<StreamEvent>, Error>;

    /// Called when the upstream body ends, to close dangling blocks.
    fn finish(&mut self) -> Vec<StreamEvent>;
}

/// Turn canonical events into SSE frames for a client.
pub trait StreamEncoder {
    fn encode(&mut self, event: &StreamEvent) -> Vec<SseFrame>;

    /// Trailing frames, e.g. OpenAI's `[DONE]`.
    fn finish(&mut self) -> Vec<SseFrame>;

    /// Frames used to report a mid stream error.
    fn error(&mut self, err: &Error) -> Vec<SseFrame>;
}

/// The number after `n`, back at zero after the last.
pub open spec fn bumped(n: u32) -> u32 {
    if n == u32::MAX {
        0
    } else {
        (n + 1) as u32
    }
}

pub(crate) fn bump(n: u32) -> (r: u32)
    ensures
        r == bumped(n),
{
    if n == u32::MAX {
        0
    } else {
        n + 1
    }
}

// ---------------------------------------------------------------- dialects

/// The request that a body of a dialect holds.
pub open spec fn request_of(dialect: Dialect, body: Tree) -> Result<RequestV, ErrorV> {
    match dialect {
        Dialect::Anthropic => anthropic::request_of(body),
        Dialect::OpenAI => openai::request_of(body),
        Dialect::OpenAIResponses => responses::request_of(body),
        Dialect::Gemini => gemini::request_of(body),
    }
}

/// Decode an inbound request body of the given dialect.
pub fn decode_request(dialect: Dialect, body: Json) -> (r: Result<ChatRequest, Error>)
    ensures
        error::outcome(r) == request_of(dialect, body@),
{
    match dialect {
        Dialect::Anthropic => anthropic::decode_request(body),
        Dialect::OpenAI => openai::decode_request(body),
        Dialect::OpenAIResponses => responses::decode_request(body),
        Dialect::Gemini => gemini::decode_request(body),
    }
}

/// The body of a dialect for a request.
pub open spec fn request_body(dialect: Dialect, req: RequestV, model: Seq<char>, quirks: ProviderQuirks) -> Result<
    Tree,
    ErrorV,
> {
    match dialect {
        Dialect::Anthropic => anthropic::request_body(req, model),
        Dialect::OpenAI => openai::request_body(req, model, quirks),
        Dialect::OpenAIResponses => responses::request_body(req, model),
        Dialect::Gemini => Ok(gemini::request_body(req, model)),
    }
}

/// Encode a request into an upstream request body for the given dialect.
///
/// `quirks` only affect the OpenAI dialect; the other APIs have no comparable
/// variation between implementations.
pub fn encode_request(dialect: Dialect, req: &ChatRequest, upstream_model: &str, quirks: &ProviderQuirks) -> (r: Result<
    Json,
    Error,
>)
    ensures
        error::outcome(r) == request_body(dialect, req@, upstream_model@, *quirks),
{
    match dialect {
        Dialect::Anthropic => anthropic::encode_request(req, upstream_model),
        Dialect::OpenAI => openai::encode_request_with(req, upstream_model, quirks),
        Dialect::OpenAIResponses => responses::encode_request(req, upstream_model),
        Dialect::Gemini => gemini::encode_request(req, upstream_model),
    }
}

/// The answer that a body of a dialect holds; `ids` name tool calls that have no name.
pub open spec fn response_of(dialect: Dialect, body: Tree, ids: Seq<Seq<char>>) -> Result<ResponseV, ErrorV> {
    match dialect {
        Dialect::Anthropic => anthropic::response_of(body),
        Dialect::OpenAI => openai::response_of(body, ids),
        Dialect::OpenAIResponses => responses::response_of(body),
        Dialect::Gemini => gemini::response_of(body),
    }
}

/// Decode a non streaming upstream response body.
pub fn decode_response(dialect: Dialect, body: Json) -> (r: Result<ChatResponse, Error>)
    ensures
        exists|ids: Seq<Seq<char>>|
            {
                &&& openai::fresh_calls(ids)
                &&& dialect == Dialect::OpenAI ==> ids.len() == openai::call_list(body@).len()
                &&& error::outcome(r) == #[trigger] response_of(dialect, body@, ids)
            },
{
    let ghost none = Seq::<Seq<char>>::empty();
    match dialect {
        Dialect::Anthropic => {
            let r = anthropic::decode_response(body);
            assert(error::outcome(r) == response_of(dialect, body@, none));
            r
        },
        Dialect::OpenAI => {
            let r = openai::decode_response(body);
            proof {
                let ids = choose|ids: Seq<Seq<char>>|
                    {
                        &&& openai::fresh_calls(ids)
                        &&& ids.len() == openai::call_list(body@).len()
                        &&& error::outcome(r) == #[trigger] openai::response_of(body@, ids)
                    };
                assert(error::outcome(r) == response_of(dialect, body@, ids));
            }
            r
        },
        Dialect::OpenAIResponses => {
            let r = responses::decode_response(body);
            assert(error::outcome(r) == response_of(dialect, body@, none));
            r
        },
        Dialect::Gemini => {
            let r = gemini::decode_response(body);
            assert(error::outcome(r) == response_of(dialect, body@, none));
            r
        },
    }
}

/// The body of a dialect for an answer made at `created`.
pub open spec fn response_body(dialect: Dialect, resp: ResponseV, created: i64) -> Tree {
    match dialect {
        Dialect::Anthropic => anthropic::response_body(resp),
        Dialect::OpenAI => openai::response_body(resp, created),
        Dialect::OpenAIResponses => responses::response_body(resp, created),
        Dialect::Gemini => gemini::response_body(resp),
    }
}

/// Encode an answer made at `created`, for a client speaking `dialect`.
pub fn encode_response_at(dialect: Dialect, resp: &ChatResponse, created: i64) -> (r: Json)
    ensures
        r@ == response_body(dialect, resp@, created),
{
    match dialect {
        Dialect::Anthropic => anthropic::encode_response(resp),
        Dialect::OpenAI => openai::encode_response_at(resp, created),
        Dialect::OpenAIResponses => responses::encode_response_at(resp, created),
        Dialect::Gemini => gemini::encode_response(resp),
    }
}

/// Encode an answer for a client speaking `dialect`; it is made now.
pub fn encode_response(dialect: Dialect, resp: &ChatResponse) -> (r: Json)
    ensures
        exists|created: i64| r@ == #[trigger] response_body(dialect, resp@, created),
{
    encode_response_at(dialect, resp, draw::unix_now())
}

/// A parser for a stream of any dialect.
pub enum AnyParser {
    Anthropic(AnthropicStreamParser),
    OpenAI(OpenAiStreamParser),
    Responses(ResponsesStreamParser),
    Gemini(GeminiStreamParser),
}

/// What became of a parser that took a frame, and what it gave back.
pub open spec fn took(before: AnyParser, after: AnyParser, frame: FrameV, r: Result<Vec<StreamEvent>, Error>) -> bool {
    match (before, after) {
        (AnyParser::Anthropic(a), AnyParser::Anthropic(b)) => match r {
            Ok(out) => anthropic::push_frame(a@, frame) == Ok::<anthropic::Step, ErrorV>(
                anthropic::Step { p: b@, out: views::of(out@) },
            ),
            Err(e) => anthropic::push_frame(a@, frame) == Err::<anthropic::Step, ErrorV>(e@) && b@ == a@,
        },
        (AnyParser::OpenAI(a), AnyParser::OpenAI(b)) => openai::pushed_fresh(a@, b@, frame, r),
        (AnyParser::Responses(a), AnyParser::Responses(b)) => match r {
            Ok(out) => responses::push_frame(a@, frame) == Ok::<responses::Step, ErrorV>(
                responses::Step { p: b@, out: views::of(out@) },
            ),
            Err(e) => responses::push_frame(a@, frame) == Err::<responses::Step, ErrorV>(e@) && b@ == a@,
        },
        (AnyParser::Gemini(a), AnyParser::Gemini(b)) => gemini::pushed_fresh(a@, b@, frame, r),
        _ => false,
    }
}

/// What became of a parser whose stream ended, and what it gave back.
pub open spec fn ended(before: AnyParser, after: AnyParser, r: Vec<StreamEvent>) -> bool {
    match (before, after) {
        (AnyParser::Anthropic(a), AnyParser::Anthropic(b)) => (anthropic::Step { p: b@, out: views::of(r@) })
            == anthropic::finished(a@),
        (AnyParser::OpenAI(a), AnyParser::OpenAI(b)) => (openai::Step { p: b@, out: views::of(r@) })
            == openai::finished(a@),
        (AnyParser::Responses(a), AnyParser::Responses(b)) => (responses::Step { p: b@, out: views::of(r@) })
            == responses::finished(a@),
        (AnyParser::Gemini(a), AnyParser::Gemini(b)) => (gemini::Step { p: b@, out: views::of(r@) })
            == gemini::finished(a@),
        _ => false,
    }
}

impl StreamParser for AnyParser {
    fn push(&mut self, frame: &SseFrame) -> (r: Result<Vec<StreamEvent>, Error>)
        ensures
            took(*old(self), *final(self), frame@, r),
    {
        match self {
            AnyParser::Anthropic(p) => p.push(frame),
            AnyParser::OpenAI(p) => p.push(frame),
            AnyParser::Responses(p) => p.push(frame),
            AnyParser::Gemini(p) => p.push(frame),
        }
    }

    fn finish(&mut self) -> (r: Vec<StreamEvent>)
        ensures
            ended(*old(self), *final(self), r),
    {
        match self {
            AnyParser::Anthropic(p) => p.finish(),
            AnyParser::OpenAI(p) => p.finish(),
            AnyParser::Responses(p) => p.finish(),
            AnyParser::Gemini(p) => p.finish(),
        }
    }
}

/// A parser for a stream of a dialect.
pub fn stream_parser(dialect: Dialect, model: &str) -> (r: AnyParser)
    ensures
        match dialect {
            Dialect::Anthropic => r is Anthropic && r->Anthropic_0@ == anthropic::fresh_parser(model@),
            Dialect::OpenAI => r is OpenAI && r->OpenAI_0@ == openai::fresh_parser(model@),
            Dialect::OpenAIResponses => r is Responses && r->Responses_0@ == responses::fresh_parser(model@),
            Dialect::Gemini => r is Gemini && r->Gemini_0@ == gemini::fresh_parser(model@),
        },
{
    match dialect {
        Dialect::Anthropic => AnyParser::Anthropic(AnthropicStreamParser::new(model)),
        Dialect::OpenAI => AnyParser::OpenAI(OpenAiStreamParser::new(model)),
        Dialect::OpenAIResponses => AnyParser::Responses(ResponsesStreamParser::new(model)),
        Dialect::Gemini => AnyParser::Gemini(GeminiStreamParser::new(model)),
    }
}

/// An encoder for a stream of any dialect.
pub enum AnyEncoder {
    Anthropic(AnthropicStreamEncoder),
    OpenAI(OpenAiStreamEncoder),
    Responses(ResponsesStreamEncoder),
    Gemini(GeminiStreamEncoder),
}

/// What became of an encoder that took an event, and what it gave back.
pub open spec fn wrote(before: AnyEncoder, after: AnyEncoder, event: ir::EventV, r: Vec<SseFrame>) -> bool {
    match (before, after) {
        (AnyEncoder::Anthropic(a), AnyEncoder::Anthropic(b)) => (anthropic::Written { e: b@, out: views::of(r@) })
            == anthropic::encoded_event(a@, event),
        (AnyEncoder::OpenAI(a), AnyEncoder::OpenAI(b)) => (openai::Written { e: b@, out: views::of(r@) })
            == openai::encoded_event(a@, event),
        (AnyEncoder::Responses(a), AnyEncoder::Responses(b)) => (responses::Written { e: b@, out: views::of(r@) })
            == responses::encoded_event(a@, event),
        (AnyEncoder::Gemini(a), AnyEncoder::Gemini(b)) => (gemini::Written { e: b@, out: views::of(r@) })
            == gemini::encoded_event(a@, event),
        _ => false,
    }
}

/// What became of an encoder whose stream ended, and what it gave back.
pub open spec fn closed(before: AnyEncoder, after: AnyEncoder, r: Vec<SseFrame>) -> bool {
    match (before, after) {
        (AnyEncoder::Anthropic(a), AnyEncoder::Anthropic(b)) => (anthropic::Written { e: b@, out: views::of(r@) })
            == anthropic::encoded_finish(a@),
        (AnyEncoder::OpenAI(a), AnyEncoder::OpenAI(b)) => (openai::Written { e: b@, out: views::of(r@) })
            == openai::encoded_finish(a@),
        (AnyEncoder::Responses(a), AnyEncoder::Responses(b)) => (responses::Written { e: b@, out: views::of(r@) })
            == responses::encoded_finish(a@),
        (AnyEncoder::Gemini(a), AnyEncoder::Gemini(b)) => (gemini::Written { e: b@, out: views::of(r@) })
            == gemini::encoded_finish(a@),
        _ => false,
    }
}

/// What became of an encoder that reported an error, and what it gave back.
pub open spec fn failed(before: AnyEncoder, after: AnyEncoder, err: ErrorV, r: Vec<SseFrame>) -> bool {
    match (before, after) {
        (AnyEncoder::Anthropic(a), AnyEncoder::Anthropic(b)) => b@ == a@ && views::of(r@) == Seq::empty().push(
            anthropic::named_frame("error"@, err.wire(Dialect::Anthropic)),
        ),
        (AnyEncoder::OpenAI(a), AnyEncoder::OpenAI(b)) => (openai::Written { e: b@, out: views::of(r@) })
            == openai::encoded_error(a@, err),
        (AnyEncoder::Responses(a), AnyEncoder::Responses(b)) => (responses::Written { e: b@, out: views::of(r@) })
            == responses::encoded_error(a@, err),
        (AnyEncoder::Gemini(a), AnyEncoder::Gemini(b)) => b@ == (gemini::EncoderV { done: true, ..a@ })
            && views::of(r@) == Seq::empty().push(
            gemini::data_frame(gemini::one_field("error"@, err.wire(Dialect::Gemini))),
        ),
        _ => false,
    }
}

impl StreamEncoder for AnyEncoder {
    fn encode(&mut self, event: &StreamEvent) -> (r: Vec<SseFrame>)
        ensures
            wrote(*old(self), *final(self), event@, r),
    {
        match self {
            AnyEncoder::Anthropic(e) => e.encode(event),
            AnyEncoder::OpenAI(e) => e.encode(event),
            AnyEncoder::Responses(e) => e.encode(event),
            AnyEncoder::Gemini(e) => e.encode(event),
        }
    }

    fn finish(&mut self) -> (r: Vec<SseFrame>)
        ensures
            closed(*old(self), *final(self), r),
    {
        match self {
            AnyEncoder::Anthropic(e) => e.finish(),
            AnyEncoder::OpenAI(e) => e.finish(),
            AnyEncoder::Responses(e) => e.finish(),
            AnyEncoder::Gemini(e) => e.finish(),
        }
    }

    fn error(&mut self, err: &Error) -> (r: Vec<SseFrame>)
        ensures
            failed(*old(self), *final(self), err@, r),
    {
        match self {
            AnyEncoder::Anthropic(e) => e.error(err),
            AnyEncoder::OpenAI(e) => e.error(err),
            AnyEncoder::Responses(e) => e.error(err),
            AnyEncoder::Gemini(e) => e.error(err),
        }
    }
}

/// Whether an encoder is one for a fresh stream of a dialect.
pub open spec fn made_for(dialect: Dialect, model: Seq<char>, include_usage: bool, e: AnyEncoder) -> bool {
    match dialect {
        Dialect::Anthropic => e is Anthropic && ({
            let v = e->Anthropic_0@;
            v == anthropic::fresh_encoder(model, v.id) && draw::is_fresh_id(v.id, "msg_"@)
        }),
        Dialect::OpenAI => e is OpenAI && ({
            let v = e->OpenAI_0@;
            v == (openai::EncoderV { include_usage, ..openai::fresh_encoder(model, v.id, v.created) })
                && draw::is_fresh_id(v.id, "chatcmpl-"@)
        }),
        Dialect::OpenAIResponses => e is Responses && ({
            let v = e->Responses_0@;
            v == responses::fresh_encoder(model, v.id, v.created_at) && draw::is_fresh_id(v.id, "resp-"@)
        }),
        Dialect::Gemini => e is Gemini && e->Gemini_0@ == (gemini::EncoderV { model, done: false }),
    }
}

/// An encoder for a fresh stream of a dialect.
///
/// `include_usage` only matters for the OpenAI dialect, where the usage trailer
/// is opt in via `stream_options`.
pub fn stream_encoder(dialect: Dialect, model: &str, include_usage: bool) -> (r: AnyEncoder)
    ensures
        made_for(dialect, model@, include_usage, r),
{
    match dialect {
        Dialect::Anthropic => AnyEncoder::Anthropic(AnthropicStreamEncoder::new(model)),
        Dialect::OpenAI => AnyEncoder::OpenAI(OpenAiStreamEncoder::new(model).with_usage(include_usage)),
        Dialect::OpenAIResponses => AnyEncoder::Responses(ResponsesStreamEncoder::new(model)),
        Dialect::Gemini => AnyEncoder::Gemini(GeminiStreamEncoder::new(model)),
    }
}

} // verus!
