//! What is sent to the upstream providers, and what is made of their answers.
//!
//! The bytes themselves travel elsewhere. Timeouts are enforced there rather than
//! as a whole-request deadline, which would kill long streaming answers; streams
//! get an *idle* timeout between chunks instead.

use std::collections::VecDeque;

use crate::config;
use crate::config::{trim_end_slashes, IdentityV, ProviderConfig, ProviderKind, ProviderV};
use crate::error;
use crate::error::{Error, ErrorV};
use crate::headers;
use crate::headers::{header_name, insert_header, is_header_value, no_headers, visible_header};
use crate::ir;
use crate::ir::{ChatRequest, ChatResponse, Dialect, EventV, Message, RequestV, ResponseV, StreamEvent};
use crate::json;
use crate::json::{array, array1, js, Build, Fields, Json, Lookup, Tree};
use crate::protocol;
use crate::protocol::openai;
use crate::protocol::sse;
use crate::protocol::sse::{FrameV, SseDecoder, SseFrame};
use crate::protocol::{AnyParser, ProviderQuirks, StreamParser};
use crate::query::RequestKind;
use crate::sorting;
use crate::sorting::{sort, Ranked};
use crate::text;
use crate::text::{chars_of, comes_before, concat, concat3, contains, same, string_of, strip_prefix};
use crate::views;
use vstd::prelude::*;

verus! {

broadcast use crate::views::group_views;

// ------------------------------------------------------------------- headers

pub type Texts = Map<Seq<char>, Seq<char>>;

/// The headers that every request carries.
pub open spec fn base_headers() -> Texts {
    headers::no_texts().insert("content-type"@, "application/json"@).insert(
        "accept"@,
        "application/json, text/event-stream"@,
    )
}

/// A header set, unless its value is none.
pub open spec fn set_checked(m: Texts, name: Seq<char>, value: Seq<char>, fault: Seq<char>) -> Result<Texts, ErrorV> {
    if headers::is_value(value) {
        Ok(m.insert(name, value))
    } else {
        Err(ErrorV::Internal(fault))
    }
}

/// The headers with the key of the provider, where there is one.
pub open spec fn with_key(m: Texts, kind: ProviderKind, key: Option<Seq<char>>) -> Result<Texts, ErrorV> {
    match key {
        Some(k) => if k.len() == 0 {
            Ok(m)
        } else {
            match kind {
                ProviderKind::Anthropic => set_checked(m, "x-api-key"@, k, "API key contains invalid characters"@),
                ProviderKind::OpenAICompatible => set_checked(
                    m,
                    "authorization"@,
                    "Bearer "@ + k,
                    "API key contains invalid characters"@,
                ),
            }
        },
        None => Ok(m),
    }
}

/// The headers with the API version, where the provider wants one.
pub open spec fn with_version(m: Texts, p: ProviderV) -> Result<Texts, ErrorV> {
    match p.kind {
        ProviderKind::Anthropic => set_checked(
            m,
            "anthropic-version"@,
            match p.anthropic_version {
                Some(v) => v,
                None => "2023-06-01"@,
            },
            "invalid anthropic-version"@,
        ),
        ProviderKind::OpenAICompatible => Ok(m),
    }
}

/// The headers with those that the provider asks for, from the `i`th on.
pub open spec fn with_extra(m: Texts, extra: Seq<(Seq<char>, Seq<char>)>, i: int) -> Result<Texts, ErrorV>
    decreases extra.len() - i,
{
    if i < 0 || i >= extra.len() {
        Ok(m)
    } else if !headers::is_name(extra[i].0) {
        Err(ErrorV::Internal("invalid header name `"@ + extra[i].0 + "`"@))
    } else if !headers::is_value(extra[i].1) {
        Err(ErrorV::Internal("invalid value for header `"@ + extra[i].0 + "`"@))
    } else {
        with_extra(m.insert(text::ascii_lowered(extra[i].0), extra[i].1), extra, i + 1)
    }
}

/// The beta feature that a client asks for, beside those that were asked for
/// already.
pub open spec fn beta_value(m: Texts, marker: Seq<char>) -> Seq<char> {
    if m.contains_key("anthropic-beta"@) {
        let existing = if headers::is_visible(m["anthropic-beta"@]) {
            m["anthropic-beta"@]
        } else {
            Seq::empty()
        };
        if text::occurs(existing, marker) {
            existing
        } else {
            marker + ","@ + existing
        }
    } else {
        marker
    }
}

/// The headers of a client.
pub open spec fn with_fingerprint(m: Texts, client: IdentityV) -> Result<Texts, ErrorV> {
    match set_checked(m, "user-agent"@, client.user_agent, "invalid user-agent value"@) {
        Ok(a) => {
            let n = a.insert("x-app"@, "cli"@).insert("anthropic-dangerous-direct-browser-access"@, "true"@);
            set_checked(n, "anthropic-beta"@, beta_value(n, client.beta), "invalid anthropic-beta value"@)
        },
        Err(e) => Err(e),
    }
}

/// What comes of the next step, unless an earlier one failed.
pub open spec fn built_headers(p: ProviderV, key: Option<Seq<char>>) -> Result<Texts, ErrorV> {
    match with_key(base_headers(), p.kind, key) {
        Ok(a) => match with_version(a, p) {
            Ok(b) => match with_extra(b, p.extra_headers, 0) {
                Ok(c) => if p.impersonate_claude_code {
                    with_fingerprint(c, p.client_identity)
                } else {
                    Ok(c)
                },
                Err(e) => Err(e),
            },
            Err(e) => Err(e),
        },
        Err(e) => Err(e),
    }
}

type Headers = reqwest::header::HeaderMap<reqwest::header::HeaderValue>;

/// Set a header, unless its value is none.
fn put_checked(headers: &mut Headers, name: &str, value: &str, fault: &str) -> (r: Result<(), Error>)
    requires
        headers::is_plain_name(name@),
        headers::header_texts(*old(headers)).dom().finite(),
        headers::header_texts(*old(headers)).dom().len() <= 6553,
    ensures
        match r {
            Ok(_) => set_checked(headers::header_texts(*old(headers)), name@, value@, fault@) == Ok::<Texts, ErrorV>(
                headers::header_texts(*final(headers)),
            ),
            Err(e) => set_checked(headers::header_texts(*old(headers)), name@, value@, fault@) == Err::<Texts, ErrorV>(
                e@,
            ),
        },
        headers::header_texts(*final(headers)).dom().finite(),
        headers::header_texts(*final(headers)).dom().len() <= headers::header_texts(*old(headers)).dom().len() + 1,
{
    if !is_header_value(value) {
        return Err(Error::internal(fault));
    }
    insert_header(headers, name, value);
    Ok(())
}

/// Build the auth and content headers for a provider.
pub fn build_headers(provider: &ProviderConfig, api_key: Option<&str>) -> (r: Result<Headers, Error>)
    requires
        provider.extra_headers@.len() <= 6500,
    ensures
        match r {
            Ok(h) => built_headers(provider@, views::opt_str(api_key)) == Ok::<Texts, ErrorV>(headers::header_texts(h)),
            Err(e) => built_headers(provider@, views::opt_str(api_key)) == Err::<Texts, ErrorV>(e@),
        },
{
    proof {
        headers::own_names_are_names();
        headers::own_values_are_values();
    }
    let mut out = no_headers();
    insert_header(&mut out, "content-type", "application/json");
    insert_header(&mut out, "accept", "application/json, text/event-stream");
    let ghost base = headers::header_texts(out);
    assert(base.dom().len() <= 2);

    if let Some(key) = api_key {
        if key.unicode_len() > 0 {
            let set = match provider.kind {
                ProviderKind::Anthropic => put_checked(
                    &mut out,
                    "x-api-key",
                    key,
                    "API key contains invalid characters",
                ),
                ProviderKind::OpenAICompatible => {
                    let bearer = concat("Bearer ", key);
                    put_checked(&mut out, "authorization", bearer.as_str(), "API key contains invalid characters")
                },
            };
            if let Err(e) = set {
                return Err(e);
            }
        }
    }
    let ghost keyed = headers::header_texts(out);
    assert(with_key(base_headers(), provider@.kind, views::opt_str(api_key)) == Ok::<Texts, ErrorV>(keyed));

    if let ProviderKind::Anthropic = provider.kind {
        let version = match &provider.anthropic_version {
            Some(v) => v.as_str(),
            None => "2023-06-01",
        };
        if let Err(e) = put_checked(&mut out, "anthropic-version", version, "invalid anthropic-version") {
            return Err(e);
        }
    }
    let ghost versioned = headers::header_texts(out);
    assert(with_version(keyed, provider@) == Ok::<Texts, ErrorV>(versioned));

    let ghost extra = provider@.extra_headers;
    for i in 0..provider.extra_headers.len()
        invariant
            extra == views::of(provider.extra_headers@),
            extra == provider@.extra_headers,
            provider.extra_headers@.len() <= 6500,
            headers::header_texts(out).dom().finite(),
            headers::header_texts(out).dom().len() <= 4 + i,
            with_extra(versioned, extra, 0) == with_extra(headers::header_texts(out), extra, i as int),
            with_key(base_headers(), provider@.kind, views::opt_str(api_key)) == Ok::<Texts, ErrorV>(keyed),
            with_version(keyed, provider@) == Ok::<Texts, ErrorV>(versioned),
    {
        let k = provider.extra_headers[i].0.as_str();
        let v = provider.extra_headers[i].1.as_str();
        assert(extra[i as int] == provider.extra_headers@[i as int]@);
        let name = match header_name(k) {
            Some(name) => name,
            None => {
                return Err(Error::Internal(concat3("invalid header name `", k, "`")));
            },
        };
        if !is_header_value(v) {
            return Err(Error::Internal(concat3("invalid value for header `", k, "`")));
        }
        proof {
            headers::lowering_gives_a_plain_name(k@);
        }
        insert_header(&mut out, name.as_str(), v);
    }
    let ghost full = headers::header_texts(out);
    assert(with_extra(versioned, extra, 0) == Ok::<Texts, ErrorV>(full));

    // Impersonation: a minimal clean fingerprint, matching what the real client
    // sends. SDK-layer headers (x-stainless-*) and request IDs are deliberately
    // NOT injected: a real CLI does not send them, and header/version
    // inconsistencies are exactly what strict gateways look for. Gateways needing
    // extras can use provider.extra_headers.
    if provider.impersonate_claude_code {
        let client = &provider.client_identity;
        if let Err(e) = put_checked(
            &mut out,
            "user-agent",
            client.user_agent.as_str(),
            "invalid user-agent value",
        ) {
            return Err(e);
        }
        // x-app: identifies as CLI client.
        insert_header(&mut out, "x-app", "cli");
        // The real client sends this; harmless where it is not checked.
        insert_header(&mut out, "anthropic-dangerous-direct-browser-access", "true");
        // anthropic-beta: ensure the client's marker is present
        let beta = match visible_header(&out, "anthropic-beta") {
            Some(existing) => {
                let existing = match existing {
                    Ok(s) => s,
                    Err(_) => String::new(),
                };
                if contains(existing.as_str(), client.beta.as_str()) {
                    existing
                } else {
                    concat3(client.beta.as_str(), ",", existing.as_str())
                }
            },
            None => client.beta.clone(),
        };
        assert(beta@ =~= beta_value(headers::header_texts(out), client.beta@));
        if let Err(e) = put_checked(&mut out, "anthropic-beta", beta.as_str(), "invalid anthropic-beta value") {
            return Err(e);
        }
    }
    Ok(out)
}

// -------------------------------------------------------------------- bodies

/// How faithfully a request is encoded.
#[derive(Debug, Clone, Copy, PartialEq, Eq, Structural)]
pub enum EncodeMode {
    /// As the provider's quirks say.
    Normal,
    /// With the temperature and the stop sequences, whatever the quirks say: a
    /// classifier's verdict depends on them.
    Classifier,
}

/// The quirks that hold in a mode.
pub open spec fn quirks_in(mode: EncodeMode, q: ProviderQuirks) -> ProviderQuirks {
    match mode {
        EncodeMode::Normal => q,
        EncodeMode::Classifier => ProviderQuirks { drop_temperature: false, drop_stop: false, ..q },
    }
}

/// The limit of a request's answer under a model's own limit.
pub open spec fn capped(asked: Option<u32>, cap: Option<u32>) -> Option<u32> {
    match cap {
        Some(c) => match asked {
            Some(m) => Some(if m < c { m } else { c }),
            None => Some(c),
        },
        None => asked,
    }
}

/// A text, as a system block.
pub open spec fn text_part(s: Seq<char>) -> Tree {
    Tree::Obj(json::fs().with("type"@, json::st("text"@)).with("text"@, json::st(s)))
}

/// The system blocks of a body with the identity line before them.
pub open spec fn identified(system: Tree, line: Seq<char>) -> Seq<Tree> {
    let first = Seq::empty().push(text_part(line));
    match system {
        Tree::Arr(blocks) => first + blocks,
        Tree::Str(s) => if s.len() > 0 {
            first.push(text_part(s))
        } else {
            first
        },
        _ => first,
    }
}

/// Whether the first system block is the identity line already.
pub open spec fn is_identified(system: Tree, line: Seq<char>) -> bool {
    system matches Tree::Arr(blocks) && blocks.len() > 0 && blocks[0].at("text"@).text() == Some(line)
}

/// A body whose first system block is the identity line.
pub open spec fn with_identity(body: Tree, line: Seq<char>) -> Tree {
    match body.at("system"@) {
        Some(system) => if is_identified(system, line) {
            body
        } else {
            body.with_field("system"@, Tree::Arr(identified(system, line)))
        },
        None => body.with_field("system"@, Tree::Arr(Seq::empty().push(text_part(line)))),
    }
}

/// The body that a provider gets.
pub open spec fn provider_body(p: ProviderV, req: RequestV, upstream_model: Seq<char>, cap: Option<u32>, mode: EncodeMode) -> Result<
    Tree,
    ErrorV,
> {
    let asked = RequestV { max_tokens: capped(req.max_tokens, cap), ..req };
    match protocol::request_body(p.kind.speaks(), asked, upstream_model, quirks_in(mode, p.quirks)) {
        Ok(body) => Ok(
            if p.impersonate_claude_code && p.kind is Anthropic {
                with_identity(body, p.client_identity.system_line)
            } else {
                body
            },
        ),
        Err(e) => Err(e),
    }
}

fn part(s: &str) -> (r: Json)
    ensures
        r@ == text_part(s@),
{
    Fields::new().with("type", js("text")).with("text", js(s)).done()
}

fn copy_list(list: &Vec<Json>, out: &mut Vec<Json>)
    ensures
        views::of(final(out)@) == views::of(old(out)@) + views::of(list@),
{
    let ghost all = views::of(list@);
    let ghost start = views::of(out@);
    for i in 0..list.len()
        invariant
            all == views::of(list@),
            views::of(out@) == start + all.take(i as int),
    {
        assert(all[i as int] == list@[i as int]@);
        out.push(list[i].clone());
        assert(start + all.take(i + 1) =~= (start + all.take(i as int)).push(all[i as int]));
    }
    assert(all.take(all.len() as int) =~= all);
}

/// Insert a client's identity line as the first block of the `system` field in
/// the Anthropic request body.
///
/// Anthropic subscription/OAuth plans require the first system block to be exactly
/// the identity line.
pub fn prepend_claude_code_system_prompt(body: &mut Json, line: &str)
    ensures
        final(body)@ == with_identity(old(body)@, line@),
{
    let ghost before = body@;
    let identity = part(line);
    let mut blocks: Vec<Json> = Vec::new();
    blocks.push(identity);
    assert(views::of(blocks@) =~= Seq::empty().push(text_part(line@)));
    let system = body.at("system");
    if system.is_some() {
        if let Some(existing) = system.list() {
            // Idempotent: skip re-injection if the first block is already the
            // identity line.
            let ghost all = views::of(existing@);
            if existing.len() > 0 {
                assert(all[0] == existing@[0]@);
                if existing[0].at("text").is_text(line) {
                    return;
                }
            }
            copy_list(existing, &mut blocks);
        } else if let Some(existing) = system.words() {
            blocks.push(part(existing));
        }
    }
    let list = array(blocks);
    assert(before.at("system"@) matches Some(s) ==> list@ == Tree::Arr(identified(s, line@)));
    body.set_field("system", list);
}

/// Prepare the upstream body for a candidate, in a mode.
pub fn encode_for_mode(
    provider: &ProviderConfig,
    req: &ChatRequest,
    upstream_model: &str,
    max_output_tokens: Option<u32>,
    mode: EncodeMode,
) -> (r: Result<Json, Error>)
    ensures
        error::outcome(r) == provider_body(provider@, req@, upstream_model@, max_output_tokens, mode),
{
    let mut asked = req.clone();
    if let Some(cap) = max_output_tokens {
        asked.max_tokens = Some(
            match asked.max_tokens {
                Some(m) => if m < cap {
                    m
                } else {
                    cap
                },
                None => cap,
            },
        );
    }
    let mut quirks = provider.quirks;
    if let EncodeMode::Classifier = mode {
        quirks.drop_temperature = false;
        quirks.drop_stop = false;
    }
    let mut body = match protocol::encode_request(provider.kind.dialect(), &asked, upstream_model, &quirks) {
        Ok(body) => body,
        Err(e) => {
            return Err(e);
        },
    };
    // Impersonation: inject the identity line as the first system block
    // to pass Anthropic subscription/OAuth plan checks. OpenAI-compatible bodies
    // use messages for system instructions, and a "system" key in them triggers
    // gateway content filters.
    if provider.impersonate_claude_code {
        if let ProviderKind::Anthropic = provider.kind {
            prepend_claude_code_system_prompt(&mut body, provider.client_identity.system_line.as_str());
        }
    }
    Ok(body)
}

/// Prepare the upstream body for a candidate.
pub fn encode_for(
    provider: &ProviderConfig,
    req: &ChatRequest,
    upstream_model: &str,
    max_output_tokens: Option<u32>,
) -> (r: Result<Json, Error>)
    ensures
        error::outcome(r) == provider_body(
            provider@,
            req@,
            upstream_model@,
            max_output_tokens,
            EncodeMode::Normal,
        ),
{
    encode_for_mode(provider, req, upstream_model, max_output_tokens, EncodeMode::Normal)
}

/// The encoding fidelity a request kind needs.
pub fn encode_mode_for(kind: RequestKind) -> (r: EncodeMode)
    ensures
        r == mode_for(kind),
{
    match kind {
        RequestKind::Main => EncodeMode::Normal,
        RequestKind::Side(_) => EncodeMode::Classifier,
    }
}

/// The encoding fidelity a request kind needs.
pub open spec fn mode_for(kind: RequestKind) -> EncodeMode {
    match kind {
        RequestKind::Main => EncodeMode::Normal,
        RequestKind::Side(_) => EncodeMode::Classifier,
    }
}

/// The request that measures a model: one token of output is enough for the whole
/// round trip.
pub open spec fn probe_request(p: ProviderV, upstream_model: Seq<char>) -> RequestV {
    RequestV {
        messages: Seq::empty().push(ir::user_message("ping"@)),
        max_tokens: Some(1u32),
        ..ir::empty_request(upstream_model, p.kind.speaks())
    }
}

/// The body of a minimal completion, for an election.
///
/// It is a real request, so it goes through the same encoder and the same quirks as
/// traffic does.
pub fn probe_body(provider: &ProviderConfig, upstream_model: &str) -> (r: Result<Json, Error>)
    ensures
        error::outcome(r) == provider_body(
            provider@,
            probe_request(provider@, upstream_model@),
            upstream_model@,
            Some(1u32),
            EncodeMode::Normal,
        ),
{
    let mut request = ChatRequest::new(upstream_model, provider.kind.dialect());
    request.messages.push(Message::user_text("ping"));
    request.max_tokens = Some(1);
    encode_for(provider, &request, upstream_model, Some(1))
}

// ------------------------------------------------------------------- answers

/// A text cut down to `max` characters and an ellipsis, where it is longer.
pub open spec fn truncated(s: Seq<char>, max: int) -> Seq<char> {
    if s.len() <= max {
        s
    } else {
        s.take(max) + "…"@
    }
}

/// A text cut down to `max` characters and an ellipsis, where it is longer.
pub fn truncate(s: &str, max: usize) -> (r: String)
    ensures
        r@ == truncated(s@, max as int),
{
    let chars = chars_of(s);
    if chars.len() <= max {
        return s.to_owned();
    }
    let head = string_of(&chars, 0, max);
    assert(head@ =~= s@.take(max as int));
    concat(head.as_str(), "…")
}

/// Whether a status is one of success.
pub open spec fn is_success(status: u16) -> bool {
    200 <= status < 300
}

/// What a refusal of an upstream is told as.
pub open spec fn refusal(provider: Seq<char>, status: u16, text: Seq<char>) -> ErrorV {
    ErrorV::Upstream { provider, status, body: truncated(text, 2000) }
}

/// What a refusal of an upstream is told as.
pub fn upstream_error(provider: &str, status: u16, text: &str) -> (r: Error)
    ensures
        r@ == refusal(provider@, status, text@),
{
    Error::Upstream { provider: provider.to_owned(), status, body: truncate(text, 2000) }
}

/// The document that an upstream answered with.
pub open spec fn answered(provider: Seq<char>, status: u16, text: Seq<char>) -> Result<Tree, ErrorV> {
    if !is_success(status) {
        Err(refusal(provider, status, text))
    } else {
        match json::parsed(text) {
            Ok(t) => Ok(t),
            Err(e) => Err(ErrorV::BadUpstreamPayload(e + ": "@ + truncated(text, 500))),
        }
    }
}

/// Read the document that an upstream answered with.
pub fn read_json(provider: &str, status: u16, text: &str) -> (r: Result<Json, Error>)
    ensures
        error::outcome(r) == answered(provider@, status, text@),
{
    if !(200 <= status && status < 300) {
        return Err(upstream_error(provider, status, text));
    }
    match json::parse(text) {
        Ok(v) => Ok(v),
        Err(e) => {
            let head = truncate(text, 500);
            Err(Error::BadUpstreamPayload(concat3(e.as_str(), ": ", head.as_str())))
        },
    }
}

/// The answer of an upstream to a chat request; `ids` name tool calls that have no
/// name.
pub open spec fn chat_answer(p: ProviderV, status: u16, text: Seq<char>, ids: Seq<Seq<char>>) -> Result<
    ResponseV,
    ErrorV,
> {
    match answered(p.name, status, text) {
        Ok(body) => protocol::response_of(p.kind.speaks(), body, ids),
        Err(e) => Err(e),
    }
}

/// Read the answer of an upstream to a chat request that is not a stream.
pub fn read_answer(provider: &ProviderConfig, status: u16, text: &str) -> (r: Result<ChatResponse, Error>)
    ensures
        exists|ids: Seq<Seq<char>>|
            openai::fresh_calls(ids) && error::outcome(r) == #[trigger] chat_answer(provider@, status, text@, ids),
{
    match read_json(provider.name.as_str(), status, text) {
        Ok(body) => {
            let ghost tree = body@;
            let r = protocol::decode_response(provider.kind.dialect(), body);
            proof {
                let ids = choose|ids: Seq<Seq<char>>|
                    openai::fresh_calls(ids) && error::outcome(r) == #[trigger] protocol::response_of(
                        provider@.kind.speaks(),
                        tree,
                        ids,
                    );
                assert(error::outcome(r) == chat_answer(provider@, status, text@, ids));
            }
            r
        },
        Err(e) => {
            let r: Result<ChatResponse, Error> = Err(e);
            proof {
                let ids = Seq::<Seq<char>>::empty();
                assert(openai::fresh_calls(ids));
                assert(error::outcome(r) == chat_answer(provider@, status, text@, ids));
            }
            r
        },
    }
}

// ----------------------------------------------------------------- handshake

/// Whether a handshake error is worth retrying: failures that happen before
/// the provider processed anything, or gateway-level blips.
pub open spec fn is_transient(e: ErrorV) -> bool {
    match e {
        ErrorV::Transport { .. } => true,
        ErrorV::Upstream { status, .. } => status == 408 || status == 502 || status == 503 || status == 504,
        _ => false,
    }
}

/// Whether a handshake error is worth retrying: failures that happen before
/// the provider processed anything (connection problems, TLS issues) or
/// gateway-level blips (408/502/503/504).
///
/// Deliberately excluded: 405 (both known modes — TLS-fingerprint and
/// content rules on the relay's WAF — are deterministic, so replaying just
/// re-uploads the body for nothing), 429 (retrying deepens relay rate-limit
/// blocks) and 500 (this relay reports deterministic content rejections as
/// 500, and replaying those just burns quota).
pub fn is_transient_handshake_failure(err: &Error) -> (r: bool)
    ensures
        r == is_transient(err@),
{
    match err {
        Error::Transport { .. } => true,
        Error::Upstream { status, .. } => *status == 408 || *status == 502 || *status == 503 || *status == 504,
        _ => false,
    }
}

/// What follows a handshake that failed.
#[derive(Debug, Clone, Copy, PartialEq, Eq, Structural)]
pub enum Handshake {
    /// Wait, and try again.
    Retry { delay_ms: u64 },
    /// Hand the error on.
    Fail,
}

/// What follows the failure of the `attempt`th handshake. Three are made at most,
/// with a pause that grows between them.
pub open spec fn after_failure(attempt: u32, e: ErrorV) -> Handshake {
    if attempt < 3 && is_transient(e) {
        Handshake::Retry { delay_ms: (750 * attempt) as u64 }
    } else {
        Handshake::Fail
    }
}

/// What follows the failure of the `attempt`th handshake.
///
/// The handshake (DNS, connect, TLS, request upload, response status) is
/// retried a couple of times: transient transport failures and gateway
/// blips (408/502/503/504) happen before any bytes of the answer exist,
/// so replaying the request is safe and masks proxy/node flaps.
pub fn after_handshake_failure(attempt: u32, err: &Error) -> (r: Handshake)
    ensures
        r == after_failure(attempt, err@),
{
    if attempt < 3 && is_transient_handshake_failure(err) {
        Handshake::Retry { delay_ms: 750 * attempt as u64 }
    } else {
        Handshake::Fail
    }
}

// -------------------------------------------------------------------- stream

/// The reading end of one streaming call: bytes go in, canonical events come out.
pub struct StreamReader {
    pub decoder: SseDecoder,
    pub parser: AnyParser,
    /// Events that wait to be handed out.
    pub pending: VecDeque<StreamEvent>,
    pub provider: String,
    /// How long the stream may stay silent.
    pub idle_secs: u64,
    pub done: bool,
}

/// Whether a parser takes a frame without a fault and gives `more` behind `given`.
pub open spec fn takes_one(
    before: AnyParser,
    given: Seq<EventV>,
    frame: FrameV,
    more: Vec<StreamEvent>,
    after: AnyParser,
    out: Seq<EventV>,
) -> bool {
    protocol::took(before, after, frame, Ok(more)) && out == given + views::of(more@)
}

/// Whether a parser takes the first `n` frames one after the other without a fault
/// and gives `out` behind `start`.
pub open spec fn takes(
    before: AnyParser,
    start: Seq<EventV>,
    frames: Seq<FrameV>,
    n: int,
    after: AnyParser,
    out: Seq<EventV>,
) -> bool
    decreases n,
{
    if n <= 0 {
        after == before && out == start
    } else {
        exists|mid: AnyParser, given: Seq<EventV>, more: Vec<StreamEvent>|
            {
                &&& #[trigger] takes_one(mid, given, frames[n - 1], more, after, out)
                &&& takes(before, start, frames, n - 1, mid, given)
            }
    }
}

proof fn takes_one_more(
    before: AnyParser,
    start: Seq<EventV>,
    frames: Seq<FrameV>,
    n: int,
    mid: AnyParser,
    given: Seq<EventV>,
    after: AnyParser,
    more: Vec<StreamEvent>,
)
    requires
        0 <= n,
        takes(before, start, frames, n, mid, given),
        protocol::took(mid, after, frames[n], Ok(more)),
    ensures
        takes(before, start, frames, n + 1, after, given + views::of(more@)),
{
    let m = n + 1;
    assert(takes(before, start, frames, m - 1, mid, given));
    assert(takes_one(mid, given, frames[m - 1], more, after, given + views::of(more@)));
}

/// Whether a parser takes the frames up to one that it faults on.
pub open spec fn faults(
    before: AnyParser,
    start: Seq<EventV>,
    frames: Seq<FrameV>,
    after: AnyParser,
    out: Seq<EventV>,
    e: Error,
) -> bool {
    exists|n: int, mid: AnyParser|
        {
            &&& 0 <= n < frames.len()
            &&& #[trigger] takes(before, start, frames, n, mid, out)
            &&& protocol::took(mid, after, frames[n], Err(e))
        }
}

impl StreamReader {
    pub fn new(provider: &ProviderConfig, upstream_model: &str) -> (r: StreamReader)
        ensures
            r.decoder.pending@ == Seq::<u8>::empty(),
            r.pending@ == Seq::<StreamEvent>::empty(),
            r.provider@ == provider@.name,
            r.idle_secs == provider.timeout_secs,
            !r.done,
            provider.kind == ProviderKind::Anthropic ==> r.parser is Anthropic && r.parser->Anthropic_0@
                == protocol::anthropic::fresh_parser(upstream_model@),
            provider.kind == ProviderKind::OpenAICompatible ==> r.parser is OpenAI && r.parser->OpenAI_0@
                == openai::fresh_parser(upstream_model@),
    {
        StreamReader {
            decoder: SseDecoder::new(),
            parser: protocol::stream_parser(provider.kind.dialect(), upstream_model),
            pending: VecDeque::new(),
            provider: provider.name.clone(),
            idle_secs: provider.timeout_secs,
            done: false,
        }
    }

    /// The next event that waits.
    pub fn next_event(&mut self) -> (r: Option<StreamEvent>)
        ensures
            match r {
                Some(e) => old(self).pending@.len() > 0 && e == old(self).pending@[0] && final(self).pending@
                    == old(self).pending@.skip(1),
                None => old(self).pending@.len() == 0 && final(self).pending@ == old(self).pending@,
            },
            final(self).decoder == old(self).decoder,
            final(self).parser == old(self).parser,
            final(self).provider == old(self).provider,
            final(self).idle_secs == old(self).idle_secs,
            final(self).done == old(self).done,
    {
        let ghost before = self.pending@;
        let r = self.pending.pop_front();
        if r.is_some() {
            assert(self.pending@ =~= before.skip(1));
        }
        r
    }

    fn queue(&mut self, events: Vec<StreamEvent>)
        ensures
            views::of(final(self).pending@) == views::of(old(self).pending@) + views::of(events@),
            final(self).decoder == old(self).decoder,
            final(self).parser == old(self).parser,
            final(self).provider == old(self).provider,
            final(self).idle_secs == old(self).idle_secs,
            final(self).done == old(self).done,
    {
        let ghost start = views::of(self.pending@);
        let ghost all = views::of(events@);
        let mut rest = events;
        let ghost mut n: int = 0;
        while rest.len() > 0
            invariant
                0 <= n <= all.len(),
                views::of(rest@) == all.skip(n),
                views::of(self.pending@) == start + all.take(n),
                self.decoder == old(self).decoder,
                self.parser == old(self).parser,
                self.provider == old(self).provider,
                self.idle_secs == old(self).idle_secs,
                self.done == old(self).done,
            decreases rest@.len(),
        {
            let ghost before = views::of(rest@);
            assert(before.len() == rest@.len());
            assert(before[0] == rest@[0]@);
            let e = rest.remove(0);
            assert(views::of(rest@) =~= before.skip(1));
            assert(all.skip(n).skip(1) =~= all.skip(n + 1));
            assert(start + all.take(n + 1) =~= (start + all.take(n)).push(all[n]));
            self.pending.push_back(e);
            proof {
                n = n + 1;
            }
        }
        assert(views::of(rest@).len() == 0);
        assert(all.take(n) =~= all);
    }

    /// Take a chunk of bytes. The frames that it completes go through the parser one
    /// by one; a frame that the parser faults on ends the stream with its error.
    pub fn on_chunk(&mut self, chunk: &[u8]) -> (r: Option<Error>)
        ensures
            ({
                let (frames, left) = sse::fed(old(self).decoder.pending@, chunk@);
                &&& final(self).decoder.pending@ == left
                &&& final(self).provider == old(self).provider
                &&& final(self).idle_secs == old(self).idle_secs
                &&& match r {
                    None => final(self).done == old(self).done && takes(
                        old(self).parser,
                        views::of(old(self).pending@),
                        frames,
                        frames.len() as int,
                        final(self).parser,
                        views::of(final(self).pending@),
                    ),
                    Some(e) => final(self).done && faults(
                        old(self).parser,
                        views::of(old(self).pending@),
                        frames,
                        final(self).parser,
                        views::of(final(self).pending@),
                        e,
                    ),
                }
            }),
    {
        let ghost first = self.parser;
        let ghost start = views::of(self.pending@);
        let frames = self.decoder.push(chunk);
        let ghost all = views::of(frames@);
        let ghost left = self.decoder.pending@;
        assert(takes(first, start, all, 0, self.parser, views::of(self.pending@)));
        for i in 0..frames.len()
            invariant
                all == views::of(frames@),
                (all, left) == sse::fed(old(self).decoder.pending@, chunk@),
                first == old(self).parser,
                start == views::of(old(self).pending@),
                self.decoder.pending@ == left,
                self.provider == old(self).provider,
                self.idle_secs == old(self).idle_secs,
                self.done == old(self).done,
                takes(first, start, all, i as int, self.parser, views::of(self.pending@)),
        {
            assert(all[i as int] == frames@[i as int]@);
            let ghost mid = self.parser;
            let ghost given = views::of(self.pending@);
            let got = self.parser.push(&frames[i]);
            match got {
                Ok(events) => {
                    proof {
                        takes_one_more(first, start, all, i as int, mid, given, self.parser, events);
                    }
                    self.queue(events);
                },
                Err(e) => {
                    self.done = true;
                    assert(takes(first, start, all, i as int, mid, views::of(self.pending@)));
                    return Some(e);
                },
            }
        }
        None
    }

    /// The bytes have ended.
    pub fn on_end(&mut self)
        ensures
            final(self).done,
            exists|more: Vec<StreamEvent>|
                #[trigger] protocol::ended(old(self).parser, final(self).parser, more) && views::of(
                    final(self).pending@,
                ) == views::of(old(self).pending@) + views::of(more@),
            final(self).decoder == old(self).decoder,
            final(self).provider == old(self).provider,
            final(self).idle_secs == old(self).idle_secs,
    {
        self.done = true;
        let more = self.parser.finish();
        assert(protocol::ended(old(self).parser, self.parser, more));
        self.queue(more);
    }

    /// The stream stayed silent for too long.
    pub fn on_timeout(&mut self) -> (r: Error)
        ensures
            r@ == ErrorV::Timeout(old(self).idle_secs),
            *final(self) == (StreamReader { done: true, ..*old(self) }),
    {
        self.done = true;
        Error::Timeout(self.idle_secs)
    }

    /// The transport failed.
    pub fn on_transport_error(&mut self, source: String) -> (r: Error)
        ensures
            r@ == (ErrorV::Transport { provider: old(self).provider@, source: source@ }),
            *final(self) == (StreamReader { done: true, ..*old(self) }),
    {
        self.done = true;
        Error::Transport { provider: self.provider.clone(), source }
    }
}

// ----------------------------------------------------------------- catalogue

/// One entry of a provider's model catalogue.
#[derive(Debug)]
pub struct DiscoveredModel {
    pub id: String,
    /// The price table of the entry, as it is published. Present only when the
    /// catalogue publishes prices.
    pub pricing: Option<Json>,
}

pub struct DiscoveredV {
    pub id: Seq<char>,
    pub pricing: Option<Tree>,
}

impl View for DiscoveredModel {
    type V = DiscoveredV;

    open spec fn view(&self) -> DiscoveredV {
        DiscoveredV { id: self.id@, pricing: views::opt(self.pricing) }
    }
}

impl Ranked for DiscoveredModel {
    open spec fn before(a: DiscoveredV, b: DiscoveredV) -> bool {
        text::before(a.id, b.id)
    }

    fn comes_before(&self, other: &Self) -> (r: bool) {
        comes_before(self.id.as_str(), other.id.as_str())
    }
}

/// The entries of a catalogue from the `i`th on that have an id, behind `sofar`.
pub open spec fn entries_from(items: Seq<Tree>, i: int, sofar: Seq<DiscoveredV>) -> Seq<DiscoveredV>
    decreases items.len() - i,
{
    if i < 0 || i >= items.len() {
        sofar
    } else {
        match items[i].at("id"@).text() {
            Some(id) => entries_from(
                items,
                i + 1,
                sofar.push(DiscoveredV { id, pricing: items[i].at("pricing"@) }),
            ),
            None => entries_from(items, i + 1, sofar),
        }
    }
}

/// The entries from `i` on without those that repeat the one before them, behind
/// `sofar`.
pub open spec fn distinct_from(list: Seq<DiscoveredV>, i: int, sofar: Seq<DiscoveredV>) -> Seq<DiscoveredV>
    decreases list.len() - i,
{
    if i < 0 || i >= list.len() {
        sofar
    } else if sofar.len() > 0 && sofar.last().id == list[i].id {
        distinct_from(list, i + 1, sofar)
    } else {
        distinct_from(list, i + 1, sofar.push(list[i]))
    }
}

/// The models of a catalogue, by id, each once.
pub open spec fn discovered(body: Tree) -> Seq<DiscoveredV> {
    match body.at("data"@).list() {
        Some(items) => distinct_from(
            sorting::sorted::<DiscoveredModel>(entries_from(items, 0, Seq::empty())),
            0,
            Seq::empty(),
        ),
        None => Seq::empty(),
    }
}

/// Read which models a provider offers out of its catalogue.
///
/// Some catalogues (OpenRouter style) publish per-token prices; those are
/// carried along so the dashboard can prefill them.
pub fn read_catalogue(body: &Json) -> (r: Vec<DiscoveredModel>)
    ensures
        views::of(r@) == discovered(body@),
{
    let items = match body.at("data").list() {
        Some(items) => items,
        None => {
            return Vec::new();
        },
    };
    let ghost all = views::of(items@);
    let mut found: Vec<DiscoveredModel> = Vec::new();
    for i in 0..items.len()
        invariant
            all == views::of(items@),
            entries_from(all, 0, Seq::empty()) == entries_from(all, i as int, views::of(found@)),
    {
        assert(all[i as int] == items@[i as int]@);
        if let Some(id) = items[i].at("id").text() {
            found.push(DiscoveredModel { id: id.to_owned(), pricing: items[i].at("pricing").copied() });
        }
    }
    let mut rest = sort(found);
    let ghost list = views::of(rest@);
    let mut out: Vec<DiscoveredModel> = Vec::new();
    let ghost mut n: int = 0;
    while rest.len() > 0
        invariant
            0 <= n <= list.len(),
            views::of(rest@) == list.skip(n),
            distinct_from(list, 0, Seq::empty()) == distinct_from(list, n, views::of(out@)),
        decreases rest@.len(),
    {
        let ghost before = views::of(rest@);
        assert(before.len() == rest@.len());
        assert(before[0] == rest@[0]@);
        let m = rest.remove(0);
        assert(views::of(rest@) =~= before.skip(1));
        assert(list.skip(n).skip(1) =~= list.skip(n + 1));
        let k = out.len();
        assert(k > 0 ==> views::of(out@).last() == out@[k - 1]@);
        if !(k > 0 && same(out[k - 1].id.as_str(), m.id.as_str())) {
            out.push(m);
        }
        proof {
            n = n + 1;
        }
    }
    assert(views::of(rest@).len() == 0);
    out
}

/// A text without the slashes at its start.
pub open spec fn without_start_slashes(s: Seq<char>) -> Seq<char>
    decreases s.len(),
{
    if s.len() > 0 && s[0] == '/' {
        without_start_slashes(s.skip(1))
    } else {
        s
    }
}

fn trim_start_slashes(s: &str) -> (r: String)
    ensures
        r@ == without_start_slashes(s@),
{
    let chars = chars_of(s);
    let mut n: usize = 0;
    assert(chars@.skip(0) =~= s@);
    while n < chars.len() && chars[n] == '/'
        invariant
            n <= chars@.len(),
            without_start_slashes(s@) == without_start_slashes(chars@.skip(n as int)),
        decreases chars@.len() - n,
    {
        assert(chars@.skip(n as int).skip(1) =~= chars@.skip(n + 1));
        n = n + 1;
    }
    let r = string_of(&chars, n, chars.len());
    assert(r@ =~= chars@.skip(n as int));
    r
}

/// Where a provider tells its balance: a path under the base URL, unless the path
/// is a URL itself.
pub open spec fn balance_at(base_url: Seq<char>, path: Seq<char>) -> Seq<char> {
    if "http://"@.is_prefix_of(path) || "https://"@.is_prefix_of(path) {
        path
    } else {
        config::without_end_slashes(base_url) + "/"@ + without_start_slashes(path)
    }
}

/// Where a provider tells its balance.
///
/// Presets sometimes need an absolute URL: DeepSeek's balance hangs off the
/// API root while its chat endpoint lives under /v1.
pub fn balance_url(provider: &ProviderConfig, path: &str) -> (r: String)
    ensures
        r@ == balance_at(provider@.base_url, path@),
{
    if strip_prefix(path, "http://").is_some() || strip_prefix(path, "https://").is_some() {
        return path.to_owned();
    }
    let base = trim_end_slashes(provider.base_url.as_str());
    let rest = trim_start_slashes(path);
    concat3(base.as_str(), "/", rest.as_str())
}

// ---------------------------------------------------------------------- laws

/// Injecting the identity twice is injecting it once: a body that has it keeps its
/// system prompt as it is.
pub proof fn identity_is_injected_once(body: Tree, line: Seq<char>)
    requires
        body is Obj,
    ensures
        with_identity(with_identity(body, line), line) == with_identity(body, line),
        is_identified(with_identity(body, line).at("system"@)->0, line),
{
    let m = body->Obj_0;
    let block = text_part(line);
    assert(block.at("text"@).text() == Some(line)) by {
        reveal_strlit("type");
        reveal_strlit("text");
        assert("type"@ != "text"@) by {
            assert("type"@[1] == 'y');
            assert("text"@[1] == 'e');
        }
        reveal_with_fuel(json::find_from, 3);
    }
    if let Some(system) = body.at("system"@) {
        if !is_identified(system, line) {
            json::set_is_found(m, "system"@, Tree::Arr(identified(system, line)), "system"@);
            assert(identified(system, line)[0] == block);
        }
    } else {
        json::set_is_found(m, "system"@, Tree::Arr(Seq::empty().push(block)), "system"@);
        assert(Seq::empty().push(block)[0] == block);
    }
}

/// A text that is cut keeps its first characters and is never longer than asked for
/// and the ellipsis.
pub proof fn truncation_keeps_the_head(s: Seq<char>, max: int)
    requires
        0 <= max,
    ensures
        truncated(s, max).len() <= max + 1,
        s.len() <= max ==> truncated(s, max) == s,
        s.len() > max ==> truncated(s, max).take(max) == s.take(max),
{
    reveal_strlit("…");
    if s.len() > max {
        assert(truncated(s, max).take(max) =~= s.take(max));
    }
}

/// Handshakes end: the third failure is final whatever it is, and a failure that is
/// not transient is final at once.
pub proof fn handshakes_end(attempt: u32, e: ErrorV)
    ensures
        attempt >= 3 ==> after_failure(attempt, e) == Handshake::Fail,
        !is_transient(e) ==> after_failure(attempt, e) == Handshake::Fail,
{
}

/// The answer's limit is never above the model's own.
pub proof fn caps_hold(asked: Option<u32>, cap: u32)
    ensures
        capped(asked, Some(cap)) is Some,
        capped(asked, Some(cap))->0 <= cap,
{
}

} // verus!
