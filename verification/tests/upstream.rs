use zroutery_core::config::{ClientIdentity, ProviderConfig, ProviderKind};
use zroutery_core::error::Error;
use zroutery_core::ir::{ChatRequest, Dialect, Message, StopReason, StreamEvent};
use zroutery_core::json::{self, Json};
use zroutery_core::protocol::ProviderQuirks;
use zroutery_core::query::{RequestKind, SideQueryKind};
use zroutery_core::upstream::{
    after_handshake_failure, balance_url, build_headers, encode_for, encode_for_mode,
    encode_mode_for, is_transient_handshake_failure, prepend_claude_code_system_prompt, probe_body,
    read_answer, read_catalogue, read_json, truncate, upstream_error, EncodeMode, Handshake,
    StreamReader,
};

fn j(text: &str) -> Json {
    json::parse(text).unwrap()
}

fn get<'a>(v: &'a Json, path: &str) -> Option<&'a Json> {
    let mut at = v;
    for p in path.split('.') {
        at = match at {
            Json::Obj(list) => &list.iter().find(|(k, _)| k == p)?.1,
            Json::Arr(a) => a.get(p.parse::<usize>().ok()?)?,
            _ => return None,
        };
    }
    Some(at)
}

fn text(x: &str) -> Json {
    Json::Str(x.to_string())
}

fn provider(kind: ProviderKind) -> ProviderConfig {
    let mut p = ProviderConfig::new("p", "Test Provider", kind);
    p.timeout_secs = 5;
    p
}

const USER_AGENT: &str = "some-cli/2.1.217 (external, sdk-cli)";
const BETA: &str = "some-client-20250219";
const IDENTITY: &str = "You are the official CLI.";

fn client() -> ClientIdentity {
    ClientIdentity {
        user_agent: USER_AGENT.into(),
        beta: BETA.into(),
        system_line: IDENTITY.into(),
    }
}

fn impersonating() -> ProviderConfig {
    let mut p = provider(ProviderKind::Anthropic);
    p.impersonate_claude_code = true;
    p.client_identity = client();
    p
}

#[test]
fn anthropic_headers_use_x_api_key() {
    let mut p = provider(ProviderKind::Anthropic);
    p.impersonate_claude_code = false; // Disable impersonation for this test
    p.extra_headers
        .push(("anthropic-beta".into(), "output-128k".into()));
    let h = build_headers(&p, Some("sk-ant-1")).unwrap();
    assert_eq!(h.get("x-api-key").unwrap(), "sk-ant-1");
    assert_eq!(h.get("anthropic-version").unwrap(), "2023-06-01");
    assert_eq!(h.get("anthropic-beta").unwrap(), "output-128k");
    assert!(h.get("authorization").is_none());
}

#[test]
fn openai_headers_use_bearer_and_no_version() {
    let h = build_headers(&provider(ProviderKind::OpenAICompatible), Some("sk-1")).unwrap();
    assert_eq!(h.get("authorization").unwrap(), "Bearer sk-1");
    assert!(h.get("anthropic-version").is_none());
}

#[test]
fn missing_key_means_no_auth_header() {
    let h = build_headers(&provider(ProviderKind::OpenAICompatible), None).unwrap();
    assert!(h.get("authorization").is_none());
    let h = build_headers(&provider(ProviderKind::OpenAICompatible), Some("")).unwrap();
    assert!(h.get("authorization").is_none());
}

#[test]
fn custom_version_and_invalid_header_names() {
    let mut p = provider(ProviderKind::Anthropic);
    p.anthropic_version = Some("2024-10-22".into());
    assert_eq!(
        build_headers(&p, None)
            .unwrap()
            .get("anthropic-version")
            .unwrap(),
        "2024-10-22"
    );
    p.extra_headers.push(("bad header".into(), "v".into()));
    assert!(build_headers(&p, None).is_err());
}

#[test]
fn impersonate_claude_code_injects_clean_fingerprint() {
    let h = build_headers(&impersonating(), Some("sk-ant-1")).unwrap();

    // User-Agent must be the client's.
    assert_eq!(h.get("user-agent").unwrap(), USER_AGENT);

    // Core identity headers.
    assert_eq!(h.get("x-app").unwrap(), "cli");
    assert_eq!(
        h.get("anthropic-dangerous-direct-browser-access").unwrap(),
        "true"
    );

    // SDK-layer headers a real CLI never sends must stay absent.
    assert!(h.get("x-stainless-arch").is_none());
    assert!(h.get("x-stainless-package-version").is_none());
    assert!(h.get("x-client-request-id").is_none());

    // anthropic-beta must contain the client's marker
    let beta = h.get("anthropic-beta").unwrap().to_str().unwrap();
    assert!(beta.contains(BETA));

    // Auth header
    assert!(h.get("x-api-key").is_some());
}

#[test]
fn impersonate_claude_code_merges_existing_anthropic_beta() {
    let mut p = impersonating();
    p.extra_headers
        .push(("anthropic-beta".into(), "output-128k".into()));
    let h = build_headers(&p, Some("sk-ant-1")).unwrap();
    let beta = h.get("anthropic-beta").unwrap().to_str().unwrap();
    assert!(beta.contains(BETA));
    assert!(beta.contains("output-128k"));
}

#[test]
fn encode_for_applies_the_model_output_cap() {
    let mut req = ChatRequest::new("sonnet-class", Dialect::Anthropic);
    req.messages.push(Message::user_text("hi"));
    req.max_tokens = Some(64_000);

    let p = provider(ProviderKind::OpenAICompatible);
    let body = encode_for(&p, &req, "deepseek-v4-pro", Some(8192)).unwrap();
    assert_eq!(get(&body, "max_tokens"), Some(&Json::UInt(8192)));
    assert_eq!(get(&body, "model"), Some(&text("deepseek-v4-pro")));

    // No cap configured: the client value survives.
    let body = encode_for(&p, &req, "deepseek-v4-pro", None).unwrap();
    assert_eq!(get(&body, "max_tokens"), Some(&Json::UInt(64_000)));
}

#[test]
fn encode_for_respects_provider_quirks() {
    let mut req = ChatRequest::new("m", Dialect::OpenAI);
    req.messages.push(Message::user_text("hi"));
    req.max_tokens = Some(100);
    let mut p = provider(ProviderKind::OpenAICompatible);
    p.quirks = ProviderQuirks {
        use_max_completion_tokens: true,
        ..ProviderQuirks::default()
    };
    let body = encode_for(&p, &req, "gpt-5.3-sol", None).unwrap();
    assert_eq!(get(&body, "max_completion_tokens"), Some(&Json::UInt(100)));
}

#[test]
fn impersonation_injects_identity_even_without_a_system_prompt() {
    let mut req = ChatRequest::new("m", Dialect::Anthropic);
    req.messages.push(Message::user_text("hi"));
    let body = encode_for(&impersonating(), &req, "anthropic-sonnet-4-5", None).unwrap();
    assert_eq!(get(&body, "system.0.text"), Some(&text(IDENTITY)));
}

#[test]
fn truncate_keeps_utf8_intact() {
    assert_eq!(truncate("hello", 10), "hello");
    assert_eq!(truncate("中文测试内容", 3), "中文测…");
}

#[test]
fn the_identity_is_injected_once() {
    let mut body = j(r#"{"system": "be brief"}"#);
    prepend_claude_code_system_prompt(&mut body, IDENTITY);
    assert_eq!(get(&body, "system.0.text"), Some(&text(IDENTITY)));
    assert_eq!(get(&body, "system.1.text"), Some(&text("be brief")));
    let again = {
        let mut b = j(&json::render(&body));
        prepend_claude_code_system_prompt(&mut b, IDENTITY);
        b
    };
    assert_eq!(again, body);
}

#[test]
fn the_client_is_presented_word_for_word() {
    let h = build_headers(&impersonating(), None).unwrap();
    assert_eq!(h.get("user-agent").unwrap(), USER_AGENT);
    assert_eq!(h.get("anthropic-beta").unwrap(), BETA);
    let mut p = impersonating();
    p.extra_headers.push(("anthropic-beta".into(), "output-128k".into()));
    let h = build_headers(&p, None).unwrap();
    assert_eq!(h.get("anthropic-beta").unwrap(), "some-client-20250219,output-128k");
    // What asks for the feature already asks for it once.
    let mut p = impersonating();
    p.extra_headers.push(("anthropic-beta".into(), "a,some-client-20250219".into()));
    let h = build_headers(&p, None).unwrap();
    assert_eq!(h.get("anthropic-beta").unwrap(), "a,some-client-20250219");
}

#[test]
fn only_anthropic_bodies_get_the_identity() {
    let mut req = ChatRequest::new("m", Dialect::Anthropic);
    req.messages.push(Message::user_text("hi"));
    let mut p = provider(ProviderKind::OpenAICompatible);
    p.impersonate_claude_code = true;
    p.client_identity = client();
    let body = encode_for(&p, &req, "m", None).unwrap();
    assert!(get(&body, "system").is_none());
}

#[test]
fn bad_keys_and_values_are_refused() {
    let p = provider(ProviderKind::OpenAICompatible);
    assert_eq!(
        build_headers(&p, Some("a\nb")),
        Err(Error::Internal("API key contains invalid characters".into()))
    );
    let mut p = provider(ProviderKind::Anthropic);
    p.anthropic_version = Some("\u{7f}".into());
    assert_eq!(
        build_headers(&p, None),
        Err(Error::Internal("invalid anthropic-version".into()))
    );
    let mut p = impersonating();
    p.client_identity.user_agent = "a\rb".into();
    assert_eq!(
        build_headers(&p, None),
        Err(Error::Internal("invalid user-agent value".into()))
    );
    let mut p = provider(ProviderKind::OpenAICompatible);
    p.extra_headers.push(("X-One".into(), "1\n".into()));
    assert_eq!(
        build_headers(&p, None),
        Err(Error::Internal("invalid value for header `X-One`".into()))
    );
    p.extra_headers[0].1 = "1".into();
    assert_eq!(build_headers(&p, None).unwrap().get("x-one").unwrap(), "1");
}

#[test]
fn classifier_requests_keep_what_quirks_would_drop() {
    let mut req = ChatRequest::new("m", Dialect::OpenAI);
    req.messages.push(Message::user_text("hi"));
    req.stop_sequences.push("</block>".into());
    let mut p = provider(ProviderKind::OpenAICompatible);
    p.quirks = ProviderQuirks {
        drop_stop: true,
        ..ProviderQuirks::default()
    };
    let normal = encode_for_mode(&p, &req, "m", None, encode_mode_for(RequestKind::Main)).unwrap();
    assert!(get(&normal, "stop").is_none());
    let kind = RequestKind::Side(SideQueryKind::AutoMode);
    assert_eq!(encode_mode_for(kind), EncodeMode::Classifier);
    let faithful = encode_for_mode(&p, &req, "m", None, EncodeMode::Classifier).unwrap();
    assert_eq!(get(&faithful, "stop.0"), Some(&text("</block>")));
}

#[test]
fn errors_name_the_provider_and_cut_the_body() {
    let p = provider(ProviderKind::OpenAICompatible);
    match upstream_error("P", 429, &"x".repeat(5000)) {
        Error::Upstream { status, body: message, .. } => {
            assert_eq!(status, 429);
            assert!(message.chars().count() < 5000);
            assert!(message.ends_with('…'));
        }
        other => panic!("unexpected {other:?}"),
    }
    assert!(matches!(
        read_json("P", 500, "{}"),
        Err(Error::Upstream { status: 500, .. })
    ));
    assert!(matches!(read_json("P", 200, "nope"), Err(Error::BadUpstreamPayload(_))));
    assert_eq!(read_json("P", 200, "[1]"), Ok(j("[1]")));
    let answer = read_answer(
        &p,
        200,
        r#"{"id":"x","model":"m","choices":[{"index":0,"message":{"role":"assistant","content":"ok"},"finish_reason":"stop"}]}"#,
    )
    .unwrap();
    assert_eq!(answer.text(), "ok");
}

#[test]
fn handshakes_are_retried_a_few_times() {
    let down = Error::Upstream {
        status: 503,
        provider: "P".into(),
        body: "busy".into(),
    };
    assert!(is_transient_handshake_failure(&down));
    assert!(matches!(after_handshake_failure(1, &down), Handshake::Retry { .. }));
    assert!(matches!(after_handshake_failure(3, &down), Handshake::Fail));
    let refused = Error::Upstream {
        status: 405,
        provider: "P".into(),
        body: "no".into(),
    };
    assert!(matches!(after_handshake_failure(1, &refused), Handshake::Fail));
}

#[test]
fn a_stream_is_read_chunk_by_chunk() {
    let p = provider(ProviderKind::OpenAICompatible);
    let mut reader = StreamReader::new(&p, "m");
    let first = b"data: {\"id\":\"c\",\"model\":\"m\",\"choices\":[{\"index\":0,\"delta\":{\"content\":\"He";
    assert!(reader.on_chunk(first).is_none());
    assert!(reader.next_event().is_none());
    assert!(reader
        .on_chunk(b"llo\"},\"finish_reason\":null}]}\n\n")
        .is_none());
    assert!(matches!(reader.next_event(), Some(StreamEvent::Start { .. })));
    assert_eq!(
        reader.next_event(),
        Some(StreamEvent::TextDelta {
            index: 0,
            text: "Hello".into()
        })
    );
    reader.on_end();
    assert_eq!(reader.next_event(), Some(StreamEvent::BlockStop { index: 0 }));
    assert!(matches!(
        reader.next_event(),
        Some(StreamEvent::Stop {
            stop_reason: StopReason::Unknown,
            ..
        })
    ));
    assert!(reader.next_event().is_none());
}

#[test]
fn a_stream_that_stalls_times_out() {
    let mut reader = StreamReader::new(&provider(ProviderKind::Anthropic), "m");
    assert_eq!(reader.on_timeout(), Error::Timeout(5));
    assert!(reader.done);
    let mut reader = StreamReader::new(&provider(ProviderKind::Anthropic), "m");
    assert!(matches!(
        reader.on_transport_error("reset".into()),
        Error::Transport { .. }
    ));
    assert!(reader.done);
}

#[test]
fn catalogues_are_read_sorted_and_once() {
    let models = read_catalogue(&j(
        r#"{"data": [{"id": "b"}, {"id": "a", "pricing": {"prompt": "1"}}, {"name": "nameless"}, {"id": "b"}]}"#,
    ));
    let ids: Vec<&str> = models.iter().map(|m| m.id.as_str()).collect();
    assert_eq!(ids, vec!["a", "b"]);
    assert!(models[0].pricing.is_some());
}

#[test]
fn probes_and_urls() {
    let mut p = provider(ProviderKind::OpenAICompatible);
    p.base_url = "https://api.example.com/v1//".into();
    assert_eq!(p.chat_url(), "https://api.example.com/v1/chat/completions");
    assert_eq!(p.models_url(), "https://api.example.com/v1/models");
    assert!(balance_url(&p, "/user/balance").starts_with("https://api.example.com"));
    let body = probe_body(&p, "m").unwrap();
    assert_eq!(get(&body, "model"), Some(&text("m")));
}
