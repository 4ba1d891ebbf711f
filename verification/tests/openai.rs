use zroutery_core::error::Error;
use zroutery_core::ir::{
    ChatRequest, ContentBlock, Dialect, MediaSource, Message, Role, StopReason, StreamEvent,
    SystemPart, ThinkingConfig, ToolChoice, UnsupportedContentPolicy, Usage,
};
use zroutery_core::json::{self, Json};
use zroutery_core::protocol::anthropic;
use zroutery_core::protocol::openai::{
    decode_request, decode_response, encode_request, encode_request_with, encode_response,
    OpenAiStreamEncoder, OpenAiStreamParser,
};
use zroutery_core::protocol::sse::{SseDecoder, SseFrame};
use zroutery_core::protocol::{ProviderQuirks, StreamEncoder, StreamParser};

fn j(text: &str) -> Json {
    json::parse(text).unwrap()
}

fn get<'a>(v: &'a Json, path: &str) -> Option<&'a Json> {
    let mut at = v;
    for p in path.split('.') {
        at = match at {
            Json::Obj(list) => &list.iter().find(|(k, _)| k == p)?.1,
            Json::Arr(a) => a.get(p.parse::<usize>().ok()?)?,
            _ => return None,
        };
    }
    Some(at)
}

fn text(x: &str) -> Json {
    Json::Str(x.to_string())
}

fn parse(raw: &str) -> Vec<StreamEvent> {
    let mut dec = SseDecoder::new();
    let mut parser = OpenAiStreamParser::new("fallback");
    let mut events = Vec::new();
    for f in dec.push(raw.as_bytes()) {
        events.extend(parser.push(&f).unwrap());
    }
    events.extend(parser.finish());
    events
}

fn chunk(delta: &str) -> String {
    format!(
        "data: {{\"id\":\"chatcmpl-1\",\"object\":\"chat.completion.chunk\",\"model\":\"deepseek-v4-pro\",\"choices\":[{{\"index\":0,\"delta\":{delta},\"finish_reason\":null}}]}}\n\n"
    )
}

#[test]
fn decodes_system_user_and_tool_history() {
    let req = decode_request(j(r#"{
        "model": "gpt-5.3-sol",
        "messages": [
            {"role": "system", "content": "be nice"},
            {"role": "user", "content": "weather?"},
            {"role": "assistant", "content": null, "tool_calls": [
                {"id": "call_1", "type": "function",
                 "function": {"name": "get_weather", "arguments": "{\"city\":\"SH\"}"}}
            ]},
            {"role": "tool", "tool_call_id": "call_1", "content": "sunny"},
            {"role": "user", "content": "thanks"}
        ],
        "max_completion_tokens": 256,
        "stop": "END",
        "tools": [{"type": "function", "function": {"name": "get_weather", "parameters": {"type": "object"}}}],
        "tool_choice": "required",
        "reasoning_effort": "high",
        "user": "u9"
    }"#))
    .unwrap();

    assert_eq!(req.system, vec![SystemPart::new("be nice")]);
    assert_eq!(req.max_tokens, Some(256));
    assert_eq!(req.stop_sequences, vec!["END"]);
    assert_eq!(req.tool_choice, Some(ToolChoice::Any));
    assert_eq!(req.thinking.unwrap().budget_tokens, Some(16384));
    assert_eq!(req.metadata_user.as_deref(), Some("u9"));
    assert_eq!(req.messages.len(), 4);
    assert!(matches!(req.messages[1].content[0], ContentBlock::ToolUse { .. }));
    assert!(matches!(req.messages[2].content[0], ContentBlock::ToolResult { .. }));
    assert_eq!(req.messages[3].content[0], ContentBlock::text("thanks"));
}

#[test]
fn decodes_multimodal_user_content() {
    let req = decode_request(j(r#"{
        "model": "m",
        "messages": [{"role": "user", "content": [
            {"type": "text", "text": "what is this"},
            {"type": "image_url", "image_url": {"url": "data:image/png;base64,QQ=="}}
        ]}]
    }"#))
    .unwrap();
    assert_eq!(req.messages[0].content.len(), 2);
    assert_eq!(
        req.messages[0].content[1],
        ContentBlock::Image {
            source: MediaSource::Base64 {
                media_type: "image/png".into(),
                data: "QQ==".into()
            }
        }
    );
}

#[test]
fn tool_history_round_trips_back_to_openai_shape() {
    let original = j(r#"{
        "model": "m",
        "messages": [
            {"role": "system", "content": "s"},
            {"role": "user", "content": "q"},
            {"role": "assistant", "content": null, "tool_calls": [
                {"id": "call_1", "type": "function",
                 "function": {"name": "f", "arguments": "{\"a\":1}"}}
            ]},
            {"role": "tool", "tool_call_id": "call_1", "content": "ok"}
        ]
    }"#);
    let req = decode_request(original).unwrap();
    let body = encode_request(&req, "up").unwrap();
    assert_eq!(get(&body, "messages.0.role"), Some(&text("system")));
    assert_eq!(get(&body, "messages.1.role"), Some(&text("user")));
    assert_eq!(get(&body, "messages.2.role"), Some(&text("assistant")));
    assert_eq!(get(&body, "messages.2.content"), Some(&Json::Null));
    assert_eq!(
        get(&body, "messages.2.tool_calls.0.function.arguments"),
        Some(&text("{\"a\":1}"))
    );
    assert_eq!(get(&body, "messages.3.role"), Some(&text("tool")));
    assert_eq!(get(&body, "messages.3.tool_call_id"), Some(&text("call_1")));
    assert_eq!(get(&body, "messages.3.content"), Some(&text("ok")));
    // and again through the decoder
    let again = decode_request(body).unwrap();
    assert_eq!(again.messages, req.messages);
    assert_eq!(again.system, req.system);
}

#[test]
fn quirks_control_parameter_names() {
    let req = decode_request(j(r#"{
        "model": "m",
        "messages": [{"role": "user", "content": "hi"}],
        "max_tokens": 10,
        "temperature": 0.7,
        "stop": ["x"],
        "stream": true
    }"#))
    .unwrap();

    let plain = encode_request(&req, "up").unwrap();
    assert_eq!(get(&plain, "max_tokens"), Some(&Json::UInt(10)));
    assert_eq!(get(&plain, "temperature"), Some(&j("0.7")));
    assert_eq!(
        json::render(get(&plain, "temperature").unwrap()),
        "0.7",
        "no float noise on the wire"
    );
    assert_eq!(get(&plain, "stream_options.include_usage"), Some(&Json::Bool(true)));

    let strict = ProviderQuirks {
        use_max_completion_tokens: true,
        drop_temperature: true,
        drop_stop: true,
        stream_usage: false,
        system_as_developer: true,
        ..ProviderQuirks::default()
    };
    let body = encode_request_with(&req, "up", &strict).unwrap();
    assert_eq!(get(&body, "max_completion_tokens"), Some(&Json::UInt(10)));
    assert!(get(&body, "max_tokens").is_none());
    assert!(get(&body, "temperature").is_none());
    assert!(get(&body, "stop").is_none());
    assert!(get(&body, "stream_options").is_none());
}

#[test]
fn thinking_maps_to_reasoning_effort_only_when_supported() {
    let mut req = ChatRequest::new("m", Dialect::Anthropic);
    req.thinking = Some(ThinkingConfig {
        enabled: true,
        budget_tokens: Some(20000),
    });
    assert!(get(&encode_request(&req, "up").unwrap(), "reasoning_effort").is_none());
    let quirks = ProviderQuirks {
        send_reasoning_effort: true,
        ..ProviderQuirks::default()
    };
    assert_eq!(
        get(&encode_request_with(&req, "up", &quirks).unwrap(), "reasoning_effort"),
        Some(&text("high"))
    );
}

#[test]
fn response_with_reasoning_and_tool_calls() {
    let resp = decode_response(j(r#"{
        "id": "chatcmpl-9",
        "model": "deepseek-v4-pro",
        "choices": [{
            "index": 0,
            "message": {
                "role": "assistant",
                "content": "here you go",
                "reasoning_content": "let me think",
                "tool_calls": [{"id": "call_1", "type": "function",
                                "function": {"name": "f", "arguments": "{}"}}]
            },
            "finish_reason": "tool_calls"
        }],
        "usage": {"prompt_tokens": 12, "completion_tokens": 34,
                  "prompt_tokens_details": {"cached_tokens": 5},
                  "completion_tokens_details": {"reasoning_tokens": 7}}
    }"#))
    .unwrap();

    assert_eq!(resp.stop_reason, StopReason::ToolUse);
    assert!(matches!(resp.content[0], ContentBlock::Thinking { .. }));
    assert_eq!(resp.content[1], ContentBlock::text("here you go"));
    assert!(matches!(resp.content[2], ContentBlock::ToolUse { .. }));
    assert_eq!(resp.usage.input_tokens, 12);
    assert_eq!(resp.usage.cache_read_tokens, 5);
    assert_eq!(resp.usage.reasoning_tokens, 7);

    let back = encode_response(&resp);
    assert_eq!(get(&back, "choices.0.message.content"), Some(&text("here you go")));
    assert_eq!(
        get(&back, "choices.0.message.reasoning_content"),
        Some(&text("let me think"))
    );
    assert_eq!(get(&back, "choices.0.finish_reason"), Some(&text("tool_calls")));
    assert_eq!(get(&back, "usage.total_tokens"), Some(&Json::UInt(46)));
}

#[test]
fn deepseek_cache_hit_field_is_understood() {
    let resp = decode_response(j(r#"{
        "id": "x", "model": "m",
        "choices": [{"index": 0, "message": {"role": "assistant", "content": "ok"}, "finish_reason": "stop"}],
        "usage": {"prompt_tokens": 100, "completion_tokens": 1, "prompt_cache_hit_tokens": 64}
    }"#))
    .unwrap();
    assert_eq!(resp.usage.cache_read_tokens, 64);
}

#[test]
fn parses_text_stream_with_usage_trailer() {
    let finish = r#"{"id":"chatcmpl-1","model":"deepseek-v4-pro","choices":[{"index":0,"delta":{},"finish_reason":"stop"}]}"#;
    let trailer = r#"{"id":"chatcmpl-1","model":"deepseek-v4-pro","choices":[],"usage":{"prompt_tokens":9,"completion_tokens":2}}"#;
    let raw = format!(
        "{}{}{}data: {finish}\n\ndata: {trailer}\n\ndata: [DONE]\n\n",
        chunk(r#"{"role": "assistant", "content": ""}"#),
        chunk(r#"{"content": "Hel"}"#),
        chunk(r#"{"content": "lo"}"#),
    );
    let events = parse(&raw);
    assert_eq!(
        events[0],
        StreamEvent::Start {
            id: "chatcmpl-1".into(),
            model: "deepseek-v4-pro".into(),
            usage: Usage::default()
        }
    );
    assert_eq!(
        events[1],
        StreamEvent::TextDelta {
            index: 0,
            text: "Hel".into()
        }
    );
    assert_eq!(
        events[2],
        StreamEvent::TextDelta {
            index: 0,
            text: "lo".into()
        }
    );
    assert_eq!(events[3], StreamEvent::BlockStop { index: 0 });
    match &events[4] {
        StreamEvent::Stop {
            stop_reason, usage, ..
        } => {
            assert_eq!(*stop_reason, StopReason::EndTurn);
            assert_eq!(usage.input_tokens, 9);
            assert_eq!(usage.output_tokens, 2);
        }
        other => panic!("unexpected {other:?}"),
    }
    assert_eq!(events.len(), 5, "no duplicate stop after [DONE]");
}

#[test]
fn reasoning_then_text_opens_two_blocks() {
    let raw = format!(
        "{}{}{}",
        chunk(r#"{"reasoning_content": "думаю"}"#),
        chunk(r#"{"content": "answer"}"#),
        "data: [DONE]\n\n"
    );
    let events = parse(&raw);
    assert_eq!(
        events[1],
        StreamEvent::ThinkingDelta {
            index: 0,
            text: "думаю".into()
        }
    );
    assert_eq!(events[2], StreamEvent::BlockStop { index: 0 });
    assert_eq!(
        events[3],
        StreamEvent::TextDelta {
            index: 1,
            text: "answer".into()
        }
    );
    assert!(matches!(events.last().unwrap(), StreamEvent::Stop { .. }));
}

#[test]
fn parses_incremental_tool_calls() {
    let raw = format!(
        "{}{}{}{}{}",
        chunk(
            r#"{"tool_calls": [{"index": 0, "id": "call_1", "type": "function", "function": {"name": "get_weather", "arguments": ""}}]}"#
        ),
        chunk(r#"{"tool_calls": [{"index": 0, "function": {"arguments": "{\"ci"}}]}"#),
        chunk(r#"{"tool_calls": [{"index": 0, "function": {"arguments": "ty\":1}"}}]}"#),
        chunk(
            r#"{"tool_calls": [{"index": 1, "id": "call_2", "type": "function", "function": {"name": "other", "arguments": "{}"}}]}"#
        ),
        "data: [DONE]\n\n"
    );
    let events = parse(&raw);
    assert_eq!(
        events[1],
        StreamEvent::ToolUseStart {
            index: 0,
            id: "call_1".into(),
            name: "get_weather".into()
        }
    );
    assert_eq!(
        events[2],
        StreamEvent::ToolUseDelta {
            index: 0,
            partial_json: "{\"ci".into()
        }
    );
    assert_eq!(
        events[3],
        StreamEvent::ToolUseDelta {
            index: 0,
            partial_json: "ty\":1}".into()
        }
    );
    assert_eq!(events[4], StreamEvent::BlockStop { index: 0 });
    assert_eq!(
        events[5],
        StreamEvent::ToolUseStart {
            index: 1,
            id: "call_2".into(),
            name: "other".into()
        }
    );
}

#[test]
fn truncated_stream_still_stops() {
    let events = parse(&chunk(r#"{"content": "partial"}"#));
    assert_eq!(
        events[1],
        StreamEvent::TextDelta {
            index: 0,
            text: "partial".into()
        }
    );
    assert_eq!(events[2], StreamEvent::BlockStop { index: 0 });
    assert!(matches!(
        events[3],
        StreamEvent::Stop {
            stop_reason: StopReason::Unknown,
            ..
        }
    ));
}

#[test]
fn stream_error_payload_surfaces() {
    let mut p = OpenAiStreamParser::new("m");
    let f = SseFrame {
        event: None,
        data: r#"{"error":{"message":"rate limited","type":"rate_limit_error"}}"#.into(),
    };
    assert!(p.push(&f).unwrap_err().to_string().contains("rate limited"));
}

#[test]
fn encoder_emits_valid_chunk_sequence() {
    let mut enc = OpenAiStreamEncoder::new("sonnet-class").with_usage(true);
    let mut wire = String::new();
    for ev in [
        StreamEvent::Start {
            id: "msg_1".into(),
            model: "sonnet-class".into(),
            usage: Usage {
                input_tokens: 3,
                ..Usage::default()
            },
        },
        StreamEvent::ThinkingDelta {
            index: 0,
            text: "think".into(),
        },
        StreamEvent::BlockStop { index: 0 },
        StreamEvent::TextDelta {
            index: 1,
            text: "hi".into(),
        },
        StreamEvent::Stop {
            stop_reason: StopReason::EndTurn,
            stop_sequence: None,
            usage: Usage {
                input_tokens: 3,
                output_tokens: 2,
                ..Usage::default()
            },
        },
    ] {
        for f in enc.encode(&ev) {
            wire.push_str(&f.to_wire());
        }
    }
    assert!(enc.finish().is_empty());
    assert!(wire.ends_with("data: [DONE]\n\n"));
    assert!(wire.contains("\"reasoning_content\":\"think\""));
    assert!(wire.contains("\"finish_reason\":\"stop\""));
    assert!(wire.contains("\"prompt_tokens\":3"));
    // role, reasoning, text, finish, usage
    assert_eq!(wire.matches("chatcmpl-msg_1").count(), 5);

    // Feeding our own output back through the parser is lossless for text.
    let events = parse(&wire);
    assert!(events.contains(&StreamEvent::ThinkingDelta {
        index: 0,
        text: "think".into()
    }));
    assert!(events.contains(&StreamEvent::TextDelta {
        index: 1,
        text: "hi".into()
    }));
}

#[test]
fn encoder_maps_block_indices_to_tool_call_slots() {
    let mut enc = OpenAiStreamEncoder::new("m");
    let mut wire = String::new();
    for ev in [
        StreamEvent::ToolUseStart {
            index: 3,
            id: "a".into(),
            name: "fa".into(),
        },
        StreamEvent::ToolUseStart {
            index: 7,
            id: "b".into(),
            name: "fb".into(),
        },
        StreamEvent::ToolUseDelta {
            index: 7,
            partial_json: "{}".into(),
        },
    ] {
        for f in enc.encode(&ev) {
            wire.push_str(&f.to_wire());
        }
    }
    assert!(wire.contains("\"index\":0,\"id\":\"a\""));
    assert!(wire.contains("\"index\":1,\"id\":\"b\""));
    // the delta for block 7 reuses slot 1
    assert_eq!(wire.matches("\"index\":1").count(), 2);
}

#[test]
fn encoder_without_usage_option_omits_the_trailer() {
    let mut enc = OpenAiStreamEncoder::new("m");
    let frames = enc.encode(&StreamEvent::Stop {
        stop_reason: StopReason::MaxTokens,
        stop_sequence: None,
        usage: Usage {
            output_tokens: 5,
            ..Usage::default()
        },
    });
    let wire: String = frames.iter().map(|f| f.to_wire()).collect();
    assert!(!wire.contains("prompt_tokens"));
    assert!(wire.contains("\"finish_reason\":\"length\""));
}

#[test]
fn error_frames_terminate_the_stream() {
    let mut enc = OpenAiStreamEncoder::new("m");
    let frames = enc.error(&Error::Unauthorized);
    assert!(frames[0].data.contains("authentication_error"));
    assert_eq!(frames[1].data, "[DONE]");
}

#[test]
fn assistant_reasoning_content_survives_the_ir_round_trip() {
    let req = decode_request(j(r#"{
        "model": "deepseek-v4-flash",
        "messages": [
            {"role": "user", "content": "hi"},
            {"role": "assistant", "content": "hello", "reasoning_content": "thinking hard"},
            {"role": "assistant", "content": null, "tool_calls": [
                {"id": "call_1", "type": "function",
                 "function": {"name": "ls", "arguments": "{}"}}
            ], "reasoning_content": "need to list"},
            {"role": "tool", "tool_call_id": "call_1", "content": "a.txt"}
        ]
    }"#))
    .unwrap();
    let body = encode_request(&req, "deepseek-v4-flash").unwrap();

    // Plain assistant text turn keeps its reasoning.
    assert_eq!(get(&body, "messages.1.role"), Some(&text("assistant")));
    assert_eq!(get(&body, "messages.1.reasoning_content"), Some(&text("thinking hard")));
    assert_eq!(get(&body, "messages.1.content"), Some(&text("hello")));

    // Tool-call turn keeps both reasoning and the calls.
    assert_eq!(get(&body, "messages.2.reasoning_content"), Some(&text("need to list")));
    assert!(matches!(get(&body, "messages.2.tool_calls"), Some(Json::Arr(_))));

    // Tool result round-trips with its call id.
    assert_eq!(get(&body, "messages.3.role"), Some(&text("tool")));
    assert_eq!(get(&body, "messages.3.tool_call_id"), Some(&text("call_1")));
}

#[test]
fn anthropic_sourced_thinking_is_not_echoed_as_reasoning_content() {
    let mut req = decode_request(j(r#"{
        "model": "m",
        "messages": [{"role": "user", "content": "hi"}]
    }"#))
    .unwrap();
    req.source_dialect = Dialect::Anthropic;
    req.messages.push(Message {
        role: Role::Assistant,
        content: vec![
            ContentBlock::Thinking {
                text: "chain of thought".into(),
                signature: Some("sig".into()),
            },
            ContentBlock::text("answer"),
        ],
    });
    let body = encode_request(&req, "m").unwrap();
    assert!(get(&body, "messages.1.reasoning_content").is_none());
    assert_eq!(get(&body, "messages.1.content"), Some(&text("answer")));
}

#[test]
fn unnamed_tool_calls_get_fresh_ids() {
    let resp = decode_response(j(r#"{
        "id": "x", "model": "m",
        "choices": [{"index": 0, "message": {"role": "assistant", "content": null,
            "tool_calls": [{"type": "function", "function": {"name": "f", "arguments": "{}"}}]},
            "finish_reason": "tool_calls"}]
    }"#))
    .unwrap();
    match &resp.content[0] {
        ContentBlock::ToolUse { id, name, .. } => {
            assert!(id.starts_with("call_"), "{id}");
            assert_eq!(id.len(), "call_".len() + 32);
            assert_eq!(name, "f");
        }
        other => panic!("unexpected {other:?}"),
    }
}

#[test]
fn audio_is_left_out_where_the_target_cannot_carry_it() {
    let mut req = decode_request(j(r#"{
        "model": "m",
        "messages": [{"role": "user", "content": [
            {"type": "text", "text": "listen"},
            {"type": "input_audio", "input_audio": {"data": "QQ==", "format": "wav"}}
        ]}]
    }"#))
    .unwrap();
    assert_eq!(req.messages[0].content.len(), 2);
    let sent = |req: &ChatRequest| match get(&anthropic::encode_request(req, "up").unwrap(), "messages.0.content") {
        Some(Json::Arr(parts)) => parts.clone(),
        other => panic!("{other:?}"),
    };
    assert_eq!(sent(&req).len(), 1);
    req.unsupported_content_policy = UnsupportedContentPolicy::Placeholder;
    assert_eq!(get(&sent(&req)[1], "text"), Some(&text("[audio]")));
    req.unsupported_content_policy = UnsupportedContentPolicy::Reject;
    assert!(matches!(anthropic::encode_request(&req, "up"), Err(Error::InvalidRequest(_))));
}
