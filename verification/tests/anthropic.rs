use zroutery_core::error::Error;
use zroutery_core::ir::{
    ChatRequest, ContentBlock, Dialect, StopReason, StreamEvent, SystemPart, ToolChoice, Usage,
};
use zroutery_core::json::{self, Json};
use zroutery_core::protocol::anthropic::{
    decode_request, decode_response, encode_request, encode_response, AnthropicStreamEncoder,
    AnthropicStreamParser,
};
use zroutery_core::protocol::sse::{SseDecoder, SseFrame};
use zroutery_core::protocol::{StreamEncoder, StreamParser};

fn j(text: &str) -> Json {
    json::parse(text).unwrap()
}

fn get<'a>(v: &'a Json, path: &str) -> Option<&'a Json> {
    let mut at = v;
    for p in path.split('.') {
        at = match at {
            Json::Obj(list) => &list.iter().find(|(k, _)| k == p)?.1,
            Json::Arr(a) => a.get(p.parse::<usize>().ok()?)?,
            _ => return None,
        };
    }
    Some(at)
}

fn text(x: &str) -> Json {
    Json::Str(x.to_string())
}

fn frames_to_events(raw: &str, model: &str) -> Vec<StreamEvent> {
    let mut dec = SseDecoder::new();
    let mut parser = AnthropicStreamParser::new(model);
    let mut events = Vec::new();
    for f in dec.push(raw.as_bytes()) {
        events.extend(parser.push(&f).unwrap());
    }
    events.extend(parser.finish());
    events
}

#[test]
fn decodes_string_and_block_content() {
    let req = decode_request(j(r#"{
        "model": "sonnet-class",
        "max_tokens": 100,
        "system": "be brief",
        "messages": [
            {"role": "user", "content": "hi"},
            {"role": "assistant", "content": [{"type": "text", "text": "hello"}]}
        ]
    }"#))
    .unwrap();
    assert_eq!(req.model, "sonnet-class");
    assert_eq!(req.system, vec![SystemPart::new("be brief")]);
    assert_eq!(req.messages.len(), 2);
    assert_eq!(req.messages[0].content[0], ContentBlock::text("hi"));
    assert_eq!(req.max_tokens, Some(100));
    assert!(!req.stream);
}

#[test]
fn decodes_system_blocks_tools_and_thinking() {
    let req = decode_request(j(r#"{
        "model": "m",
        "system": [{"type": "text", "text": "a"}, {"type": "text", "text": "b"}],
        "messages": [{"role": "user", "content": "x"}],
        "tools": [{"name": "get_weather", "description": "d", "input_schema": {"type": "object"}}],
        "tool_choice": {"type": "tool", "name": "get_weather"},
        "thinking": {"type": "enabled", "budget_tokens": 1024},
        "metadata": {"user_id": "u1"},
        "top_k": 40,
        "stop_sequences": ["STOP"],
        "beta_flag": true
    }"#))
    .unwrap();
    assert_eq!(req.system, vec![SystemPart::new("a"), SystemPart::new("b")]);
    assert_eq!(req.tools[0].name, "get_weather");
    assert_eq!(
        req.tool_choice,
        Some(ToolChoice::Specific {
            name: "get_weather".into()
        })
    );
    assert_eq!(req.thinking.unwrap().budget_tokens, Some(1024));
    assert_eq!(req.metadata_user.as_deref(), Some("u1"));
    assert_eq!(req.top_k, Some(40));
    assert_eq!(req.stop_sequences, vec!["STOP"]);
    assert_eq!(req.passthrough.at("beta_flag").copied(), Some(Json::Bool(true)));
}

#[test]
fn decodes_tool_use_and_tool_result_round_trip() {
    let original = j(r#"{
        "model": "m",
        "max_tokens": 50,
        "messages": [
            {"role": "user", "content": "weather?"},
            {"role": "assistant", "content": [
                {"type": "thinking", "thinking": "hmm", "signature": "sig"},
                {"type": "tool_use", "id": "tu_1", "name": "get_weather", "input": {"city": "SH"}}
            ]},
            {"role": "user", "content": [
                {"type": "tool_result", "tool_use_id": "tu_1", "content": "sunny", "is_error": false}
            ]}
        ]
    }"#);
    let req = decode_request(original).unwrap();
    let encoded = encode_request(&req, "upstream-model").unwrap();
    assert_eq!(get(&encoded, "model"), Some(&text("upstream-model")));
    assert_eq!(get(&encoded, "messages.1.content.1.name"), Some(&text("get_weather")));
    assert_eq!(get(&encoded, "messages.1.content.0.signature"), Some(&text("sig")));
    assert_eq!(get(&encoded, "messages.2.content.0.content.0.text"), Some(&text("sunny")));
    // Re-decoding the encoded form yields the same IR.
    let again = decode_request(encoded).unwrap();
    assert_eq!(again.messages, req.messages);
}

#[test]
fn encode_request_fills_required_max_tokens() {
    let req = decode_request(j(r#"{"model": "m", "messages": []}"#)).unwrap();
    let body = encode_request(&req, "m").unwrap();
    assert_eq!(get(&body, "max_tokens"), Some(&Json::UInt(4096)));
    assert!(get(&body, "system").is_none());
}

#[test]
fn passthrough_is_not_leaked_across_dialects() {
    let mut req = ChatRequest::new("m", Dialect::OpenAI);
    req.passthrough.put("frequency_penalty", j("0.5"));
    let body = encode_request(&req, "m").unwrap();
    assert!(get(&body, "frequency_penalty").is_none());
}

#[test]
fn response_round_trip() {
    let body = j(r#"{
        "id": "msg_1",
        "type": "message",
        "role": "assistant",
        "model": "opus",
        "content": [{"type": "text", "text": "hi"}],
        "stop_reason": "end_turn",
        "stop_sequence": null,
        "usage": {"input_tokens": 10, "output_tokens": 3, "cache_read_input_tokens": 2}
    }"#);
    let resp = decode_response(body).unwrap();
    assert_eq!(resp.text(), "hi");
    assert_eq!(resp.stop_reason, StopReason::EndTurn);
    assert_eq!(resp.usage.input_tokens, 10);
    assert_eq!(resp.usage.cache_read_tokens, 2);
    let back = encode_response(&resp);
    assert_eq!(get(&back, "content.0.text"), Some(&text("hi")));
    assert_eq!(get(&back, "stop_reason"), Some(&text("end_turn")));
    assert_eq!(get(&back, "usage.input_tokens"), Some(&Json::UInt(10)));
}

#[test]
fn error_response_becomes_error() {
    let err = decode_response(j(
        r#"{"type": "error", "error": {"type": "overloaded_error", "message": "too busy"}}"#,
    ))
    .unwrap_err();
    assert!(err.to_string().contains("too busy"));
}

#[test]
fn parses_a_full_text_stream() {
    let raw = [
        "event: message_start\ndata: {\"type\":\"message_start\",\"message\":{\"id\":\"msg_9\",\"model\":\"anthropic-x\",\"usage\":{\"input_tokens\":7,\"output_tokens\":0}}}\n\n",
        "event: content_block_start\ndata: {\"type\":\"content_block_start\",\"index\":0,\"content_block\":{\"type\":\"text\",\"text\":\"\"}}\n\n",
        "event: ping\ndata: {\"type\":\"ping\"}\n\n",
        "event: content_block_delta\ndata: {\"type\":\"content_block_delta\",\"index\":0,\"delta\":{\"type\":\"text_delta\",\"text\":\"He\"}}\n\n",
        "event: content_block_delta\ndata: {\"type\":\"content_block_delta\",\"index\":0,\"delta\":{\"type\":\"text_delta\",\"text\":\"llo\"}}\n\n",
        "event: content_block_stop\ndata: {\"type\":\"content_block_stop\",\"index\":0}\n\n",
        "event: message_delta\ndata: {\"type\":\"message_delta\",\"delta\":{\"stop_reason\":\"end_turn\",\"stop_sequence\":null},\"usage\":{\"output_tokens\":5}}\n\n",
        "event: message_stop\ndata: {\"type\":\"message_stop\"}\n\n",
    ]
    .concat();
    let events = frames_to_events(&raw, "fallback");
    assert_eq!(
        events[0],
        StreamEvent::Start {
            id: "msg_9".into(),
            model: "anthropic-x".into(),
            usage: Usage {
                input_tokens: 7,
                ..Usage::default()
            }
        }
    );
    assert!(events.contains(&StreamEvent::Ping));
    assert!(events.contains(&StreamEvent::TextDelta {
        index: 0,
        text: "He".into()
    }));
    match events.last().unwrap() {
        StreamEvent::Stop {
            stop_reason, usage, ..
        } => {
            assert_eq!(*stop_reason, StopReason::EndTurn);
            assert_eq!(usage.input_tokens, 7);
            assert_eq!(usage.output_tokens, 5);
        }
        other => panic!("unexpected tail {other:?}"),
    }
}

#[test]
fn parses_thinking_and_tool_use_stream() {
    let raw = [
        "event: message_start\ndata: {\"type\":\"message_start\",\"message\":{\"id\":\"m\",\"model\":\"c\",\"usage\":{\"input_tokens\":1}}}\n\n",
        "event: content_block_start\ndata: {\"type\":\"content_block_start\",\"index\":0,\"content_block\":{\"type\":\"thinking\",\"thinking\":\"\"}}\n\n",
        "event: content_block_delta\ndata: {\"type\":\"content_block_delta\",\"index\":0,\"delta\":{\"type\":\"thinking_delta\",\"thinking\":\"plan\"}}\n\n",
        "event: content_block_delta\ndata: {\"type\":\"content_block_delta\",\"index\":0,\"delta\":{\"type\":\"signature_delta\",\"signature\":\"sig\"}}\n\n",
        "event: content_block_stop\ndata: {\"type\":\"content_block_stop\",\"index\":0}\n\n",
        "event: content_block_start\ndata: {\"type\":\"content_block_start\",\"index\":1,\"content_block\":{\"type\":\"tool_use\",\"id\":\"tu\",\"name\":\"fn\",\"input\":{}}}\n\n",
        "event: content_block_delta\ndata: {\"type\":\"content_block_delta\",\"index\":1,\"delta\":{\"type\":\"input_json_delta\",\"partial_json\":\"{\\\"a\\\":\"}}\n\n",
        "event: content_block_delta\ndata: {\"type\":\"content_block_delta\",\"index\":1,\"delta\":{\"type\":\"input_json_delta\",\"partial_json\":\"1}\"}}\n\n",
        "event: content_block_stop\ndata: {\"type\":\"content_block_stop\",\"index\":1}\n\n",
        "event: message_delta\ndata: {\"type\":\"message_delta\",\"delta\":{\"stop_reason\":\"tool_use\"},\"usage\":{\"output_tokens\":9}}\n\n",
    ]
    .concat();
    let events = frames_to_events(&raw, "c");
    assert!(events.contains(&StreamEvent::ThinkingDelta {
        index: 0,
        text: "plan".into()
    }));
    assert!(events.contains(&StreamEvent::ThinkingSignature {
        index: 0,
        signature: "sig".into()
    }));
    assert!(events.contains(&StreamEvent::ToolUseStart {
        index: 1,
        id: "tu".into(),
        name: "fn".into()
    }));
    assert!(events.contains(&StreamEvent::ToolUseDelta {
        index: 1,
        partial_json: "{\"a\":".into()
    }));
    assert!(matches!(
        events.last().unwrap(),
        StreamEvent::Stop {
            stop_reason: StopReason::ToolUse,
            ..
        }
    ));
}

#[test]
fn parser_closes_dangling_blocks_on_truncated_stream() {
    let raw = [
        "event: message_start\ndata: {\"type\":\"message_start\",\"message\":{\"id\":\"m\",\"model\":\"c\"}}\n\n",
        "event: content_block_start\ndata: {\"type\":\"content_block_start\",\"index\":0,\"content_block\":{\"type\":\"text\",\"text\":\"\"}}\n\n",
        "event: content_block_delta\ndata: {\"type\":\"content_block_delta\",\"index\":0,\"delta\":{\"type\":\"text_delta\",\"text\":\"partial\"}}\n\n",
    ]
    .concat();
    let events = frames_to_events(&raw, "c");
    assert_eq!(events[events.len() - 2], StreamEvent::BlockStop { index: 0 });
    assert!(matches!(
        events.last().unwrap(),
        StreamEvent::Stop {
            stop_reason: StopReason::Unknown,
            ..
        }
    ));
}

#[test]
fn stream_error_frame_surfaces_as_error() {
    let mut parser = AnthropicStreamParser::new("m");
    let frame = SseFrame {
        event: Some("error".into()),
        data: r#"{"type":"error","error":{"type":"overloaded_error","message":"busy"}}"#.into(),
    };
    assert!(parser.push(&frame).unwrap_err().to_string().contains("busy"));
}

#[test]
fn encoder_emits_block_lifecycle() {
    let mut enc = AnthropicStreamEncoder::new("m");
    let mut wire = String::new();
    for f in enc.encode(&StreamEvent::Start {
        id: "msg_1".into(),
        model: "gpt".into(),
        usage: Usage {
            input_tokens: 4,
            ..Usage::default()
        },
    }) {
        wire.push_str(&f.to_wire());
    }
    for f in enc.encode(&StreamEvent::TextDelta {
        index: 0,
        text: "hi".into(),
    }) {
        wire.push_str(&f.to_wire());
    }
    for f in enc.encode(&StreamEvent::TextDelta {
        index: 0,
        text: "!".into(),
    }) {
        wire.push_str(&f.to_wire());
    }
    for f in enc.encode(&StreamEvent::Stop {
        stop_reason: StopReason::EndTurn,
        stop_sequence: None,
        usage: Usage {
            input_tokens: 4,
            output_tokens: 2,
            ..Usage::default()
        },
    }) {
        wire.push_str(&f.to_wire());
    }
    assert!(enc.finish().is_empty(), "stop already terminated the stream");

    // Exactly one content_block_start for two deltas, and a clean shutdown.
    assert_eq!(wire.matches("event: content_block_start").count(), 1);
    assert_eq!(wire.matches("event: content_block_delta").count(), 2);
    assert_eq!(wire.matches("event: content_block_stop").count(), 1);
    assert!(wire.contains("event: message_start"));
    assert!(wire.contains("event: message_stop"));

    // And it re-parses into the same canonical events.
    let events = frames_to_events(&wire, "m");
    assert_eq!(
        events[0],
        StreamEvent::Start {
            id: "msg_1".into(),
            model: "gpt".into(),
            usage: Usage {
                input_tokens: 4,
                ..Usage::default()
            }
        }
    );
    assert_eq!(
        events[1],
        StreamEvent::TextDelta {
            index: 0,
            text: "hi".into()
        }
    );
    assert_eq!(
        events[2],
        StreamEvent::TextDelta {
            index: 0,
            text: "!".into()
        }
    );
    assert_eq!(events[3], StreamEvent::BlockStop { index: 0 });
}

#[test]
fn encoder_switches_block_kind_and_finishes_unterminated_streams() {
    let mut enc = AnthropicStreamEncoder::new("m");
    let mut wire = String::new();
    for ev in [
        StreamEvent::ThinkingDelta {
            index: 0,
            text: "think".into(),
        },
        StreamEvent::BlockStop { index: 0 },
        StreamEvent::TextDelta {
            index: 1,
            text: "answer".into(),
        },
    ] {
        for f in enc.encode(&ev) {
            wire.push_str(&f.to_wire());
        }
    }
    for f in enc.finish() {
        wire.push_str(&f.to_wire());
    }
    assert!(wire.contains("\"type\":\"thinking\""));
    assert!(wire.contains("thinking_delta"));
    assert_eq!(wire.matches("event: content_block_stop").count(), 2);
    assert!(wire.contains("event: message_stop"));
    let events = frames_to_events(&wire, "m");
    assert!(events.contains(&StreamEvent::ThinkingDelta {
        index: 0,
        text: "think".into()
    }));
    assert!(events.contains(&StreamEvent::TextDelta {
        index: 1,
        text: "answer".into()
    }));
}

#[test]
fn encoder_reports_errors_in_band() {
    let mut enc = AnthropicStreamEncoder::new("m");
    let frames = enc.error(&Error::Timeout(30));
    assert_eq!(frames[0].event.as_deref(), Some("error"));
    let v = frames[0].json().unwrap();
    assert_eq!(get(&v, "error.type"), Some(&text("timeout_error")));
}

#[test]
fn finishing_an_anthropic_stream_twice_adds_nothing() {
    let mut parser = AnthropicStreamParser::new("m");
    assert!(parser.finish().is_empty(), "nothing was started");
    let start = SseFrame {
        event: Some("message_start".into()),
        data: r#"{"type":"message_start","message":{"id":"m","model":"c"}}"#.into(),
    };
    parser.push(&start).unwrap();
    assert_eq!(parser.finish().len(), 1);
    assert!(parser.finish().is_empty());
    let mut enc = AnthropicStreamEncoder::new("m");
    assert!(!enc.finish().is_empty());
    assert!(enc.finish().is_empty());
}
