use zroutery_core::error::Error;
use zroutery_core::ir::{
    ContentBlock, Dialect, Role, StopReason, StreamEvent, SystemPart, ToolChoice, Usage,
};
use zroutery_core::json::{self, Json};
use zroutery_core::protocol::responses::{
    decode_request, decode_response, encode_request, encode_response, encode_response_at,
    ResponsesStreamEncoder, ResponsesStreamParser,
};
use zroutery_core::protocol::{stream_encoder, stream_parser, StreamEncoder, StreamParser};

fn j(text: &str) -> Json {
    json::parse(text).unwrap()
}

fn get<'a>(v: &'a Json, path: &str) -> Option<&'a Json> {
    let mut at = v;
    for p in path.split('.') {
        at = match at {
            Json::Obj(list) => &list.iter().find(|(k, _)| k == p)?.1,
            Json::Arr(a) => a.get(p.parse::<usize>().ok()?)?,
            _ => return None,
        };
    }
    Some(at)
}

fn text(x: &str) -> Json {
    Json::Str(x.to_string())
}

#[test]
fn responses_requests_are_decoded() {
    let req = decode_request(j(r#"{
        "model": "m",
        "instructions": "be brief",
        "input": [
            {"type": "message", "role": "user", "content": [{"type": "input_text", "text": "hi"}]},
            {"type": "function_call", "call_id": "c1", "name": "f", "arguments": "{\"a\":1}"},
            {"type": "function_call_output", "call_id": "c1", "output": "ok"}
        ],
        "max_output_tokens": 99,
        "tools": [{"type": "function", "name": "f"}, {"type": "function"}],
        "tool_choice": {"type": "function", "name": "f"},
        "reasoning": {"effort": "low"},
        "metadata": {"user": "u1"},
        "store": false
    }"#))
    .unwrap();
    assert_eq!(req.source_dialect, Dialect::OpenAIResponses);
    assert_eq!(req.system, vec![SystemPart::new("be brief")]);
    assert_eq!(req.messages[0].role, Role::User);
    assert_eq!(req.messages[0].content[0], ContentBlock::text("hi"));
    assert!(req
        .messages
        .iter()
        .any(|m| m.content.iter().any(|b| matches!(b, ContentBlock::ToolUse { .. }))));
    assert_eq!(req.max_tokens, Some(99));
    assert_eq!(req.tools.len(), 1);
    assert_eq!(req.tool_choice, Some(ToolChoice::Specific { name: "f".into() }));
    assert_eq!(req.thinking.unwrap().budget_tokens, Some(1024));
    assert_eq!(req.metadata_user.as_deref(), Some("u1"));
    assert_eq!(req.passthrough.at("store").flag(), Some(false));
    assert!(decode_request(j("{}")).is_err());
    assert!(decode_request(j("3")).is_err());
}

#[test]
fn responses_requests_survive_a_round_trip() {
    let req = decode_request(j(r#"{
        "model": "m",
        "instructions": "s",
        "input": [
            {"type": "message", "role": "user", "content": [{"type": "input_text", "text": "q"}]},
            {"type": "function_call", "call_id": "c1", "name": "f", "arguments": "{\"a\":1}"},
            {"type": "function_call_output", "call_id": "c1", "output": "ok"}
        ]
    }"#))
    .unwrap();
    let body = encode_request(&req, "up").unwrap();
    assert_eq!(get(&body, "model"), Some(&text("up")));
    let again = decode_request(body).unwrap();
    assert_eq!(again.messages, req.messages);
    assert_eq!(again.system, req.system);
}

#[test]
fn responses_answers_go_both_ways() {
    let body = j(r#"{
        "id": "r1", "model": "m", "status": "incomplete",
        "incomplete_details": {"reason": "content_filter"},
        "output": [
            {"type": "reasoning", "summary": [{"type": "summary_text", "text": "hm"}]},
            {"type": "message", "content": [{"type": "output_text", "text": "hi"}]},
            {"type": "function_call", "call_id": "c", "name": "f", "arguments": "not json"}
        ],
        "usage": {"input_tokens": 5, "output_tokens": 7, "input_tokens_details": {"cached_tokens": 2}}
    }"#);
    let resp = decode_response(body).unwrap();
    assert_eq!(resp.stop_reason, StopReason::MaxTokens);
    assert_eq!(resp.usage.cache_read_tokens, 2);
    assert_eq!(
        resp.content[2],
        ContentBlock::ToolUse {
            id: "c".into(),
            name: "f".into(),
            input: text("not json")
        }
    );
    let back = encode_response_at(&resp, 1234);
    assert_eq!(get(&back, "created_at"), Some(&Json::UInt(1234)));
    assert_eq!(get(&back, "status"), Some(&text("incomplete")));
    assert_eq!(get(&back, "incomplete_details.reason"), Some(&text("content_filter")));
    assert_eq!(get(&back, "output_text"), Some(&text("hi")));
    assert_eq!(get(&back, "usage.total_tokens"), Some(&Json::UInt(12)));
    let again = decode_response(back).unwrap();
    assert_eq!(again.content[1], resp.content[1]);
    assert_eq!(
        decode_response(j(r#"{"error": {}}"#)).unwrap_err(),
        Error::BadUpstreamPayload("unknown upstream error".into())
    );
    // Every clock has passed the first day of 2024.
    match get(&encode_response(&resp), "created_at") {
        Some(Json::UInt(t)) => assert!(*t > 1_704_067_200),
        other => panic!("unexpected {other:?}"),
    }
}

#[test]
fn responses_streams_survive_a_round_trip() {
    let mut enc = ResponsesStreamEncoder::new("m");
    let mut parser = ResponsesStreamParser::new("m");
    let mut got: Vec<StreamEvent> = Vec::new();
    let sent = vec![
        StreamEvent::Start {
            id: "resp_1".into(),
            model: "m".into(),
            usage: Usage::default(),
        },
        StreamEvent::TextDelta {
            index: 0,
            text: "hi".into(),
        },
        StreamEvent::BlockStop { index: 0 },
        StreamEvent::ToolUseStart {
            index: 1,
            id: "c1".into(),
            name: "f".into(),
        },
        StreamEvent::ToolUseDelta {
            index: 1,
            partial_json: "{}".into(),
        },
        StreamEvent::BlockStop { index: 1 },
        StreamEvent::Stop {
            stop_reason: StopReason::EndTurn,
            stop_sequence: None,
            usage: Usage {
                input_tokens: 3,
                output_tokens: 4,
                ..Usage::default()
            },
        },
    ];
    for event in &sent {
        for f in enc.encode(event) {
            got.extend(parser.push(&f).unwrap());
        }
    }
    for f in enc.finish() {
        got.extend(parser.push(&f).unwrap());
    }
    got.extend(parser.finish());
    assert!(matches!(got[0], StreamEvent::Start { .. }));
    assert!(got
        .iter()
        .any(|e| matches!(e, StreamEvent::TextDelta { text, .. } if text == "hi")));
    assert!(got
        .iter()
        .any(|e| matches!(e, StreamEvent::ToolUseStart { id, name, .. } if id == "c1" && name == "f")));
    let stops = got
        .iter()
        .filter(|e| matches!(e, StreamEvent::Stop { .. }))
        .count();
    assert_eq!(stops, 1);
    match got.last().unwrap() {
        StreamEvent::Stop { usage, .. } => {
            assert_eq!(usage.input_tokens, 3);
            assert_eq!(usage.output_tokens, 4);
        }
        other => panic!("unexpected {other:?}"),
    }
}

#[test]
fn fresh_response_ids_are_drawn() {
    let frames = || -> String {
        let mut enc = ResponsesStreamEncoder::new("m");
        let f = enc.encode(&StreamEvent::Stop {
            stop_reason: StopReason::EndTurn,
            stop_sequence: None,
            usage: Usage::default(),
        });
        f.iter().map(|f| f.data.as_str()).collect()
    };
    let (a, b) = (frames(), frames());
    assert!(a.contains("\"resp-"), "{a}");
    assert_ne!(a, b);
}

#[test]
fn every_dialect_can_be_streamed_into_every_other() {
    let dialects = [
        Dialect::Anthropic,
        Dialect::OpenAI,
        Dialect::OpenAIResponses,
        Dialect::Gemini,
    ];
    for from in dialects {
        for to in dialects {
            let mut source = stream_encoder(from, "m", true);
            let mut parser = stream_parser(from, "m");
            let mut sink = stream_encoder(to, "m", true);
            let mut check = stream_parser(to, "m");
            let events = [
                StreamEvent::Start {
                    id: "x".into(),
                    model: "m".into(),
                    usage: Usage::default(),
                },
                StreamEvent::TextDelta {
                    index: 0,
                    text: "hello".into(),
                },
                StreamEvent::BlockStop { index: 0 },
                StreamEvent::Stop {
                    stop_reason: StopReason::EndTurn,
                    stop_sequence: None,
                    usage: Usage::default(),
                },
            ];
            let mut said = String::new();
            let mut frames = Vec::new();
            for e in &events {
                frames.extend(source.encode(e));
            }
            frames.extend(source.finish());
            let mut middle = Vec::new();
            for f in &frames {
                middle.extend(parser.push(f).unwrap());
            }
            middle.extend(parser.finish());
            let mut out = Vec::new();
            for e in &middle {
                out.extend(sink.encode(e));
            }
            out.extend(sink.finish());
            for f in &out {
                for e in check.push(f).unwrap() {
                    if let StreamEvent::TextDelta { text, .. } = e {
                        said.push_str(&text);
                    }
                }
            }
            assert_eq!(said, "hello", "{from:?} to {to:?}");
        }
    }
}
