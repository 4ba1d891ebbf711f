//! What is written and read again.

use zroutery_core::ir::{
    ChatRequest, ChatResponse, ContentBlock, Dialect, StopReason, StreamEvent, ThinkingConfig, Usage,
};
use zroutery_core::json::{self, Fields, Json};
use zroutery_core::protocol::anthropic::{self, AnthropicStreamEncoder, AnthropicStreamParser};
use zroutery_core::protocol::openai::{
    self, decode_response_with, encode_response_at, OpenAiStreamEncoder, OpenAiStreamParser,
};
use zroutery_core::protocol::{gemini, responses, ProviderQuirks, StreamEncoder, StreamParser};

fn counts(input: u32, output: u32) -> Usage {
    Usage {
        input_tokens: input,
        output_tokens: output,
        ..Usage::default()
    }
}

/// What a reader is told of what a writer puts out.
fn told(enc: &mut impl StreamEncoder, dec: &mut impl StreamParser, ev: &StreamEvent) -> Vec<StreamEvent> {
    let mut out = Vec::new();
    for f in enc.encode(ev) {
        out.extend(dec.push(&f).unwrap());
    }
    out
}

#[test]
fn an_openai_answer_comes_back_in_groups() {
    let input = json::parse(r#"{"city":"Oslo"}"#).unwrap();
    let resp = ChatResponse {
        id: "chatcmpl-1".into(),
        model: "m".into(),
        content: vec![
            ContentBlock::text("one "),
            ContentBlock::Thinking {
                text: "hm".into(),
                signature: Some("sig".into()),
            },
            ContentBlock::ToolUse {
                id: "call_7".into(),
                name: "weather".into(),
                input: input.clone(),
            },
            ContentBlock::text("two"),
        ],
        stop_reason: StopReason::StopSequence,
        stop_sequence: Some("END".into()),
        usage: Usage {
            input_tokens: 9,
            output_tokens: 4,
            cache_read_tokens: 2,
            cache_write_tokens: 1,
            reasoning_tokens: 3,
        },
        passthrough: Fields::new(),
    };
    let back = decode_response_with(&encode_response_at(&resp, 1_700_000_000), &vec![]).unwrap();
    assert_eq!(back.id, "chatcmpl-1");
    assert_eq!(back.model, "m");
    assert_eq!(
        back.content,
        vec![
            ContentBlock::Thinking {
                text: "hm".into(),
                signature: None,
            },
            ContentBlock::text("one two"),
            ContentBlock::ToolUse {
                id: "call_7".into(),
                name: "weather".into(),
                input,
            },
        ]
    );
    assert_eq!(back.stop_reason, StopReason::EndTurn);
    assert_eq!(back.stop_sequence, None);
    assert_eq!(
        back.usage,
        Usage {
            cache_write_tokens: 0,
            ..resp.usage
        }
    );
}

#[test]
fn an_anthropic_stream_tells_a_reader_every_event() {
    let mut enc = AnthropicStreamEncoder::new("m");
    let mut dec = AnthropicStreamParser::new("m");
    let events = [
        StreamEvent::Start {
            id: "msg_1".into(),
            model: "m".into(),
            usage: counts(3, 0),
        },
        StreamEvent::ThinkingDelta {
            index: 0,
            text: "hm".into(),
        },
        StreamEvent::ThinkingSignature {
            index: 0,
            signature: "sig".into(),
        },
        StreamEvent::BlockStop { index: 0 },
        StreamEvent::Ping,
        StreamEvent::TextDelta {
            index: 1,
            text: "\"quoted\"\nline".into(),
        },
        StreamEvent::BlockStop { index: 1 },
        StreamEvent::ToolUseStart {
            index: 2,
            id: "toolu_1".into(),
            name: "weather".into(),
        },
        StreamEvent::ToolUseDelta {
            index: 2,
            partial_json: "{\"city\":".into(),
        },
        StreamEvent::BlockStop { index: 2 },
        StreamEvent::Stop {
            stop_reason: StopReason::ToolUse,
            stop_sequence: None,
            usage: counts(3, 8),
        },
    ];
    for ev in &events {
        assert_eq!(told(&mut enc, &mut dec, ev), vec![ev.clone()]);
    }
    assert!(dec.finish().is_empty());
}

#[test]
fn an_anthropic_block_that_changes_its_kind_is_closed_for_the_reader() {
    let mut enc = AnthropicStreamEncoder::starting("m", "msg_9".into());
    let mut dec = AnthropicStreamParser::new("other");
    let hm = StreamEvent::ThinkingDelta {
        index: 0,
        text: "hm".into(),
    };
    let hi = StreamEvent::TextDelta {
        index: 0,
        text: "hi".into(),
    };
    let start = StreamEvent::Start {
        id: "msg_9".into(),
        model: "m".into(),
        usage: Usage::default(),
    };
    assert_eq!(told(&mut enc, &mut dec, &hm), vec![start, hm.clone()]);
    assert_eq!(
        told(&mut enc, &mut dec, &hi),
        vec![StreamEvent::BlockStop { index: 0 }, hi.clone()]
    );
    let stop = StreamEvent::Stop {
        stop_reason: StopReason::EndTurn,
        stop_sequence: None,
        usage: counts(0, 2),
    };
    assert_eq!(
        told(&mut enc, &mut dec, &stop),
        vec![StreamEvent::BlockStop { index: 0 }, stop.clone()]
    );
}

#[test]
fn an_openai_stream_tells_a_reader_what_it_can() {
    let mut enc = OpenAiStreamEncoder::starting("m", "chatcmpl-x".into(), 7).with_usage(true);
    let mut dec = OpenAiStreamParser::new("other");
    let start = StreamEvent::Start {
        id: "msg_1".into(),
        model: "m".into(),
        usage: counts(3, 0),
    };
    assert_eq!(
        told(&mut enc, &mut dec, &start),
        vec![StreamEvent::Start {
            id: "chatcmpl-msg_1".into(),
            model: "m".into(),
            usage: Usage::default(),
        }]
    );
    let hm = StreamEvent::ThinkingDelta {
        index: 4,
        text: "hm".into(),
    };
    assert_eq!(
        told(&mut enc, &mut dec, &hm),
        vec![StreamEvent::ThinkingDelta {
            index: 0,
            text: "hm".into(),
        }]
    );
    assert!(told(&mut enc, &mut dec, &StreamEvent::BlockStop { index: 4 }).is_empty());
    let hi = StreamEvent::TextDelta {
        index: 5,
        text: "hi".into(),
    };
    assert_eq!(
        told(&mut enc, &mut dec, &hi),
        vec![
            StreamEvent::BlockStop { index: 0 },
            StreamEvent::TextDelta {
                index: 1,
                text: "hi".into(),
            },
        ]
    );
    let call = StreamEvent::ToolUseStart {
        index: 6,
        id: "call_1".into(),
        name: "weather".into(),
    };
    assert_eq!(
        told(&mut enc, &mut dec, &call),
        vec![
            StreamEvent::BlockStop { index: 1 },
            StreamEvent::ToolUseStart {
                index: 2,
                id: "call_1".into(),
                name: "weather".into(),
            },
        ]
    );
    let args = StreamEvent::ToolUseDelta {
        index: 6,
        partial_json: "{}".into(),
    };
    assert_eq!(
        told(&mut enc, &mut dec, &args),
        vec![StreamEvent::ToolUseDelta {
            index: 2,
            partial_json: "{}".into(),
        }]
    );
    let stop = StreamEvent::Stop {
        stop_reason: StopReason::Unknown,
        stop_sequence: Some("END".into()),
        usage: counts(3, 8),
    };
    assert_eq!(
        told(&mut enc, &mut dec, &stop),
        vec![
            StreamEvent::BlockStop { index: 2 },
            StreamEvent::Stop {
                stop_reason: StopReason::EndTurn,
                stop_sequence: None,
                usage: counts(3, 8),
            },
        ]
    );
    assert!(dec.finish().is_empty());
}

#[test]
fn a_document_that_is_printed_is_read_again() {
    let doc = Json::Obj(vec![
        ("a".into(), Json::Arr(vec![Json::UInt(1), Json::Int(-2), Json::Null])),
        ("b \"c\"".into(), Json::Str("tab\t and \u{1F600}".into())),
    ]);
    assert_eq!(json::parse(&json::render(&doc)), Ok(doc));
}

fn openai_request() -> ChatRequest {
    let body = json::parse(
        r#"{
            "model": "sonnet-class",
            "messages": [
                {"role": "system", "content": "be brief"},
                {"role": "user", "content": "weather?"},
                {"role": "assistant", "content": null, "tool_calls": [
                    {"id": "call_1", "type": "function",
                     "function": {"name": "weather", "arguments": "{\"city\":\"Oslo\"}"}}
                ]},
                {"role": "tool", "tool_call_id": "call_1", "content": "rain"}
            ],
            "max_tokens": 64,
            "temperature": 0.5,
            "stop": ["END"],
            "stream": true,
            "tools": [{"type": "function", "function": {"name": "weather", "parameters": {"type": "object"}}}],
            "tool_choice": "required",
            "reasoning_effort": "high",
            "user": "u1",
            "seed": 7
        }"#,
    )
    .unwrap();
    openai::decode_request(body).unwrap()
}

#[test]
fn an_openai_request_comes_back_with_its_settings() {
    let req = openai_request();
    let quirks = ProviderQuirks {
        send_reasoning_effort: true,
        use_max_completion_tokens: true,
        drop_stop: true,
        ..ProviderQuirks::default()
    };
    let body = openai::encode_request_with(&req, "upstream", &quirks).unwrap();
    let back = openai::decode_request(body).unwrap();
    assert_eq!(back.model, "upstream");
    assert_eq!(back.system, req.system);
    assert_eq!(back.messages, req.messages);
    assert_eq!(back.max_tokens, Some(64));
    assert_eq!(back.temperature, req.temperature);
    assert!(back.stop_sequences.is_empty());
    assert!(back.stream);
    assert_eq!(back.tools[0].name, "weather");
    assert_eq!(back.tools[0].description.as_deref(), Some(""));
    assert_eq!(back.tools[0].input_schema, req.tools[0].input_schema);
    assert_eq!(back.tool_choice, req.tool_choice);
    assert_eq!(
        back.thinking,
        Some(ThinkingConfig {
            enabled: true,
            budget_tokens: Some(16384),
        })
    );
    assert_eq!(back.metadata_user.as_deref(), Some("u1"));
    assert_eq!(back.passthrough, req.passthrough);
}

#[test]
fn what_is_left_over_stays_in_its_dialect() {
    let mut req = openai_request();
    let with = openai::encode_request(&req, "m").unwrap();
    req.source_dialect = Dialect::Anthropic;
    let without = openai::encode_request(&req, "m").unwrap();
    let has_seed = |v: &Json| matches!(v, Json::Obj(fields) if fields.iter().any(|(k, _)| k == "seed"));
    assert!(has_seed(&with));
    assert!(!has_seed(&without));
    req.source_dialect = Dialect::OpenAI;
    assert!(!has_seed(&anthropic::encode_request(&req, "m").unwrap()));
}

fn plain_answer(content: Vec<ContentBlock>, stop_reason: StopReason) -> ChatResponse {
    ChatResponse {
        id: "a1".into(),
        model: "m".into(),
        content,
        stop_reason,
        stop_sequence: None,
        usage: counts(5, 6),
        passthrough: Fields::new(),
    }
}

#[test]
fn a_responses_answer_comes_back_with_its_sealed_reasoning() {
    let content = || {
        vec![
            ContentBlock::Thinking {
                text: "hm".into(),
                signature: Some("sig".into()),
            },
            ContentBlock::RedactedThinking { data: "xyz".into() },
            ContentBlock::Thinking {
                text: "open".into(),
                signature: None,
            },
            ContentBlock::text("hi"),
            ContentBlock::ToolUse {
                id: "c1".into(),
                name: "f".into(),
                input: json::parse(r#"{"a":[1,2]}"#).unwrap(),
            },
        ]
    };
    let resp = plain_answer(content(), StopReason::MaxTokens);
    let back = responses::decode_response(responses::encode_response_at(&resp, 7)).unwrap();
    assert_eq!(back.id, "a1");
    assert_eq!(back.model, "m");
    assert_eq!(back.content, content());
    assert_eq!(back.stop_reason, StopReason::MaxTokens);
    assert_eq!(back.usage, counts(5, 6));
}

#[test]
fn a_gemini_answer_comes_back_without_its_name() {
    let content = || {
        vec![
            ContentBlock::text("hi"),
            ContentBlock::ToolUse {
                id: "c1".into(),
                name: "f".into(),
                input: json::parse("{}").unwrap(),
            },
        ]
    };
    let resp = plain_answer(content(), StopReason::Refusal);
    let back = gemini::decode_response(gemini::encode_response(&resp)).unwrap();
    assert_eq!(back.id, "gemini_unknown");
    assert_eq!(back.content, content());
    assert_eq!(back.stop_reason, StopReason::Refusal);
    assert_eq!(back.usage, counts(5, 6));
}
