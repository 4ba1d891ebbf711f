use zroutery_core::error::Error;
use zroutery_core::ir::{
    ContentBlock, Dialect, MediaSource, Role, StopReason, StreamEvent, SystemPart, ToolChoice,
    ToolResultPart, Usage,
};
use zroutery_core::json::{self, Json};
use zroutery_core::protocol::gemini::{
    decode_request, decode_response, encode_request, encode_response, GeminiStreamEncoder,
    GeminiStreamParser,
};
use zroutery_core::protocol::sse::SseFrame;
use zroutery_core::protocol::{StreamEncoder, StreamParser};

fn j(text: &str) -> Json {
    json::parse(text).unwrap()
}

fn get<'a>(v: &'a Json, path: &str) -> Option<&'a Json> {
    let mut at = v;
    for p in path.split('.') {
        at = match at {
            Json::Obj(list) => &list.iter().find(|(k, _)| k == p)?.1,
            Json::Arr(a) => a.get(p.parse::<usize>().ok()?)?,
            _ => return None,
        };
    }
    Some(at)
}

fn text(x: &str) -> Json {
    Json::Str(x.to_string())
}

fn frame(data: &str) -> SseFrame {
    SseFrame {
        event: None,
        data: data.into(),
    }
}

#[test]
fn gemini_requests_are_decoded() {
    let req = decode_request(j(r#"{
        "model": "gemini-3",
        "system_instruction": {"parts": [{"text": "be brief"}, {"other": 1}]},
        "contents": [
            {"role": "user", "parts": [{"text": "look"}, {"inlineData": {"mimeType": "image/png", "data": "QQ=="}}]},
            {"role": "model", "parts": [{"functionCall": {"id": "c1", "name": "f", "args": {"a": 1}}}]},
            {"parts": [{"functionResponse": {"id": "c1", "response": {"ok": true}}}]}
        ],
        "generationConfig": {"maxOutputTokens": 77, "topP": 0.5, "stopSequences": ["x", 3]},
        "tools": [{"functionDeclarations": [{"name": "f"}, {"description": "nameless"}]}],
        "toolConfig": {"functionCallingConfig": {"mode": "ANY"}}
    }"#))
    .unwrap();
    assert_eq!(req.source_dialect, Dialect::Gemini);
    assert_eq!(req.system, vec![SystemPart::new("be brief")]);
    assert_eq!(req.messages.len(), 3);
    assert_eq!(req.messages[0].role, Role::User);
    assert_eq!(
        req.messages[0].content[1],
        ContentBlock::Image {
            source: MediaSource::Base64 {
                media_type: "image/png".into(),
                data: "QQ==".into()
            }
        }
    );
    assert_eq!(req.messages[1].role, Role::Assistant);
    match &req.messages[2].content[0] {
        ContentBlock::ToolResult {
            tool_use_id, content, ..
        } => {
            assert_eq!(tool_use_id, "c1");
            assert_eq!(
                content[0],
                ToolResultPart::Text {
                    text: "{\"ok\":true}".into()
                }
            );
        }
        other => panic!("unexpected {other:?}"),
    }
    assert_eq!(req.max_tokens, Some(77));
    assert_eq!(req.stop_sequences, vec!["x"]);
    assert_eq!(req.tools.len(), 1);
    assert_eq!(req.tools[0].input_schema, j(r#"{"type": "object"}"#));
    assert_eq!(req.tool_choice, Some(ToolChoice::Any));
    assert!(matches!(decode_request(j("[]")), Err(Error::InvalidRequest(_))));
}

#[test]
fn gemini_requests_are_encoded() {
    let mut req = decode_request(j(
        r#"{"model": "m", "contents": [{"role": "user", "parts": [{"text": "hi"}]}]}"#,
    ))
    .unwrap();
    req.max_tokens = Some(5);
    req.tool_choice = Some(ToolChoice::NoTool);
    let body = encode_request(&req, "up").unwrap();
    assert_eq!(
        body,
        j(r#"{"model":"up","contents":[{"role":"user","parts":[{"text":"hi"}]}],
              "generationConfig":{"maxOutputTokens":5},
              "toolConfig":{"functionCallingConfig":{"mode":"NONE"}}}"#)
    );
}

#[test]
fn gemini_responses_go_both_ways() {
    let resp = decode_response(j(r#"{
        "id": "g1", "model": "m",
        "candidates": [{"content": {"parts": [{"text": "hi"}, {"functionCall": {"id": "c", "name": "f"}}]},
                        "finishReason": "MAX_TOKENS"}],
        "usageMetadata": {"promptTokenCount": 3, "candidatesTokenCount": 4, "thoughtsTokenCount": 1}
    }"#))
    .unwrap();
    assert_eq!(resp.stop_reason, StopReason::MaxTokens);
    assert_eq!(resp.text(), "hi");
    assert_eq!(resp.usage.reasoning_tokens, 1);
    let back = encode_response(&resp);
    assert_eq!(get(&back, "candidates.0.finishReason"), Some(&text("MAX_TOKENS")));
    assert_eq!(
        get(&back, "candidates.0.content.parts.1.functionCall.args"),
        Some(&j("{}"))
    );
    assert_eq!(get(&back, "usageMetadata.totalTokenCount"), Some(&Json::UInt(7)));
    assert_eq!(
        decode_response(j(r#"{"error": {"message": "quota"}}"#)).unwrap_err(),
        Error::BadUpstreamPayload("quota".into())
    );
}

#[test]
fn gemini_streams_are_parsed() {
    let mut p = GeminiStreamParser::new("m");
    let events = p
        .push(&frame(
            r#"{"candidates":[{"content":{"parts":[{"text":"He"}]}}],"usageMetadata":{"promptTokenCount":2}}"#,
        ))
        .unwrap();
    match &events[0] {
        StreamEvent::Start { id, model, .. } => {
            assert!(id.starts_with("gemini-"));
            assert_eq!(id.len(), "gemini-".len() + 32);
            assert_eq!(model, "m");
        }
        other => panic!("unexpected {other:?}"),
    }
    assert_eq!(
        events[1],
        StreamEvent::TextDelta {
            index: 0,
            text: "He".into()
        }
    );
    assert!(p.push(&frame("[DONE]")).unwrap().is_empty());
    match &p.finish()[0] {
        StreamEvent::Stop { usage, .. } => assert_eq!(usage.input_tokens, 2),
        other => panic!("unexpected {other:?}"),
    }
    assert!(p.finish().is_empty());
    assert!(matches!(p.push(&frame("{")), Err(Error::BadUpstreamPayload(_))));
}

#[test]
fn gemini_streams_are_written() {
    let mut enc = GeminiStreamEncoder::new("m");
    let f = enc.encode(&StreamEvent::ToolUseDelta {
        index: 2,
        partial_json: "{\"a\":".into(),
    });
    let v = f[0].json().unwrap();
    assert_eq!(
        get(&v, "candidates.0.content.parts.0.functionCall"),
        Some(&j(r#"{"id": "call_2", "name": "", "args": {"__raw": "{\"a\":"}}"#))
    );
    let f = enc.encode(&StreamEvent::Stop {
        stop_reason: StopReason::EndTurn,
        stop_sequence: None,
        usage: Usage {
            input_tokens: 1,
            output_tokens: 2,
            ..Usage::default()
        },
    });
    assert_eq!(
        get(&f[0].json().unwrap(), "usageMetadata.totalTokenCount"),
        Some(&Json::UInt(3))
    );
    assert!(enc.finish().is_empty());
}
