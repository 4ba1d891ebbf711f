use zroutery_core::ir::ContentBlock;
use zroutery_core::json::{self, Json};
use zroutery_core::protocol::reasoning_bridge::{
    base64url_decode, base64url_encode, decode_reasoning_item, encode_thinking_block,
};
use zroutery_core::protocol::sse::{SseDecoder, SseFrame};

fn j(text: &str) -> Json {
    json::parse(text).unwrap()
}

#[test]
fn splits_frames_across_chunk_boundaries() {
    let mut d = SseDecoder::new();
    assert!(d.push(b"event: message_st").is_empty());
    assert!(d.push(b"art\ndata: {\"a\":").is_empty());
    let frames = d.push(b"1}\n\nevent: ping\ndata: {}\n\n");
    assert_eq!(frames.len(), 2);
    assert_eq!(frames[0].event.as_deref(), Some("message_start"));
    assert_eq!(frames[0].json().unwrap().at("a").uint(), Some(1));
    assert_eq!(frames[1].event.as_deref(), Some("ping"));
}

#[test]
fn handles_crlf_comments_and_multiline_data() {
    let mut d = SseDecoder::new();
    let frames = d.push(b": keep-alive\r\n\r\ndata: line1\r\ndata: line2\r\n\r\n");
    assert_eq!(frames.len(), 1);
    assert_eq!(frames[0].data, "line1\nline2");
}

#[test]
fn openai_done_sentinel_and_unterminated_tail() {
    let mut d = SseDecoder::new();
    let frames = d.push(b"data: [DONE]\n\ndata: {\"trailing\":true}");
    assert_eq!(frames.len(), 1);
    assert_eq!(frames[0].data, "[DONE]");
    let tail = d.finish().unwrap();
    assert_eq!(tail.json().unwrap().at("trailing").flag(), Some(true));
}

#[test]
fn frame_round_trips_to_wire() {
    let f = SseFrame {
        event: Some("ping".into()),
        data: "{}".into(),
    };
    assert_eq!(f.to_wire(), "event: ping\ndata: {}\n\n");
    let mut d = SseDecoder::new();
    assert_eq!(d.push(f.to_wire().as_bytes()), vec![f]);
}

#[test]
fn every_line_of_data_is_a_data_line() {
    let f = SseFrame {
        event: None,
        data: "line1\nline2".into(),
    };
    assert_eq!(f.to_wire(), "data: line1\ndata: line2\n\n");
    for data in ["", "\n", "a\n\nb\n", " led by a space", "not\ra line end"] {
        let f = SseFrame {
            event: Some("e".into()),
            data: data.into(),
        };
        let mut d = SseDecoder::new();
        assert_eq!(d.push(f.to_wire().as_bytes()), vec![f]);
        assert!(d.finish().is_none());
    }
}

#[test]
fn redacted_thinking_is_always_bridged() {
    for data in ["", "opaque"] {
        let block = ContentBlock::RedactedThinking { data: data.into() };
        let item = encode_thinking_block(&block).unwrap();
        assert_eq!(decode_reasoning_item(&item), Some(block));
    }
}

#[test]
fn printed_documents_are_read_back() {
    let doc = j(r#"{"b": [1, -2, "x\u0001"], "a": {"n": null}}"#);
    assert_eq!(j(&json::render(&doc)), doc);
}

#[test]
fn base64url_round_trip() {
    let data = b"hello world\x00\xff";
    let encoded = base64url_encode(data);
    assert!(!encoded.contains('+'));
    assert!(!encoded.contains('/'));
    assert_eq!(base64url_decode(&encoded).unwrap(), data);
}

#[test]
fn decode_rejects_corrupt_input() {
    let item = j(r#"{"type": "reasoning", "encrypted_content": "zroutery-reasoning-v1:%%%"}"#);
    assert!(decode_reasoning_item(&item).is_none());
    let item = j(r#"{"type": "reasoning", "encrypted_content": "not-our-prefix"}"#);
    assert!(decode_reasoning_item(&item).is_none());
}

#[test]
fn one_byte_at_a_time_gives_the_same_frames() {
    let raw = b"event: a\ndata: 1\n\n: note\n\ndata: two\ndata: lines\n\n";
    let mut whole = SseDecoder::new();
    let expected = whole.push(raw);
    let mut bytewise = SseDecoder::new();
    let mut got = Vec::new();
    for b in raw.iter() {
        got.extend(bytewise.push(&[*b]));
    }
    assert_eq!(got, expected);
    assert_eq!(got.len(), 2);
}

#[test]
fn bytes_that_are_no_text_are_replaced_not_refused() {
    let mut d = SseDecoder::new();
    let frames = d.push(b"data: a\xffb\n\n");
    assert_eq!(frames[0].data, "a\u{fffd}b");
}

#[test]
fn a_bad_frame_document_is_an_error() {
    let f = SseFrame {
        event: None,
        data: "{oops".into(),
    };
    assert!(f.json().is_err());
}

#[test]
fn thinking_survives_the_bridge() {
    let block = ContentBlock::Thinking {
        text: "Überlegung \"x\"".into(),
        signature: Some("sig".into()),
    };
    let item = encode_thinking_block(&block).unwrap();
    assert_eq!(decode_reasoning_item(&item), Some(block));
    assert!(encode_thinking_block(&ContentBlock::text("no")).is_none());
}

#[test]
fn base64url_has_the_known_values() {
    assert_eq!(base64url_encode(b""), "");
    assert_eq!(base64url_encode(b"f"), "Zg");
    assert_eq!(base64url_encode(b"fo"), "Zm8");
    assert_eq!(base64url_encode(b"foo"), "Zm9v");
    assert_eq!(base64url_encode(b"\xfb\xff"), "-_8");
    assert_eq!(base64url_decode("Zm9"), None);
}
