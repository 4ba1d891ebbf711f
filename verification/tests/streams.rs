use zroutery_core::ir::{Dialect, StopReason, StreamEvent, Usage};
use zroutery_core::json::{self, Json};
use zroutery_core::protocol::openai::OpenAiStreamEncoder;
use zroutery_core::protocol::sse::SseFrame;
use zroutery_core::protocol::{stream_encoder, StreamEncoder};

fn get<'a>(v: &'a Json, path: &str) -> Option<&'a Json> {
    let mut at = v;
    for p in path.split('.') {
        at = match at {
            Json::Obj(list) => &list.iter().find(|(k, _)| k == p)?.1,
            Json::Arr(a) => a.get(p.parse::<usize>().ok()?)?,
            _ => return None,
        };
    }
    Some(at)
}

fn usage() -> Usage {
    Usage {
        input_tokens: 3,
        output_tokens: 2,
        ..Usage::default()
    }
}

fn stop() -> StreamEvent {
    StreamEvent::Stop {
        stop_reason: StopReason::EndTurn,
        stop_sequence: None,
        usage: usage(),
    }
}

fn said(index: u32) -> StreamEvent {
    StreamEvent::TextDelta {
        index,
        text: "t".into(),
    }
}

fn thought(index: u32) -> StreamEvent {
    StreamEvent::ThinkingDelta {
        index,
        text: "h".into(),
    }
}

fn called(index: u32) -> StreamEvent {
    StreamEvent::ToolUseStart {
        index,
        id: format!("c{index}"),
        name: "f".into(),
    }
}

fn argued(index: u32) -> StreamEvent {
    StreamEvent::ToolUseDelta {
        index,
        partial_json: "{}".into(),
    }
}

fn all(enc: &mut dyn FnMut(&StreamEvent) -> Vec<SseFrame>, events: &[StreamEvent]) -> Vec<SseFrame> {
    events.iter().flat_map(|e| enc(e)).collect()
}

fn whole(dialect: Dialect, events: &[StreamEvent]) -> Vec<SseFrame> {
    let mut enc = stream_encoder(dialect, "m", false);
    let mut out = all(&mut |e| enc.encode(e), events);
    out.extend(enc.finish());
    out
}

fn named(frames: &[SseFrame], name: &str) -> usize {
    frames.iter().filter(|f| f.event.as_deref() == Some(name)).count()
}

#[test]
fn the_usage_flag_adds_one_frame_before_done() {
    let events = [said(0), called(1), argued(1), stop()];
    let run = |flag: bool| {
        let mut enc = OpenAiStreamEncoder::starting("m", "chatcmpl-1".into(), 7).with_usage(flag);
        let out = all(&mut |e| enc.encode(e), &events);
        assert!(enc.finish().is_empty());
        out
    };
    let off = run(false);
    let on = run(true);
    assert_eq!(on.len(), off.len() + 1);
    assert_eq!(on[..off.len() - 1], off[..off.len() - 1]);
    assert_eq!(on[on.len() - 1].data, "[DONE]");
    let extra = on[on.len() - 2].json().unwrap();
    assert_eq!(get(&extra, "choices"), Some(&Json::Arr(Vec::new())));
    assert_eq!(get(&extra, "usage.prompt_tokens"), Some(&Json::UInt(3)));
    assert_eq!(get(&extra, "usage.completion_tokens"), Some(&Json::UInt(2)));
    assert_eq!(json::render(&extra), on[on.len() - 2].data);
}

#[test]
fn tool_slots_count_up_in_order_of_first_use() {
    let mut enc = OpenAiStreamEncoder::starting("m", "chatcmpl-1".into(), 7);
    let mut slots = Vec::new();
    for e in [called(9), called(2), argued(9), argued(5), argued(2)] {
        let frames = enc.encode(&e);
        let last = frames[frames.len() - 1].json().unwrap();
        slots.push(get(&last, "choices.0.delta.tool_calls.0.index").cloned());
    }
    let slot = |n: u64| Some(Json::UInt(n));
    assert_eq!(slots, vec![slot(0), slot(1), slot(0), slot(2), slot(1)]);
}

#[test]
fn responses_items_close_once_and_the_end_comes_last() {
    for events in [
        vec![thought(0), said(1), called(2), argued(2), StreamEvent::BlockStop { index: 2 }, said(1), stop()],
        vec![said(0), called(1), called(2)],
        vec![],
    ] {
        let out = whole(Dialect::OpenAIResponses, &events);
        assert_eq!(
            named(&out, "response.output_item.added"),
            named(&out, "response.output_item.done")
        );
        assert_eq!(named(&out, "response.completed"), 1);
        assert_eq!(out[out.len() - 1].event.as_deref(), Some("response.completed"));
    }
}

#[test]
fn anthropic_streams_start_once_and_balance() {
    for events in [
        vec![
            StreamEvent::Start {
                id: "i".into(),
                model: "m".into(),
                usage: Usage::default(),
            },
            thought(0),
            said(0),
            called(1),
            argued(1),
            StreamEvent::RedactedThinking {
                index: 2,
                data: "x".into(),
            },
            StreamEvent::BlockStop { index: 1 },
            stop(),
        ],
        vec![StreamEvent::Ping, said(3), said(4)],
        vec![],
    ] {
        let out = whole(Dialect::Anthropic, &events);
        assert_eq!(named(&out, "message_start"), 1);
        assert_eq!(named(&out, "message_stop"), 1);
        assert_eq!(named(&out, "content_block_start"), named(&out, "content_block_stop"));
        assert_eq!(out[out.len() - 1].event.as_deref(), Some("message_stop"));
    }
}

fn number(v: &Json, path: &str) -> Option<u64> {
    match get(v, path) {
        Some(Json::UInt(n)) => Some(*n),
        _ => None,
    }
}

fn about(frames: &[SseFrame], name: &str, key: &str) -> Vec<u64> {
    let mut at: Vec<u64> = frames
        .iter()
        .filter(|f| f.event.as_deref() == Some(name))
        .map(|f| number(&f.json().unwrap(), key).unwrap())
        .collect();
    at.sort();
    at
}

#[test]
fn every_responses_item_is_closed_under_its_own_index() {
    let out = whole(
        Dialect::OpenAIResponses,
        &[
            thought(0),
            called(5),
            argued(5),
            called(6),
            said(1),
            StreamEvent::BlockStop { index: 6 },
            stop(),
        ],
    );
    assert_eq!(about(&out, "response.output_item.added", "output_index"), vec![0, 1, 2, 3]);
    assert_eq!(about(&out, "response.output_item.done", "output_index"), vec![0, 1, 2, 3]);
    let end = out[out.len() - 1].json().unwrap();
    let text = |path: &str| match get(&end, path) {
        Some(Json::Str(s)) => s.clone(),
        other => panic!("{path}: {other:?}"),
    };
    assert_eq!(text("response.output.0.type"), "reasoning");
    assert_eq!(text("response.output.1.call_id"), "c5");
    assert_eq!(text("response.output.1.status"), "incomplete");
    assert_eq!(text("response.output.1.arguments"), "{}");
    assert_eq!(text("response.output.2.call_id"), "c6");
    assert_eq!(text("response.output.2.status"), "completed");
    assert_eq!(text("response.output.3.type"), "message");
    assert_eq!(get(&end, "response.output.4"), None);
    assert_eq!(number(&end, "response.usage.input_tokens"), Some(3));
    for f in out.iter().filter(|f| f.event.as_deref() == Some("response.output_item.done")) {
        let f = f.json().unwrap();
        let k = number(&f, "output_index").unwrap();
        assert_eq!(get(&f, "item"), get(&end, &format!("response.output.{k}")));
    }
}

#[test]
fn an_empty_responses_item_is_closed_and_not_listed() {
    let nothing = StreamEvent::TextDelta { index: 0, text: String::new() };
    let out = whole(Dialect::OpenAIResponses, &[nothing, stop()]);
    assert_eq!(about(&out, "response.output_item.done", "output_index"), vec![0]);
    let end = out[out.len() - 1].json().unwrap();
    assert_eq!(get(&end, "response.output"), Some(&Json::Arr(Vec::new())));
}

#[test]
fn every_anthropic_block_is_stopped_under_its_own_index() {
    let out = whole(
        Dialect::Anthropic,
        &[
            StreamEvent::Ping,
            StreamEvent::BlockStop { index: 9 },
            StreamEvent::Ping,
            thought(4),
            said(4),
            said(4),
            called(7),
            StreamEvent::RedactedThinking { index: 2, data: "x".into() },
            StreamEvent::BlockStop { index: 4 },
            said(4),
            stop(),
        ],
    );
    let names: Vec<&str> = out.iter().map(|f| f.event.as_deref().unwrap()).collect();
    assert_eq!(names[..3], ["ping", "ping", "message_start"]);
    assert_eq!(names[names.len() - 2..], ["message_delta", "message_stop"]);
    let starts = about(&out, "content_block_start", "index");
    assert_eq!(starts, vec![2, 4, 4, 4, 7]);
    assert_eq!(about(&out, "content_block_stop", "index"), starts);
}

#[test]
fn a_block_is_asked_for_its_slot_again_and_again() {
    let mut enc = OpenAiStreamEncoder::new("m");
    let slots: Vec<u64> = [3, 7, 7, 3, 1, 7].iter().map(|i| enc.slot_for(*i)).collect();
    assert_eq!(slots, vec![0, 1, 1, 0, 2, 1]);
}
