use zroutery_core::ir::{Dialect, Usage};
use zroutery_core::query::{RequestKind, SideQueryKind};
use zroutery_core::stats::{redact_upstream_body, RecordBuilder, RequestRecord, Stats};

fn rec(model: &str, ok: bool, latency: u64, usage: Usage) -> RequestRecord {
    let mut b = RecordBuilder::new(Dialect::Anthropic, "sonnet-class", false);
    b.resolved(model, "DeepSeek").usage(usage).attempt();
    if !ok {
        b.fail(502, "boom".into());
    }
    b.finish(latency)
}

fn average(total_ms: u64, requests: u64) -> f64 {
    total_ms as f64 / requests as f64
}

#[test]
fn ring_buffer_is_bounded_and_newest_first() {
    let mut stats = Stats::new(2);
    for i in 0..5 {
        stats.record(rec(&format!("m{i}"), true, 10, Usage::default()));
    }
    let recent = stats.recent(10);
    assert_eq!(recent.len(), 2);
    assert_eq!(recent[0].resolved_model.as_deref(), Some("m4"));
    assert_eq!(recent[1].resolved_model.as_deref(), Some("m3"));
    // aggregates still count every request
    assert_eq!(stats.summary().requests, 5);
}

#[test]
fn aggregates_tokens_failures_and_latency() {
    let mut stats = Stats::new(10);
    stats.record(rec(
        "deepseek-v4-pro",
        true,
        100,
        Usage {
            input_tokens: 10,
            output_tokens: 5,
            reasoning_tokens: 2,
            ..Usage::default()
        },
    ));
    stats.record(rec(
        "deepseek-v4-pro",
        false,
        300,
        Usage {
            input_tokens: 1,
            output_tokens: 0,
            ..Usage::default()
        },
    ));
    let s = stats.summary();
    assert_eq!(s.requests, 2);
    assert_eq!(s.failures, 1);
    assert_eq!(s.input_tokens, 11);
    assert_eq!(s.output_tokens, 5);
    let m = &s.per_model[0];
    assert_eq!(m.model_id, "deepseek-v4-pro");
    assert_eq!(m.requests, 2);
    assert_eq!(m.failures, 1);
    assert_eq!(m.reasoning_tokens, 2);
    assert!((average(m.latency_total_ms, m.requests) - 200.0).abs() < 0.001);
}

#[test]
fn clear_resets_everything() {
    let mut stats = Stats::new(4);
    stats.record(rec("m", true, 1, Usage::default()));
    stats.clear();
    assert!(stats.recent(4).is_empty());
    assert_eq!(stats.summary().requests, 0);
    assert!(stats.summary().per_model.is_empty());
}

#[test]
fn kind_totals_separate_main_from_side_queries() {
    let mut stats = Stats::new(10);
    // Same model, two kinds: the per-model row must not be able to say
    // which traffic was which, the per-kind rows must.
    let main_rec = {
        let mut b = RecordBuilder::new(Dialect::Anthropic, "anthropic-opus-4-8[1m]", false);
        b.kind(RequestKind::Main);
        b.resolved("zai-glm", "Z.ai").attempt();
        b.usage(Usage {
            input_tokens: 100,
            output_tokens: 5,
            ..Usage::default()
        });
        b.finish(600)
    };
    let classifier_rec = {
        let mut b = RecordBuilder::new(Dialect::Anthropic, "anthropic-opus-4-8[1m]", false);
        b.kind(RequestKind::Side(SideQueryKind::AutoMode));
        b.resolved("zai-glm", "Z.ai").attempt();
        b.usage(Usage {
            input_tokens: 400,
            output_tokens: 20,
            ..Usage::default()
        });
        b.finish(100)
    };
    stats.record(main_rec);
    stats.record(classifier_rec.clone());
    stats.record(classifier_rec);

    let summary = stats.summary();
    let main = summary.per_kind.iter().find(|k| k.kind == "main").unwrap();
    let auto = summary.per_kind.iter().find(|k| k.kind == "auto_mode").unwrap();
    assert_eq!(main.requests, 1);
    assert_eq!(main.input_tokens, 100);
    assert!((average(main.latency_total_ms, main.requests) - 600.0).abs() < 0.001);
    assert_eq!(auto.requests, 2);
    assert_eq!(auto.input_tokens, 800);
    assert!((average(auto.latency_total_ms, auto.requests) - 100.0).abs() < 0.001);
    // Model totals stay whole: both kinds hit the same model row.
    let model = summary
        .per_model
        .iter()
        .find(|m| m.model_id == "zai-glm")
        .unwrap();
    assert_eq!(model.requests, 3);

    stats.clear();
    assert!(stats.summary().per_kind.is_empty());
}

#[test]
fn upstream_bodies_are_redacted_from_activity_errors() {
    let raw = "upstream Xiaomi MiMo returned 404: <html> <head><title>404 Not Found</title></head> <body>openresty</body></html>";
    assert_eq!(redact_upstream_body(raw), "upstream Xiaomi MiMo returned 404");
    // Non-upstream messages pass through untouched, colons included.
    assert_eq!(
        redact_upstream_body("stopped by a budget: the today limit is used up"),
        "stopped by a budget: the today limit is used up"
    );
    assert_eq!(redact_upstream_body("plain error"), "plain error");
}

#[test]
fn nothing_behind_the_status_survives() {
    assert_eq!(
        redact_upstream_body("upstream P returned 500: internal error at http://db1.local"),
        "upstream P returned 500"
    );
    assert_eq!(redact_upstream_body("upstream P returned 500"), "upstream P returned 500");
    // A word without a number is no status.
    assert_eq!(
        redact_upstream_body("upstream nothing returned here returned 42 <x>"),
        "upstream nothing returned here returned 42"
    );
    assert_eq!(redact_upstream_body("upstream P returned nothing"), "upstream P returned nothing");
    // Not an upstream's.
    assert_eq!(redact_upstream_body("it returned 500: <x>"), "it returned 500: <x>");
}

#[test]
fn builder_marks_failures_and_ttft() {
    let mut b = RecordBuilder::new(Dialect::OpenAI, "gpt-5.3-sol", true);
    b.attempt();
    b.attempt();
    b.ttft(42);
    b.ttft(99);
    b.fail(429, "rate limited".into());
    let r = b.finish(1234);
    assert_eq!(r.attempts, 2);
    assert_eq!(r.ttft_ms, Some(42));
    assert!(!r.ok);
    assert_eq!(r.status, 429);
    assert_eq!(r.latency_ms, 1234);
    assert!(r.id.starts_with("req_"));
}

#[test]
fn a_smaller_limit_drops_the_oldest() {
    let mut stats = Stats::starting_at(5, 77);
    for i in 0..4 {
        stats.record(rec(&format!("m{i}"), true, 10, Usage::default()));
    }
    stats.set_limit(1);
    assert_eq!(stats.recent(9).len(), 1);
    assert_eq!(stats.recent(9)[0].resolved_model.as_deref(), Some("m3"));
    assert_eq!(stats.summary().since, 77);
    stats.clear_at(99);
    assert_eq!(stats.summary().since, 99);
}

#[test]
fn fresh_records_have_ids_of_their_own() {
    let a = RecordBuilder::new(Dialect::OpenAI, "m", false);
    let b = RecordBuilder::new(Dialect::OpenAI, "m", false);
    assert_ne!(a.id(), b.id());
    assert_eq!(a.requested_model(), "m");
}

#[test]
fn rows_add_up_to_the_totals() {
    let mut stats = Stats::new(2);
    for (i, ok) in [true, false, true, false, false].iter().enumerate() {
        let usage = Usage {
            input_tokens: 10 + i as u32,
            output_tokens: i as u32,
            ..Usage::default()
        };
        stats.record(rec(&format!("m{}", i % 3), *ok, 1, usage));
    }
    let s = stats.summary();
    assert_eq!((s.requests, s.failures, s.input_tokens, s.output_tokens), (5, 3, 60, 10));
    assert_eq!(s.per_model.iter().map(|t| t.requests).sum::<u64>(), 5);
    assert_eq!(s.per_model.iter().map(|t| t.failures).sum::<u64>(), 3);
    assert_eq!(s.per_model.iter().map(|t| t.input_tokens).sum::<u64>(), 60);
    assert_eq!(s.per_model.iter().map(|t| t.output_tokens).sum::<u64>(), 10);
    assert_eq!(s.per_kind.iter().map(|t| t.requests).sum::<u64>(), 5);
    assert_eq!(s.per_kind.iter().map(|t| t.failures).sum::<u64>(), 3);
    assert_eq!(s.per_kind.iter().map(|t| t.input_tokens).sum::<u64>(), 60);
    assert_eq!(s.per_kind.iter().map(|t| t.output_tokens).sum::<u64>(), 10);
    assert_eq!(stats.recent(1).len(), 1);
    assert_eq!(stats.recent(1)[0].resolved_model.as_deref(), Some("m1"));
}
