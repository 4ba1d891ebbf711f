use std::sync::Arc;

use zroutery_core::config::{
    AppConfig, ModelClass, ModelEntry, ProviderConfig, ProviderKind, RoutingConfig,
};
use zroutery_core::error::Error;
use zroutery_core::headers::takes_more;
use zroutery_core::ir::{
    ChatRequest, ChatResponse, ContentBlock, Dialect, MediaSource, Message, Role, StopReason,
    StreamEvent, Usage,
};
use zroutery_core::json::Fields;
use zroutery_core::protocol::stream_encoder;
use zroutery_core::query::{RequestKind, SideQueryKind};
use zroutery_core::registry::{Registry, Resolution};
use zroutery_core::router::{Candidate, Router};
use zroutery_core::server::pipeline::{
    apply_descriptions, carries_verdict, collect_images, describes_after, describes_first,
    inject_cost_header, inject_routing_headers, prepare, reencode, vision_target, Attempts,
    BudgetStep, BudgetWalk, SseRun, Verdict,
};
use zroutery_core::stats::RecordBuilder;
use zroutery_core::upstream::{build_headers, EncodeMode};

fn provider() -> ProviderConfig {
    ProviderConfig::new("p", "P", ProviderKind::OpenAICompatible)
}

fn config() -> AppConfig {
    let mut cfg = AppConfig::default();
    cfg.providers.push(provider());
    for (name, class) in [
        ("big", ModelClass::Opus),
        ("mid", ModelClass::Sonnet),
        ("small", ModelClass::Haiku),
    ] {
        cfg.models.push(ModelEntry::for_upstream("p", name, Some(class)));
    }
    cfg
}

fn registry() -> Registry {
    Registry::new(Arc::new(config()))
}

fn candidate(name: &str) -> Candidate {
    Candidate::new(&ModelEntry::for_upstream("p", name, None), &provider(), false)
}

fn answer(said: &str) -> ChatResponse {
    ChatResponse {
        id: "a".into(),
        model: "upstream".into(),
        content: vec![ContentBlock::text(said)],
        stop_reason: StopReason::EndTurn,
        stop_sequence: None,
        usage: Usage {
            input_tokens: 5,
            output_tokens: 6,
            ..Usage::default()
        },
        passthrough: Fields::new(),
    }
}

fn down() -> Error {
    Error::Upstream {
        provider: "P".into(),
        status: 503,
        body: "busy".into(),
    }
}

fn classifier() -> RequestKind {
    RequestKind::Side(SideQueryKind::AutoMode)
}

fn record() -> RecordBuilder {
    RecordBuilder::new(Dialect::OpenAI, "sonnet-class", false)
}

#[test]
fn a_degrade_is_followed_and_judged_again() {
    let r = registry();
    let mut walk = BudgetWalk::new(Resolution::Class(ModelClass::Opus));
    assert_eq!(walk.class(&r), Some(ModelClass::Opus));
    assert_eq!(walk.provider_ids(&r), vec!["p"]);
    assert!(matches!(
        walk.on_verdict(
            &r,
            Verdict::Degrade {
                to: ModelClass::Haiku,
                because: "spent".into()
            }
        ),
        BudgetStep::Ask
    ));
    assert_eq!(walk.resolution, Resolution::Class(ModelClass::Haiku));
    assert!(matches!(walk.on_verdict(&r, Verdict::Allow), BudgetStep::Pass));
}

#[test]
fn degrades_cannot_go_round_in_circles() {
    let r = registry();
    let mut walk = BudgetWalk::new(Resolution::Class(ModelClass::Opus));
    let mut steps = 0;
    let classes = [ModelClass::Haiku, ModelClass::Opus];
    loop {
        let to = classes[steps % 2];
        match walk.on_verdict(
            &r,
            Verdict::Degrade {
                to,
                because: "spent".into(),
            },
        ) {
            BudgetStep::Refuse(e) => {
                assert!(matches!(e, Error::OverBudget(_)));
                assert_eq!(e.status(), 402);
                break;
            }
            _ => steps += 1,
        }
        assert!(steps < 10);
    }
    let mut walk = BudgetWalk::new(Resolution::Direct("p-big".into()));
    assert!(matches!(
        walk.on_verdict(
            &r,
            Verdict::Reject {
                because: "no".into()
            }
        ),
        BudgetStep::Refuse(Error::OverBudget(_))
    ));
}

#[test]
fn a_failing_candidate_gives_way_to_the_next() {
    let routing = RoutingConfig::default();
    let mut router = Router::new();
    let mut run = Attempts::new(record(), vec![candidate("a"), candidate("b")], RequestKind::Main);
    assert_eq!(run.begin(), Some(0));
    run.on_failure(&mut router, down(), &routing, 0);
    assert_eq!(run.begin(), Some(1));
    assert!(run.on_answer(&mut router, &answer("hi"), false, 10, &routing, 0));
    let (rec, resp) = run.serve(answer("hi"), 99);
    assert_eq!(resp.model, "p-b");
    assert_eq!(rec.resolved_model.as_deref(), Some("p-b"));
    assert_eq!(rec.attempts, 2);
    assert_eq!(rec.usage.output_tokens, 6);
    assert!(rec.ok);
    let health = router.health_snapshot(0);
    assert_eq!(health[0].total_failure, 1);
    assert_eq!(health[1].total_success, 1);
}

#[test]
fn an_error_that_nobody_can_mend_is_final() {
    let routing = RoutingConfig::default();
    let mut router = Router::new();
    let mut run = Attempts::new(record(), vec![candidate("a"), candidate("b")], RequestKind::Main);
    run.begin();
    run.on_failure(&mut router, Error::invalid("bad"), &routing, 0);
    assert_eq!(run.begin(), None);
    let (rec, err) = run.give_up(5);
    assert_eq!(err, Error::InvalidRequest("bad".into()));
    assert!(!rec.ok);
    assert_eq!(rec.status, 400);

    let mut run = Attempts::new(record(), vec![], RequestKind::Main);
    assert_eq!(run.begin(), None);
    assert_eq!(run.give_up(5).1, Error::NoCandidate("sonnet-class".into()));
}

#[test]
fn a_classifier_must_give_its_verdict() {
    assert!(carries_verdict("x <block>no</block>"));
    assert!(!carries_verdict("</block> <block>"));
    let routing = RoutingConfig::default();
    let mut router = Router::new();
    let mut run = Attempts::new(record(), vec![candidate("a"), candidate("b")], classifier());
    run.begin();
    assert!(!run.on_answer(&mut router, &answer("looks safe"), false, 1, &routing, 0));
    run.begin();
    assert!(run.on_answer(&mut router, &answer("<block>yes</block>"), false, 1, &routing, 0));
    assert_eq!(router.health_snapshot(0)[0].total_failure, 1);
}

#[test]
fn a_repaired_answer_is_no_evidence() {
    let routing = RoutingConfig::default();
    let mut router = Router::new();
    let mut run = Attempts::new(record(), vec![candidate("a")], RequestKind::Main);
    run.begin();
    assert!(run.on_answer(&mut router, &answer("hi"), true, 1, &routing, 0));
    assert!(router.health_snapshot(0).is_empty());
    run.on_stream_open(&mut router, false, 1, &routing);
    assert_eq!(router.health_snapshot(0)[0].total_success, 1);
}

fn image(n: u32) -> ContentBlock {
    ContentBlock::Image {
        source: MediaSource::Url {
            url: format!("https://x/{n}"),
        },
    }
}

fn pictures() -> ChatRequest {
    let mut req = ChatRequest::new("m", Dialect::OpenAI);
    req.messages.push(Message {
        role: Role::User,
        content: vec![image(1), ContentBlock::text("and"), image(2)],
    });
    req
}

#[test]
fn every_image_gets_its_description() {
    let mut req = pictures();
    assert_eq!(collect_images(&req).len(), 2);
    apply_descriptions(&mut req, &vec![Some("a cat".into()), None], "[image]");
    assert!(collect_images(&req).is_empty());
    let said: Vec<&str> = req.messages[0]
        .content
        .iter()
        .filter_map(|b| b.as_text())
        .collect();
    assert_eq!(said.len(), 3);
    assert!(said[0].contains("a cat"));
    assert!(said[2].contains("[image]"));
}

#[test]
fn images_are_described_where_the_model_cannot_see() {
    let mut blind = candidate("a");
    blind.entry.supports_vision = false;
    assert!(describes_first(true, &blind, &pictures()));
    assert!(!describes_first(false, &blind, &pictures()));
    assert!(!describes_first(true, &blind, &ChatRequest::new("m", Dialect::OpenAI)));
    blind.entry.supports_vision = true;
    assert!(!describes_first(true, &blind, &pictures()));
    let refused = Error::Upstream {
        provider: "P".into(),
        status: 400,
        body: "image input not supported".into(),
    };
    assert!(describes_after(true, &refused, &pictures()));
    assert!(!describes_after(true, &down(), &pictures()));
}

#[test]
fn routing_is_told_in_the_headers() {
    let mut h = build_headers(&provider(), None).unwrap();
    assert!(takes_more(&h));
    let mut c = candidate("a");
    c.degraded = true;
    inject_routing_headers(&mut h, &c, classifier());
    inject_cost_header(&mut h, Some("USD 0.1"));
    assert_eq!(h.get("x-zroutery-model").unwrap(), "p-a");
    assert_eq!(h.get("x-zroutery-provider").unwrap(), "P");
    assert_eq!(h.get("x-zroutery-degraded").unwrap(), "1");
    assert_eq!(h.get("x-zroutery-classifier").unwrap(), "1");
    assert_eq!(h.get("x-zroutery-cost").unwrap(), "USD 0.1");
    let mut h = build_headers(&provider(), None).unwrap();
    inject_routing_headers(&mut h, &candidate("a"), RequestKind::Main);
    inject_cost_header(&mut h, None);
    assert!(h.get("x-zroutery-degraded").is_none());
    assert!(h.get("x-zroutery-classifier").is_none());
    assert!(h.get("x-zroutery-cost").is_none());
}

#[test]
fn a_request_is_prepared_with_its_key() {
    let mut c = candidate("a");
    c.provider.key_ref = "provider:p".into();
    let req = pictures();
    assert!(matches!(
        prepare(&c, &req, None, EncodeMode::Normal),
        Err(Error::MissingApiKey(_))
    ));
    assert!(prepare(&c, &req, Some("sk".into()), EncodeMode::Normal).is_ok());
    assert!(reencode(&c, &req).is_some());
}

#[test]
fn a_stream_is_recorded_once() {
    let routing = RoutingConfig::default();
    let mut router = Router::new();
    let mut run = SseRun::new(
        stream_encoder(Dialect::OpenAI, "m", false),
        record(),
        "p-a",
        RequestKind::Main,
    );
    run.on_event(
        &StreamEvent::TextDelta {
            index: 0,
            text: "hi".into(),
        },
        40,
    );
    run.on_event(
        &StreamEvent::TextDelta {
            index: 0,
            text: "!".into(),
        },
        90,
    );
    let mut wire = String::new();
    while let Some(f) = run.next_frame() {
        wire.push_str(&f);
    }
    assert!(wire.contains("\"content\":\"hi\""));
    let rec = run.on_end(&mut router, &routing, 0, 100).unwrap();
    assert_eq!(rec.ttft_ms, Some(40));
    assert_eq!(rec.latency_ms, 100);
    assert!(run.finished);
    assert!(run.finalize(None, &mut router, &routing, 0, 100).is_none());
    assert!(!run.lacks_verdict());
}

#[test]
fn a_broken_stream_tells_the_client_and_counts() {
    let routing = RoutingConfig::default();
    let mut router = Router::new();
    let mut run = SseRun::new(
        stream_encoder(Dialect::Anthropic, "m", false),
        record(),
        "p-a",
        classifier(),
    );
    run.on_event(
        &StreamEvent::TextDelta {
            index: 0,
            text: "<block>".into(),
        },
        1,
    );
    assert!(run.lacks_verdict());
    let rec = run
        .on_error(&Error::Timeout(9), &mut router, &routing, 0, 50)
        .unwrap();
    assert!(!rec.ok);
    assert_eq!(rec.status, Error::Timeout(9).status());
    let mut wire = String::new();
    while let Some(f) = run.next_frame() {
        wire.push_str(&f);
    }
    assert!(wire.contains("event: error"));
    assert_eq!(router.health_snapshot(0)[0].total_failure, 1);
}

#[test]
fn images_are_described_by_the_first_model_that_sees() {
    let mut cfg = config();
    assert!(vision_target(&cfg).is_none());
    for i in [1, 2] {
        cfg.models[i].supports_vision = true;
    }
    assert_eq!(vision_target(&cfg).unwrap().entry.upstream_model, "mid");
    cfg.models[1].enabled = false;
    let target = vision_target(&cfg).unwrap();
    assert_eq!(target.exposed_id, "p-small");
    assert_eq!(target.provider.id, "p");
    cfg.providers[0].enabled = false;
    assert!(vision_target(&cfg).is_none());
}

#[test]
fn a_crowded_header_map_takes_no_more() {
    let mut p = provider();
    p.extra_headers = (0..6500).map(|i| (format!("x-{i}"), "v".to_string())).collect();
    let h = build_headers(&p, None).unwrap();
    assert!(h.keys_len() > 6500);
    assert!(!takes_more(&h));
}
