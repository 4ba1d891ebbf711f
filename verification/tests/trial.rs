use zroutery_core::config::{ModelEntry, ProviderConfig, ProviderKind, RectifierConfig};
use zroutery_core::error::Error;
use zroutery_core::ir::{ChatRequest, ContentBlock, Dialect, MediaSource, Message, Role};
use zroutery_core::json;
use zroutery_core::router::Candidate;
use zroutery_core::server::trial::{begin_trial, Sending, TrialStep};
use zroutery_core::upstream::EncodeMode;

fn candidate(sees: bool) -> Candidate {
    let p = ProviderConfig::new("p", "P", ProviderKind::OpenAICompatible);
    let mut m = ModelEntry::for_upstream("p", "m", None);
    m.supports_vision = sees;
    Candidate::new(&m, &p, false)
}

fn picture() -> ChatRequest {
    let mut req = ChatRequest::new("m", Dialect::OpenAI);
    req.messages.push(Message {
        role: Role::User,
        content: vec![ContentBlock::Image {
            source: MediaSource::Url {
                url: "https://x/1".into(),
            },
        }],
    });
    req
}

fn rectifiers(enabled: bool) -> RectifierConfig {
    RectifierConfig {
        enabled,
        thinking_signature: true,
        thinking_budget: true,
        media_fallback: true,
    }
}

fn no_images() -> Error {
    Error::Upstream {
        provider: "P".into(),
        status: 400,
        body: "image input not supported".into(),
    }
}

fn busy() -> Error {
    Error::Upstream {
        provider: "P".into(),
        status: 503,
        body: "busy".into(),
    }
}

fn sent(c: &Candidate, first: TrialStep) -> Sending {
    let step = match first {
        TrialStep::Prepare(p) => p.on_secret(c, Some("key".into()), EncodeMode::Normal),
        _ => panic!("nothing to prepare"),
    };
    let step = match step {
        TrialStep::Probe(p) => p.on_probe(true),
        _ => panic!("nothing to ask"),
    };
    match step {
        TrialStep::Send(s) => s,
        _ => panic!("nothing to send"),
    }
}

#[test]
fn a_blind_candidate_gets_descriptions_first() {
    let c = candidate(false);
    let d = match begin_trial(true, &c, picture()) {
        TrialStep::Describe(d) => d,
        _ => panic!("not described"),
    };
    let s = sent(&c, d.on_described(&c, &vec![Some("a cat".into())], "[image]"));
    assert!(!s.is_repaired());
    assert!(json::render(s.body()).contains("a cat"));
    assert!(!json::render(s.body()).contains("https://x/1"));
    // Nothing is described where the fallback is off.
    assert!(matches!(begin_trial(false, &c, picture()), TrialStep::Prepare(_)));
}

#[test]
fn rejected_images_are_described_before_the_rectifiers_run() {
    let c = candidate(true);
    let rs = rectifiers(true);
    let s = sent(&c, begin_trial(true, &c, picture()));
    assert!(json::render(s.body()).contains("https://x/1"));
    let d = match s.on_failure(&c, no_images(), true, &rs) {
        TrialStep::Describe(d) => d,
        _ => panic!("not described"),
    };
    let s = match d.on_described(&c, &vec![None], "[image]") {
        TrialStep::Send(s) => s,
        _ => panic!("not sent again"),
    };
    assert!(s.is_repaired());
    assert!(json::render(s.body()).contains("[image]"));
    // No image is left for the rectifiers, and the first rejection stands.
    match s.on_failure(&c, busy(), true, &rs) {
        TrialStep::Fail(e) => assert_eq!(e, no_images()),
        _ => panic!("not over"),
    }
}

#[test]
fn without_the_fallback_the_rectifiers_have_their_turn() {
    let c = candidate(true);
    let rs = rectifiers(true);
    let s = sent(&c, begin_trial(false, &c, picture()));
    let s = match s.on_failure(&c, no_images(), false, &rs) {
        TrialStep::Send(s) => s,
        _ => panic!("not repaired"),
    };
    assert!(s.is_repaired());
    assert!(json::render(s.body()).contains("[Unsupported Image]"));
    match s.on_failure(&c, busy(), false, &rs) {
        TrialStep::Fail(e) => assert_eq!(e, busy()),
        _ => panic!("not over"),
    }
    // With the rectifiers off, the rejection is final.
    let s = sent(&c, begin_trial(false, &c, picture()));
    match s.on_failure(&c, no_images(), false, &rectifiers(false)) {
        TrialStep::Fail(e) => assert_eq!(e, no_images()),
        _ => panic!("not over"),
    }
}

#[test]
fn a_refused_probe_sends_nothing() {
    let c = candidate(true);
    let step = match begin_trial(true, &c, picture()) {
        TrialStep::Prepare(p) => p.on_secret(&c, Some("key".into()), EncodeMode::Normal),
        _ => panic!("nothing to prepare"),
    };
    match step {
        TrialStep::Probe(p) => assert!(matches!(p.on_probe(false), TrialStep::Skip)),
        _ => panic!("nothing to ask"),
    }
}

#[test]
fn a_missing_key_ends_the_attempt_unprepared() {
    let mut c = candidate(true);
    c.provider.key_ref = "provider:p".into();
    match begin_trial(true, &c, picture()) {
        TrialStep::Prepare(p) => assert!(matches!(
            p.on_secret(&c, None, EncodeMode::Normal),
            TrialStep::Unprepared(_)
        )),
        _ => panic!("nothing to prepare"),
    }
}

#[test]
fn every_attempt_ends() {
    let c = candidate(true);
    let mut step = TrialStep::Send(sent(&c, begin_trial(true, &c, picture())));
    let mut steps = 0;
    loop {
        steps += 1;
        assert!(steps < 20);
        step = match step {
            TrialStep::Send(s) => s.on_failure(&c, no_images(), true, &rectifiers(true)),
            TrialStep::Describe(d) => d.on_described(&c, &vec![], "[image]"),
            TrialStep::Fail(_) => break,
            _ => panic!("out of turn"),
        };
    }
}
