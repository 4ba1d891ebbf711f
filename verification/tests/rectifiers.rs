use zroutery_core::config::RectifierConfig;
use zroutery_core::error::Error;
use zroutery_core::json::{self, Json};
use zroutery_core::rectifier::media_fallback::MediaFallbackRectifier;
use zroutery_core::rectifier::thinking_budget::ThinkingBudgetRectifier;
use zroutery_core::rectifier::thinking_signature::ThinkingSignatureRectifier;
use zroutery_core::rectifier::{from_config, Rectifier};
use zroutery_core::server::pipeline::Repairs;

fn j(text: &str) -> Json {
    json::parse(text).unwrap()
}

fn get<'a>(v: &'a Json, path: &str) -> Option<&'a Json> {
    let mut at = v;
    for p in path.split('.') {
        at = match at {
            Json::Obj(list) => &list.iter().find(|(k, _)| k == p)?.1,
            Json::Arr(a) => a.get(p.parse::<usize>().ok()?)?,
            _ => return None,
        };
    }
    Some(at)
}

fn text(x: &str) -> Json {
    Json::Str(x.to_string())
}

fn rejected(status: u16, body: &str) -> Error {
    Error::Upstream {
        provider: "P".into(),
        status,
        body: body.into(),
    }
}

fn all_on() -> RectifierConfig {
    RectifierConfig {
        enabled: true,
        thinking_signature: true,
        thinking_budget: true,
        media_fallback: true,
    }
}

#[test]
fn budgets_are_halved_down_to_the_floor() {
    let r = ThinkingBudgetRectifier;
    assert!(r.should_apply(&rejected(400, "Thinking BUDGET too large"), &Json::Null));
    assert!(!r.should_apply(&rejected(400, "budget"), &Json::Null));
    let mut body = j(r#"{"thinking": {"type": "enabled", "budget_tokens": 5000}}"#);
    let done = r.rectify(&mut body);
    assert!(done.applied);
    assert_eq!(done.details, "reduced thinking budget from 5000 to 2500");
    assert_eq!(get(&body, "thinking.budget_tokens"), Some(&Json::UInt(2500)));
    assert!(r.rectify(&mut body).applied);
    assert!(r.rectify(&mut body).applied);
    assert_eq!(get(&body, "thinking.budget_tokens"), Some(&Json::UInt(1024)));
    let done = r.rectify(&mut body);
    assert!(!done.applied);
    assert_eq!(done.details, "budget is already at the minimum");
    assert!(!r.rectify(&mut j("{}")).applied);
}

#[test]
fn images_give_way_to_a_placeholder() {
    let r = MediaFallbackRectifier;
    assert!(r.should_apply(&rejected(400, "Image input is not supported"), &Json::Null));
    assert!(!r.should_apply(&rejected(500, "Image input is not supported"), &Json::Null));
    assert!(!r.should_apply(&rejected(400, "image too large"), &Json::Null));
    let mut body = j(r#"{"messages": [
        {"role": "user", "content": [{"type": "image", "cache_control": {"type": "ephemeral"}}, {"type": "text", "text": "t"}]},
        {"role": "user", "content": "plain"}
    ]}"#);
    assert!(r.rectify(&mut body).applied);
    assert_eq!(
        get(&body, "messages.0.content.0"),
        Some(&j(
            r#"{"type": "text", "text": "[Unsupported Image]", "cache_control": {"type": "ephemeral"}}"#
        ))
    );
    assert_eq!(get(&body, "messages.0.content.1.text"), Some(&text("t")));
    assert!(!r.rectify(&mut body).applied);
}

#[test]
fn stale_thinking_is_taken_out() {
    let r = ThinkingSignatureRectifier;
    assert!(r.should_apply(
        &rejected(400, "messages.1: must start with a thinking block"),
        &Json::Null
    ));
    assert!(!r.should_apply(&rejected(400, "bad request"), &Json::Null));
    let mut body = j(r#"{"messages": [{"role": "assistant", "content": [
        {"type": "thinking", "thinking": "x", "signature": "s"},
        {"type": "text", "text": "t", "signature": "s"}
    ]}]}"#);
    assert!(r.rectify(&mut body).applied);
    assert_eq!(
        get(&body, "messages.0.content"),
        Some(&j(r#"[{"type": "text", "text": "t"}]"#))
    );
    assert!(!r.rectify(&mut body).applied);
}

#[test]
fn only_enabled_rectifiers_are_used() {
    let names = |c: &RectifierConfig| -> Vec<&'static str> {
        from_config(c).iter().map(|r| r.name()).collect()
    };
    assert_eq!(
        names(&all_on()),
        vec!["thinking_signature", "media_fallback", "thinking_budget"]
    );
    assert!(names(&RectifierConfig {
        enabled: false,
        ..all_on()
    })
    .is_empty());
    assert_eq!(
        names(&RectifierConfig {
            media_fallback: false,
            thinking_signature: false,
            ..all_on()
        }),
        vec!["thinking_budget"]
    );
}

#[test]
fn a_rejected_request_is_repaired_a_few_times_and_no_more() {
    let body = j(r#"{"thinking": {"type": "enabled", "budget_tokens": 1000000}}"#);
    let mut repairs = Repairs::new(&all_on(), body, rejected(400, "thinking budget must be lower"));
    let mut sent = 0;
    while repairs.repair() {
        sent += 1;
        repairs.on_failure(rejected(400, "thinking budget must be lower"));
        assert!(sent < 100, "repairing must end");
    }
    assert_eq!(sent, 3);
    assert_eq!(get(&repairs.body, "thinking.budget_tokens"), Some(&Json::UInt(125_000)));
    assert!(repairs.retried);
}

#[test]
fn an_error_that_no_rectifier_knows_is_not_retried() {
    let mut repairs = Repairs::new(&all_on(), j("{}"), Error::Timeout(3));
    assert!(!repairs.repair());
    assert!(!repairs.retried);
    assert_eq!(repairs.error, Error::Timeout(3));
}

#[test]
fn a_second_repair_of_thinking_changes_nothing() {
    let r = ThinkingSignatureRectifier;
    let mut body = j(r#"{
        "thinking": {"type": "enabled", "budget_tokens": 5000},
        "messages": [
            {"role": "assistant", "content": [
                {"type": "thinking", "thinking": "t", "signature": "s"},
                {"type": "text", "text": "hi", "signature": "s"}
            ]},
            {"role": "user", "content": "plain"}
        ]
    }"#);
    assert!(r.rectify(&mut body).applied);
    assert!(get(&body, "thinking").is_none());
    let once = body.clone();
    assert!(!r.rectify(&mut body).applied);
    assert_eq!(body, once);
}
