use zroutery_core::query::{strip_client_model_modifier, RequestKind, SideQueryKind};

#[test]
fn kind_names_are_stable_for_stats() {
    assert_eq!(RequestKind::Main.as_str(), "main");
    assert_eq!(RequestKind::Side(SideQueryKind::AutoMode).as_str(), "auto_mode");
}

#[test]
fn strips_short_bracket_modifiers() {
    assert_eq!(strip_client_model_modifier("anthropic-opus-4-8[1m]"), "anthropic-opus-4-8");
    assert_eq!(strip_client_model_modifier("anthropic-sonnet-4-5[16m]"), "anthropic-sonnet-4-5");
    // A bare modifier with nothing before it stays whole rather than
    // collapsing to an empty string.
    assert_eq!(strip_client_model_modifier("[1m]"), "[1m]");
}

#[test]
fn leaves_real_ids_alone() {
    assert_eq!(strip_client_model_modifier("anthropic-opus-4-8"), "anthropic-opus-4-8");
    // Long or non-alphanumeric bracket content is treated as part of the id.
    assert_eq!(strip_client_model_modifier("model[not-a-modifier]"), "model[not-a-modifier]");
    assert_eq!(strip_client_model_modifier("model[]"), "model[]");
    // An unmatched bracket is nothing special.
    assert_eq!(strip_client_model_modifier("model[1m"), "model[1m");
    // Only the *trailing* bracket group counts.
    assert_eq!(strip_client_model_modifier("model[1m]tail"), "model[1m]tail");
}

#[test]
fn serde_names_match_the_stats_strings() {
    assert_eq!(
        serde_json::to_string(RequestKind::Side(SideQueryKind::AutoMode).as_str()).unwrap(),
        "\"auto_mode\""
    );
    assert_eq!(serde_json::to_string(RequestKind::Main.as_str()).unwrap(), "\"main\"");
    assert_eq!(
        RequestKind::from_name(&serde_json::from_str::<String>("\"main\"").unwrap()),
        Some(RequestKind::Main)
    );
    assert_eq!(RequestKind::from_name("other"), None);
}

#[test]
fn a_request_is_a_main_one_unless_told_otherwise() {
    assert_eq!(RequestKind::default(), RequestKind::Main);
    assert!(RequestKind::Main.is_main());
    assert!(!RequestKind::Side(SideQueryKind::AutoMode).is_main());
}
