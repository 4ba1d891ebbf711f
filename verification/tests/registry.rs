use std::sync::Arc;

use zroutery_core::config::{
    AppConfig, ClientAlias, ModelClass, ModelEntry, ProviderConfig, ProviderKind, RoutingConfig,
};
use zroutery_core::error::Error;
use zroutery_core::registry::{Registry, Resolution};

const CLASSES: [ModelClass; 3] = [ModelClass::Opus, ModelClass::Sonnet, ModelClass::Haiku];

fn registry(cfg: AppConfig) -> Registry {
    Registry::new(Arc::new(cfg))
}

fn ids(members: &[&ModelEntry]) -> Vec<String> {
    members.iter().map(|m| m.exposed_id()).collect()
}

/// The scenario from the product brief: DeepSeek (flash + pro) and OpenAI
/// (gpt-5.3-sol), with classes assigned by hand.
fn brief_config() -> AppConfig {
    let mut cfg = AppConfig::default();
    cfg.providers.push(ProviderConfig::new(
        "deepseek",
        "DeepSeek",
        ProviderKind::OpenAICompatible,
    ));
    cfg.providers.push(ProviderConfig::new(
        "openai",
        "OpenAI",
        ProviderKind::OpenAICompatible,
    ));
    cfg.models.push(ModelEntry::for_upstream(
        "deepseek",
        "deepseek-v4-flash",
        Some(ModelClass::Haiku),
    ));
    cfg.models.push(ModelEntry::for_upstream(
        "deepseek",
        "deepseek-v4-pro",
        Some(ModelClass::Sonnet),
    ));
    cfg.models.push(ModelEntry::for_upstream(
        "openai",
        "gpt-5.3-sol",
        Some(ModelClass::Opus),
    ));
    cfg
}

#[test]
fn lists_concrete_and_virtual_models() {
    let r = registry(brief_config());
    let ids: Vec<String> = r.list().into_iter().map(|m| m.id).collect();
    assert_eq!(
        ids,
        vec![
            "deepseek-deepseek-v4-flash",
            "deepseek-deepseek-v4-pro",
            "openai-gpt-5.3-sol",
            "opus-class",
            "sonnet-class",
            "haiku-class",
        ]
    );
    // The short upstream name is what the listing shows as a label.
    let info = r
        .list()
        .into_iter()
        .find(|m| m.id == "openai-gpt-5.3-sol")
        .unwrap();
    assert_eq!(info.display_name, "gpt-5.3-sol");
    assert_eq!(info.provider_name.as_deref(), Some("OpenAI"));
}

#[test]
fn the_same_model_on_two_providers_resolves_independently() {
    let mut cfg = brief_config();
    cfg.providers.push(ProviderConfig::new(
        "openrouter",
        "OpenRouter",
        ProviderKind::OpenAICompatible,
    ));
    // Same upstream name as the direct DeepSeek entry.
    cfg.models.push(ModelEntry::for_upstream(
        "openrouter",
        "deepseek-v4-pro",
        Some(ModelClass::Sonnet),
    ));
    let r = registry(cfg);

    let direct = r.resolve("deepseek-deepseek-v4-pro").unwrap();
    let proxied = r.resolve("openrouter-deepseek-v4-pro").unwrap();
    assert_ne!(direct, proxied);
    assert_eq!(r.entry("deepseek-deepseek-v4-pro").unwrap().provider_id, "deepseek");
    assert_eq!(
        r.entry("openrouter-deepseek-v4-pro").unwrap().provider_id,
        "openrouter"
    );
    // Both are members of the class and can fail over to each other.
    assert_eq!(
        ids(&r.class_members(ModelClass::Sonnet)),
        vec!["deepseek-deepseek-v4-pro", "openrouter-deepseek-v4-pro"]
    );
}

#[test]
fn unclassified_model_is_callable_but_not_in_a_class() {
    let mut cfg = brief_config();
    cfg.models
        .push(ModelEntry::for_upstream("openai", "mystery-1", None));
    let r = registry(cfg);
    assert_eq!(
        r.resolve("openai-mystery-1").unwrap(),
        Resolution::Direct("openai-mystery-1".into())
    );
    for class in CLASSES {
        assert!(r
            .class_members(class)
            .iter()
            .all(|m| m.upstream_model != "mystery-1"));
    }
    assert!(r
        .list()
        .iter()
        .any(|m| m.id == "openai-mystery-1" && m.class.is_none()));
}

#[test]
fn resolves_class_ids_and_direct_ids() {
    let r = registry(brief_config());
    assert_eq!(
        r.resolve("sonnet-class").unwrap(),
        Resolution::Class(ModelClass::Sonnet)
    );
    assert_eq!(
        r.resolve("openai-gpt-5.3-sol").unwrap(),
        Resolution::Direct("openai-gpt-5.3-sol".into())
    );
    // The bare upstream name is not an id any more.
    assert!(r.resolve("gpt-5.3-sol").is_err());
    assert_eq!(ids(&r.class_members(ModelClass::Opus)), vec!["openai-gpt-5.3-sol"]);
}

#[test]
fn claude_style_names_map_to_classes() {
    let r = registry(brief_config());
    assert_eq!(
        r.resolve("anthropic-sonnet-4-5-20250929").unwrap(),
        Resolution::Class(ModelClass::Sonnet)
    );
    assert_eq!(
        r.resolve("anthropic-3-5-haiku-latest").unwrap(),
        Resolution::Class(ModelClass::Haiku)
    );

    let mut cfg = brief_config();
    cfg.routing.match_claude_names = false;
    let r = registry(cfg);
    assert!(r.resolve("anthropic-sonnet-4-5-20250929").is_err());
}

#[test]
fn explicit_alias_beats_heuristic() {
    let mut cfg = brief_config();
    // Route the opus name to the cheap tier on purpose.
    cfg.routing.client_aliases.push(ClientAlias {
        name: "anthropic-opus-4-1".into(),
        class: ModelClass::Haiku,
    });
    let r = registry(cfg);
    assert_eq!(
        r.resolve("anthropic-opus-4-1").unwrap(),
        Resolution::Class(ModelClass::Haiku)
    );
}

#[test]
fn model_alias_resolves_directly() {
    let mut cfg = brief_config();
    cfg.models[1].aliases.push("ds-pro".into());
    let r = registry(cfg);
    assert_eq!(
        r.resolve("ds-pro").unwrap(),
        Resolution::Direct("deepseek-deepseek-v4-pro".into())
    );
}

#[test]
fn unknown_model_errors_unless_fallback_is_set() {
    let r = registry(brief_config());
    let err = r.resolve("does-not-exist").unwrap_err();
    assert!(matches!(err, Error::UnknownModel(_)));

    let mut cfg = brief_config();
    cfg.routing = RoutingConfig {
        unknown_model_fallback: Some(ModelClass::Sonnet),
        ..RoutingConfig::default()
    };
    let r = registry(cfg);
    assert_eq!(
        r.resolve("does-not-exist").unwrap(),
        Resolution::Class(ModelClass::Sonnet)
    );
}

#[test]
fn disabled_provider_hides_its_models() {
    let mut cfg = brief_config();
    cfg.providers[0].enabled = false;
    let r = registry(cfg);
    assert!(r.class_members(ModelClass::Sonnet).is_empty());
    assert!(!r.list().iter().any(|m| m.id == "sonnet-class"));
    assert!(!r.list().iter().any(|m| m.id == "deepseek-deepseek-v4-pro"));
}

#[test]
fn priority_orders_class_members() {
    let mut cfg = brief_config();
    cfg.models.push(
        ModelEntry::for_upstream("openai", "backup-sonnet", Some(ModelClass::Sonnet))
            .with_priority(-5),
    );
    let r = registry(cfg);
    assert_eq!(
        ids(&r.class_members(ModelClass::Sonnet)),
        vec!["openai-backup-sonnet", "deepseek-deepseek-v4-pro"]
    );
}

#[test]
fn names_are_trimmed_and_must_not_be_empty() {
    let r = registry(brief_config());
    assert_eq!(
        r.resolve("  sonnet-class\n").unwrap(),
        Resolution::Class(ModelClass::Sonnet)
    );
    assert!(matches!(r.resolve("   "), Err(Error::InvalidRequest(_))));
}

#[test]
fn exposed_ids_hold_no_separators() {
    let e = ModelEntry::for_upstream("openrouter", "deepseek/chat:free", None);
    assert_eq!(e.exposed_id(), "openrouter-deepseek-chat-free");
    assert!(e.answers_to("openrouter-deepseek-chat-free"));
    assert!(!e.answers_to("deepseek/chat:free"));
}

#[test]
fn class_ids_lead_back_to_their_class() {
    for class in CLASSES {
        assert_eq!(ModelClass::from_virtual_id(class.virtual_id()), Some(class));
    }
    assert_eq!(ModelClass::from_virtual_id("SONNET-CLASS"), None);
}

#[test]
fn upper_case_names_match_the_heuristic() {
    let r = registry(brief_config());
    assert_eq!(
        r.resolve("Anthropic-OPUS").unwrap(),
        Resolution::Class(ModelClass::Opus)
    );
}

#[test]
fn the_listing_is_models_by_id_and_then_classes() {
    let mut cfg = brief_config();
    cfg.providers.push(ProviderConfig::new("off", "Off", ProviderKind::Anthropic));
    cfg.providers[2].enabled = false;
    cfg.models.insert(0, ModelEntry::for_upstream("off", "a", Some(ModelClass::Opus)));
    cfg.models.insert(0, ModelEntry::for_upstream("openai", "a", Some(ModelClass::Haiku)));
    cfg.models[0].supports_tools = false;
    let list = registry(cfg).list();
    let ids: Vec<&str> = list.iter().map(|m| m.id.as_str()).collect();
    assert_eq!(
        ids,
        vec![
            "deepseek-deepseek-v4-flash",
            "deepseek-deepseek-v4-pro",
            "openai-a",
            "openai-gpt-5.3-sol",
            "opus-class",
            "sonnet-class",
            "haiku-class",
        ]
    );
    let haiku = &list[6];
    assert!(haiku.virtual_model);
    assert_eq!(haiku.member_count, 2);
    assert!(!haiku.supports_tools);
    assert!(list[5].supports_tools);
}

#[test]
fn a_client_modifier_goes_before_resolution() {
    let r = registry(brief_config());
    assert_eq!(
        r.resolve_request("deepseek-deepseek-v4-pro[1m]").unwrap(),
        Resolution::Direct("deepseek-deepseek-v4-pro".to_string())
    );
    assert_eq!(
        r.resolve_request(" sonnet-class[16m] ").unwrap(),
        Resolution::Class(ModelClass::Sonnet)
    );
    assert_eq!(r.resolve_request("sonnet-class").unwrap(), r.resolve("sonnet-class").unwrap());
    match r.resolve_request("nothing-here[1m]") {
        Err(Error::UnknownModel(id)) => assert_eq!(id, "nothing-here[1m]"),
        other => panic!("{other:?}"),
    }
    assert!(matches!(r.resolve_request("  "), Err(Error::InvalidRequest(_))));
}
