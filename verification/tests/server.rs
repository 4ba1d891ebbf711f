use std::sync::Arc;

use zroutery_core::config::{AppConfig, ModelClass, ModelEntry, ProviderConfig, ProviderKind, ServerConfig};
use zroutery_core::error::Error;
use zroutery_core::ir::Dialect;
use zroutery_core::json::Json;
use zroutery_core::registry::{Registry, Resolution};
use zroutery_core::router::Router;
use zroutery_core::server::{
    api_key, authorized, body_error, Cors, constant_time_eq, cors_origins, count_tokens, error_response,
    first_candidate, get_model, health, list_models, status, unknown_route, wrong_method, AppState,
    BodyFault, PriceTag,
};

fn get<'a>(v: &'a Json, path: &str) -> Option<&'a Json> {
    let mut at = v;
    for p in path.split('.') {
        at = match at {
            Json::Obj(list) => &list.iter().find(|(k, _)| k == p)?.1,
            Json::Arr(a) => a.get(p.parse::<usize>().ok()?)?,
            _ => return None,
        };
    }
    Some(at)
}

fn words<'a>(v: &'a Json, path: &str) -> &'a str {
    match get(v, path) {
        Some(Json::Str(s)) => s.as_str(),
        other => panic!("no text at {path}: {other:?}"),
    }
}

fn text(x: &str) -> Json {
    Json::Str(x.to_string())
}

#[test]
fn token_comparison_is_length_safe_and_exact() {
    assert!(constant_time_eq(b"zr-abc", b"zr-abc"));
    assert!(!constant_time_eq(b"zr-abc", b"zr-abd"));
    // A prefix must not pass, which is what a naive loop would allow.
    assert!(!constant_time_eq(b"zr-ab", b"zr-abc"));
    assert!(!constant_time_eq(b"", b"zr-abc"));
    assert!(constant_time_eq(b"", b""));
}

#[test]
fn an_unknown_path_answers_in_the_likely_dialect() {
    // A models path is an OpenAI client's, so use its envelope.
    let (code, body) = unknown_route("GET", "/v2/models");
    assert_eq!(code, 404);
    assert_eq!(get(&body, "error.code"), Some(&text("not_found_error")));
    assert!(words(&body, "error.message").contains("GET /v2/models"));
    match get(&body, "zroutery.endpoints") {
        Some(Json::Arr(list)) => assert!(list.contains(&text("/v1/models"))),
        other => panic!("{other:?}"),
    }

    // Anything that mentions messages is an Anthropic client's.
    let (_, body) = unknown_route("POST", "/v1/messages/typo");
    assert_eq!(get(&body, "type"), Some(&text("error")));
    assert_eq!(get(&body, "error.type"), Some(&text("not_found_error")));
}

#[test]
fn a_doubled_version_prefix_is_named_as_the_cause() {
    let (_, body) = unknown_route("POST", "/v1/v1/messages");
    let cause = words(&body, "zroutery.likely_cause");
    assert!(cause.contains("base URL already ends in /v1"), "{cause}");
    assert!(cause.contains("/v1/messages"), "{cause}");

    // A single prefix is normal and gets no lecture.
    let (_, body) = unknown_route("POST", "/v1/nope");
    assert!(get(&body, "zroutery.likely_cause").is_none());
}

#[test]
fn a_wrong_verb_names_the_verb_it_wants() {
    let (code, body) = wrong_method("GET", "/v1/chat/completions");
    assert_eq!(code, 405);
    let message = words(&body, "error.message");
    assert!(message.contains("POST endpoint"), "{message}");
    assert!(message.contains("not GET"), "{message}");

    // Listings are the other way round.
    let (_, body) = wrong_method("POST", "/v1/models");
    let message = words(&body, "error.message");
    assert!(message.contains("GET endpoint"), "{message}");
    assert_eq!(get(&body, "error.code"), Some(&text("method_not_allowed")));
}

#[test]
fn cors_is_off_unless_asked_for() {
    let mut server = ServerConfig::default();
    assert_eq!(cors_origins(&server), Cors::Off);
    server.allow_cors = true;
    assert_ne!(cors_origins(&server), Cors::Off);
    // An empty list still builds a layer, and `validate` is what complains.
    server.cors_origins = vec!["http://localhost:3000".into()];
    assert_ne!(cors_origins(&server), Cors::Off);
    // A malformed origin is dropped rather than rejected: the rest still works.
    server.cors_origins = vec!["not a header\nvalue".into(), " http://localhost:1 ".into()];
    assert_eq!(cors_origins(&server), Cors::Only(vec!["http://localhost:1".to_string()]));
}

#[test]
fn an_empty_list_admits_any_origin_and_a_bad_one_none() {
    let mut server = ServerConfig::default();
    server.allow_cors = true;
    server.cors_origins = Vec::new();
    assert_eq!(cors_origins(&server), Cors::Any);
    server.cors_origins = vec!["not a header\nvalue".into()];
    assert_eq!(cors_origins(&server), Cors::Only(Vec::new()));
    server.allow_cors = false;
    assert_eq!(cors_origins(&server), Cors::Off);
}

#[test]
fn every_path_names_its_own_verb() {
    let (code, body) = wrong_method("POST", "/v1/models/gpt");
    assert_eq!(code, 405);
    assert_eq!(words(&body, "error.message"), "/v1/models/gpt is a GET endpoint, not POST");
    for path in ["/models", "/models/gpt", "/status", "/v1/status", "/health", "/v1/models"] {
        let (_, body) = wrong_method("PUT", path);
        assert_eq!(words(&body, "error.message"), format!("{path} is a GET endpoint, not PUT"));
    }
    for path in ["/v1/messages", "/messages", "/v1/messages/count_tokens", "/v1/chat/completions"] {
        let (_, body) = wrong_method("GET", path);
        assert_eq!(words(&body, "error.message"), format!("{path} is a POST endpoint, not GET"));
    }
}

#[test]
fn a_missing_key_is_a_precondition_not_a_silent_none() {
    let mut provider = ProviderConfig::new("has", "Has", ProviderKind::OpenAICompatible);
    provider.key_ref = "provider:has".into();
    assert_eq!(
        api_key(&provider, Some("sk-1".to_string())).unwrap().as_deref(),
        Some("sk-1")
    );

    provider.key_ref = "provider:missing".into();
    assert!(matches!(api_key(&provider, None), Err(Error::MissingApiKey(_))));
    assert!(matches!(
        api_key(&provider, Some(String::new())),
        Err(Error::MissingApiKey(_))
    ));

    // A provider that needs no credential says so explicitly.
    provider.key_ref = String::new();
    assert!(api_key(&provider, None).unwrap().is_none());
}

fn one_model() -> AppConfig {
    let mut cfg = AppConfig::default();
    cfg.providers
        .push(ProviderConfig::new("p", "P", ProviderKind::OpenAICompatible));
    cfg.models
        .push(ModelEntry::for_upstream("p", "m", Some(ModelClass::Sonnet)));
    cfg
}

#[test]
fn swapping_the_config_rebuilds_the_registry_with_it() {
    let mut state = AppState::new(AppConfig::default());
    assert!(state.registry().list().is_empty());

    state.set_config(one_model());

    // The cached index has to move with the document, not lag behind it.
    assert_eq!(state.config().models.len(), 1);
    assert!(state.registry().list().iter().any(|m| m.id == "p-m"));
    assert!(state
        .registry()
        .resolve("sonnet-class")
        .is_ok_and(|r| matches!(r, Resolution::Class(_))));
}

#[test]
fn tokens_are_taken_from_either_header() {
    let mut server = ServerConfig::default();
    server.auth_token = "zr-1".into();
    assert!(authorized(&server, Some("zr-1"), None));
    assert!(authorized(&server, None, Some("Bearer zr-1")));
    assert!(!authorized(&server, None, Some("zr-1")));
    assert!(!authorized(&server, None, None));
    // The key header wins, right or wrong.
    assert!(!authorized(&server, Some("zr-2"), Some("Bearer zr-1")));
    // Without a token nothing passes, not even an empty one.
    server.auth_token = String::new();
    assert!(!authorized(&server, Some(""), None));
    server.require_auth = false;
    assert!(authorized(&server, None, None));
}

#[test]
fn bodies_that_cannot_be_read_are_told_apart() {
    let server = ServerConfig::default();
    assert_eq!(body_error(&server, BodyFault::TooLarge), Error::TooLarge { limit_mib: 32 });
    assert_eq!(body_error(&server, BodyFault::TooLarge).status(), 413);
    assert_eq!(
        body_error(&server, BodyFault::Malformed("no json".into())),
        Error::InvalidRequest("no json".into())
    );
}

#[test]
fn errors_keep_their_status_and_envelope() {
    let (code, body) = error_response(Dialect::Anthropic, &Error::Unauthorized);
    assert_eq!(code, 401);
    assert_eq!(get(&body, "type"), Some(&text("error")));
    assert_eq!(get(&body, "error.type"), Some(&text("authentication_error")));
}

#[test]
fn listings_and_status_say_what_is_there() {
    let registry = Registry::new(Arc::new(one_model()));
    assert_eq!(words(&health(), "status"), "ok");
    let s = status(&registry, "1.2.3");
    assert_eq!(get(&s, "version"), Some(&text("1.2.3")));
    assert_eq!(get(&s, "models"), Some(&Json::UInt(2)));
    assert_eq!(get(&s, "providers"), Some(&Json::UInt(1)));
    assert_eq!(get(&s, "auth_required"), Some(&Json::Bool(true)));

    let list = list_models(&registry, 7, "then");
    assert_eq!(get(&list, "first_id"), Some(&text("p-m")));
    assert_eq!(get(&list, "last_id"), Some(&text("sonnet-class")));
    assert_eq!(get(&list, "data.0.owned_by"), Some(&text("P")));
    assert_eq!(get(&list, "data.1.owned_by"), Some(&text("zroutery")));
    assert_eq!(get(&list, "data.1.zroutery.class"), Some(&text("sonnet")));
    assert_eq!(get(&list, "data.1.zroutery.member_count"), Some(&Json::UInt(1)));
    assert_eq!(get(&list, "data.0.created"), Some(&Json::UInt(7)));

    let one = get_model(&registry, "p-m", 7, "then").unwrap();
    assert_eq!(get(&one, "display_name"), Some(&text("m")));
    assert_eq!(
        get_model(&registry, "nope", 7, "then"),
        Err(Error::UnknownModel("nope".into()))
    );
}

#[test]
fn token_counts_name_the_model_and_its_price() {
    let bare = count_tokens(42, None, None);
    assert_eq!(get(&bare, "input_tokens"), Some(&Json::UInt(42)));
    assert_eq!(get(&bare, "zroutery.estimated"), Some(&Json::Bool(true)));
    assert!(get(&bare, "zroutery.model").is_none());
    let priced = count_tokens(
        42,
        Some("p-m"),
        Some(PriceTag {
            currency: "CNY".into(),
            input_cost: Json::UInt(1),
            input_per_mtok: Json::UInt(2),
            output_per_mtok: Json::UInt(8),
        }),
    );
    assert_eq!(get(&priced, "zroutery.model"), Some(&text("p-m")));
    assert_eq!(get(&priced, "zroutery.estimated_input_cost.currency"), Some(&text("CNY")));
    assert_eq!(get(&priced, "zroutery.output_per_mtok"), Some(&Json::UInt(8)));
}

#[test]
fn the_first_candidate_is_the_one_that_would_answer() {
    let registry = Registry::new(Arc::new(one_model()));
    let mut router = Router::new();
    let c = first_candidate(&mut router, &registry, "sonnet-class", 0).unwrap();
    assert_eq!(c.exposed_id, "p-m");
    assert!(first_candidate(&mut router, &registry, "nothing-here", 0).is_none());
    let c = first_candidate(&mut router, &registry, "p-m[1m]", 0).unwrap();
    assert_eq!(c.exposed_id, "p-m");
}
