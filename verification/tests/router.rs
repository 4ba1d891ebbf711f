use std::sync::Arc;

use zroutery_core::circuit_breaker::{CircuitBreaker, CircuitBreakerConfig, CircuitState};
use zroutery_core::config::{
    AppConfig, ClassifierCandidate, ClassifierConfig, ModelClass, ModelEntry, ProviderConfig,
    ProviderKind, RoutingConfig, RoutingStrategy,
};
use zroutery_core::election::{ClassOrder, Election};
use zroutery_core::error::Error;
use zroutery_core::ir::Capability;
use zroutery_core::registry::{Registry, Resolution};
use zroutery_core::router::{weighted_shuffle, Candidate, Router};

fn cfg_with(models: Vec<ModelEntry>) -> AppConfig {
    let mut cfg = AppConfig::default();
    cfg.providers
        .push(ProviderConfig::new("p1", "P1", ProviderKind::OpenAICompatible));
    cfg.providers
        .push(ProviderConfig::new("p2", "P2", ProviderKind::Anthropic));
    cfg.models = models;
    cfg
}

fn reg(cfg: AppConfig) -> Registry {
    Registry::new(Arc::new(cfg))
}

fn ids(c: &[Candidate]) -> Vec<&str> {
    c.iter().map(|c| c.exposed_id.as_str()).collect()
}

fn breaker(failure_threshold: u32, timeout_secs: u64) -> CircuitBreakerConfig {
    CircuitBreakerConfig {
        failure_threshold,
        timeout_secs,
        ..CircuitBreakerConfig::default()
    }
}

fn routing_with(circuit_breaker: CircuitBreakerConfig) -> RoutingConfig {
    RoutingConfig {
        circuit_breaker,
        ..RoutingConfig::default()
    }
}

#[test]
fn direct_request_does_not_failover() {
    let r = reg(cfg_with(vec![
        ModelEntry::for_upstream("p1", "a", Some(ModelClass::Sonnet)),
        ModelEntry::for_upstream("p2", "b", Some(ModelClass::Sonnet)),
    ]));
    let mut router = Router::new();
    let plan = router
        .plan(&r, &Resolution::Direct("p1-a".into()), &vec![], 0)
        .unwrap();
    assert_eq!(ids(&plan), vec!["p1-a"]);
}

#[test]
fn tier_plan_follows_priority_and_respects_max_attempts() {
    let mut cfg = cfg_with(vec![
        ModelEntry::for_upstream("p1", "first", Some(ModelClass::Opus)).with_priority(0),
        ModelEntry::for_upstream("p2", "second", Some(ModelClass::Opus)).with_priority(10),
        ModelEntry::for_upstream("p1", "third", Some(ModelClass::Opus)).with_priority(20),
    ]);
    cfg.routing.max_attempts = 2;
    let r = reg(cfg);
    let mut router = Router::new();
    let plan = router
        .plan(&r, &Resolution::Class(ModelClass::Opus), &vec![], 0)
        .unwrap();
    assert_eq!(ids(&plan), vec!["p1-first", "p2-second"]);
}

#[test]
fn failover_disabled_yields_single_attempt() {
    let mut cfg = cfg_with(vec![
        ModelEntry::for_upstream("p1", "a", Some(ModelClass::Haiku)),
        ModelEntry::for_upstream("p2", "b", Some(ModelClass::Haiku)),
    ]);
    cfg.routing.failover = false;
    let r = reg(cfg);
    let plan = Router::new()
        .plan(&r, &Resolution::Class(ModelClass::Haiku), &vec![], 0)
        .unwrap();
    assert_eq!(plan.len(), 1);
}

#[test]
fn empty_tier_is_an_error() {
    let r = reg(cfg_with(vec![ModelEntry::for_upstream("p1", "a", None)]));
    let err = Router::new()
        .plan(&r, &Resolution::Class(ModelClass::Sonnet), &vec![], 0)
        .unwrap_err();
    assert!(matches!(err, Error::NoCandidate(_)));
}

#[test]
fn circuit_breaker_demotes_then_recovers() {
    let mut cfg = cfg_with(vec![
        ModelEntry::for_upstream("p1", "bad", Some(ModelClass::Sonnet)).with_priority(0),
        ModelEntry::for_upstream("p2", "good", Some(ModelClass::Sonnet)).with_priority(5),
    ]);
    cfg.routing.circuit_breaker.timeout_secs = 0;
    let routing = routing_with(cfg.routing.circuit_breaker);
    let r = reg(cfg);
    let mut router = Router::new();
    let class = Resolution::Class(ModelClass::Sonnet);

    assert_eq!(ids(&router.plan(&r, &class, &vec![], 0).unwrap())[0], "p1-bad");

    let err = Error::Timeout(5);
    for _ in 0..routing.circuit_breaker.failure_threshold {
        router.report_failure("p1-bad", &err, &routing, 0);
    }
    assert!(router.is_cooling("p1-bad"));
    let plan = router.plan(&r, &class, &vec![], 0).unwrap();
    assert_eq!(ids(&plan), vec!["p2-good", "p1-bad"]);
    assert!(!plan[0].degraded && plan[1].degraded);

    // The timeout has already elapsed (0s), so the router offers the model
    // as a half-open probe. One probe success is not enough; the configured
    // success threshold (2) must be reached before it is healthy again.
    assert!(router.allow_request("p1-bad", 0));
    router.report_success("p1-bad", 10, &routing);
    assert!(
        router.health_snapshot(0)[0].state == CircuitState::HalfOpen,
        "a single probe success should not close the breaker yet"
    );
    router.report_success("p1-bad", 10, &routing);
    assert_eq!(router.health_snapshot(0)[0].state, CircuitState::Closed);
    assert_eq!(ids(&router.plan(&r, &class, &vec![], 0).unwrap())[0], "p1-bad");
}

#[test]
fn a_recovered_breaker_needs_fresh_evidence_to_trip_again() {
    let routing = routing_with(breaker(3, 0));
    let mut router = Router::new();
    let err = Error::Timeout(1);

    for _ in 0..routing.circuit_breaker.failure_threshold {
        router.report_failure("p1-flaky", &err, &routing, 0);
    }
    assert!(router.is_cooling("p1-flaky"));

    // Move through half-open to a fully closed breaker.
    assert!(router.allow_request("p1-flaky", 0));
    router.report_success("p1-flaky", 10, &routing);
    router.report_success("p1-flaky", 10, &routing);
    assert!(!router.is_cooling("p1-flaky"));

    // A single transient blip after recovery is not a pattern yet.
    router.report_failure("p1-flaky", &err, &routing, 0);
    assert!(
        !router.is_cooling("p1-flaky"),
        "one failure after recovery should not re-open the breaker"
    );

    // Reaching the threshold again with new failures does.
    for _ in 1..routing.circuit_breaker.failure_threshold {
        router.report_failure("p1-flaky", &err, &routing, 0);
    }
    assert!(router.is_cooling("p1-flaky"));
}

#[test]
fn retain_models_drops_entries_that_no_longer_exist() {
    let routing = RoutingConfig::default();
    let mut router = Router::new();
    router.report_failure("p1-kept", &Error::Timeout(1), &routing, 0);
    router.report_failure("p1-gone", &Error::Timeout(1), &routing, 0);

    router.retain_models(&vec!["p1-kept".to_string()]);

    let snapshot = router.health_snapshot(0);
    let ids: Vec<&str> = snapshot.iter().map(|h| h.model_id.as_str()).collect();
    assert_eq!(ids, vec!["p1-kept"]);
}

#[test]
fn all_open_with_timeout_elapsed_still_produces_a_probe_plan() {
    let mut cfg = cfg_with(vec![ModelEntry::for_upstream("p1", "only", Some(ModelClass::Opus))]);
    cfg.routing.circuit_breaker.timeout_secs = 0;
    let routing = routing_with(cfg.routing.circuit_breaker);
    let r = reg(cfg);
    let mut router = Router::new();
    for _ in 0..10 {
        router.report_failure("p1-only", &Error::Timeout(1), &routing, 0);
    }
    let plan = router
        .plan(&r, &Resolution::Class(ModelClass::Opus), &vec![], 0)
        .unwrap();
    assert_eq!(ids(&plan), vec!["p1-only"]);
    assert!(plan[0].degraded);
}

#[test]
fn client_errors_do_not_open_the_breaker() {
    let routing = RoutingConfig::default();
    let mut router = Router::new();
    for _ in 0..10 {
        router.report_failure("p1-a", &Error::invalid("bad json"), &routing, 0);
    }
    assert!(!router.is_cooling("p1-a"));
    assert!(router.health_snapshot(0).is_empty());
}

#[test]
fn success_resets_streak_and_tracks_latency() {
    let routing = RoutingConfig::default();
    let mut router = Router::new();
    router.report_failure("p1-a", &Error::Timeout(1), &routing, 0);
    // The bits of a positive average order as the average does.
    router.report_success("p1-a", 200.0f64.to_bits(), &routing);
    let snap = router.health_snapshot(0);
    assert_eq!(snap[0].consecutive_failures, 0);
    assert_eq!(snap[0].total_success, 1);
    assert_eq!(snap[0].total_failure, 1);
    assert_eq!(f64::from_bits(snap[0].latency_rank), 200.0);
    router.report_success("p1-a", 260.0f64.to_bits(), &routing);
    assert!((f64::from_bits(router.health_snapshot(0)[0].latency_rank) - 260.0).abs() < 0.001);
}

#[test]
fn success_creates_health_with_routing_breaker_config() {
    let routing = routing_with(breaker(1, 60));
    let mut router = Router::new();

    // First observation is a success, so the health entry must be created
    // with the routing config rather than the default breaker config.
    router.report_success("p1-a", 10, &routing);
    router.report_failure("p1-a", &Error::Timeout(1), &routing, 0);
    assert!(
        router.is_cooling("p1-a"),
        "routing failure_threshold=1 should open after one failure"
    );
}

#[test]
fn round_robin_rotates() {
    let mut cfg = cfg_with(vec![
        ModelEntry::for_upstream("p1", "a", Some(ModelClass::Haiku)),
        ModelEntry::for_upstream("p2", "b", Some(ModelClass::Haiku)),
    ]);
    cfg.routing.strategy = RoutingStrategy::RoundRobin;
    let r = reg(cfg);
    let mut router = Router::new();
    let class = Resolution::Class(ModelClass::Haiku);
    let first = ids(&router.plan(&r, &class, &vec![], 0).unwrap())[0].to_string();
    let second = ids(&router.plan(&r, &class, &vec![], 0).unwrap())[0].to_string();
    assert_ne!(first, second);
}

#[test]
fn lowest_latency_prefers_the_fast_model() {
    let mut cfg = cfg_with(vec![
        ModelEntry::for_upstream("p1", "slow", Some(ModelClass::Sonnet)),
        ModelEntry::for_upstream("p2", "fast", Some(ModelClass::Sonnet)),
    ]);
    cfg.routing.strategy = RoutingStrategy::LowestLatency;
    let routing = RoutingConfig::default();
    let r = reg(cfg);
    let mut router = Router::new();
    router.report_success("p1-slow", 3000, &routing);
    router.report_success("p2-fast", 300, &routing);
    assert_eq!(
        ids(&router
            .plan(&r, &Resolution::Class(ModelClass::Sonnet), &vec![], 0)
            .unwrap())[0],
        "p2-fast"
    );
}

#[test]
fn weighted_random_covers_all_and_favours_weight() {
    let mut cfg = cfg_with(vec![
        ModelEntry::for_upstream("p1", "heavy", Some(ModelClass::Opus)),
        ModelEntry::for_upstream("p2", "light", Some(ModelClass::Opus)),
    ]);
    cfg.models[0].weight = 9;
    cfg.models[1].weight = 1;
    cfg.routing.strategy = RoutingStrategy::WeightedRandom;
    let r = reg(cfg);
    let mut router = Router::new();
    let mut heavy_first = 0;
    for _ in 0..400 {
        let plan = router
            .plan(&r, &Resolution::Class(ModelClass::Opus), &vec![], 0)
            .unwrap();
        assert_eq!(plan.len(), 2, "every member must remain in the failover chain");
        if plan[0].exposed_id == "p1-heavy" {
            heavy_first += 1;
        }
    }
    assert!(heavy_first > 280, "heavy won only {heavy_first}/400");
}

// ------------------------------------------------------- classifier pool

fn classifier_cfg_with(models: Vec<ModelEntry>, candidates: &[(&str, i32)]) -> AppConfig {
    let mut cfg = cfg_with(models);
    cfg.classifier = ClassifierConfig {
        enabled: true,
        candidates: candidates
            .iter()
            .map(|(model, priority)| ClassifierCandidate {
                model: (*model).to_string(),
                priority: *priority,
                enabled: true,
            })
            .collect(),
        ..ClassifierConfig::default()
    };
    cfg
}

#[test]
fn classifier_pool_follows_candidate_priority_not_tier_priority() {
    // glm is the *last* member of its tier but the *first* classifier
    // candidate; the two orderings are independent.
    let r = reg(classifier_cfg_with(
        vec![
            ModelEntry::for_upstream("p1", "glm", Some(ModelClass::Haiku)).with_priority(50),
            ModelEntry::for_upstream("p2", "deepseek", Some(ModelClass::Sonnet)).with_priority(0),
        ],
        &[("p2-deepseek", 20), ("p1-glm", 10)],
    ));
    let plan = Router::new()
        .plan_classifier(&r, &r.config().classifier, 0)
        .unwrap();
    assert_eq!(ids(&plan), vec!["p1-glm", "p2-deepseek"]);
}

#[test]
fn classifier_candidates_may_point_at_unclassified_models() {
    // A model with no tier is still a perfectly good classifier.
    let r = reg(classifier_cfg_with(
        vec![ModelEntry::for_upstream("p1", "glm", None)],
        &[("p1-glm", 10)],
    ));
    let plan = Router::new()
        .plan_classifier(&r, &r.config().classifier, 0)
        .unwrap();
    assert_eq!(ids(&plan), vec!["p1-glm"]);
}

#[test]
fn classifier_pool_respects_its_own_attempt_budget() {
    let mut cfg = classifier_cfg_with(
        vec![
            ModelEntry::for_upstream("p1", "a", None),
            ModelEntry::for_upstream("p2", "b", None),
            ModelEntry::for_upstream("p1", "c", None),
        ],
        &[("p1-a", 10), ("p2-b", 20), ("p1-c", 30)],
    );
    cfg.classifier.max_attempts = 2;
    let r = reg(cfg);
    let plan = Router::new()
        .plan_classifier(&r, &r.config().classifier, 0)
        .unwrap();
    assert_eq!(ids(&plan), vec!["p1-a", "p2-b"]);
}

#[test]
fn classifier_failover_off_yields_one_attempt() {
    let mut cfg = classifier_cfg_with(
        vec![
            ModelEntry::for_upstream("p1", "a", None),
            ModelEntry::for_upstream("p2", "b", None),
        ],
        &[("p1-a", 10), ("p2-b", 20)],
    );
    cfg.classifier.failover = false;
    let r = reg(cfg);
    let plan = Router::new()
        .plan_classifier(&r, &r.config().classifier, 0)
        .unwrap();
    assert_eq!(plan.len(), 1);
}

#[test]
fn unknown_or_disabled_candidates_are_skipped_not_fatal() {
    // Two live candidates and one dangling reference: the pool still works.
    let mut cfg = classifier_cfg_with(
        vec![
            ModelEntry::for_upstream("p1", "a", None),
            ModelEntry::for_upstream("p2", "b", None),
        ],
        &[("p1-a", 10), ("p3-missing", 5), ("p2-b", 20)],
    );
    // A disabled candidate entry is skipped too.
    cfg.classifier.candidates[2].enabled = false;
    let r = reg(cfg);
    let plan = Router::new()
        .plan_classifier(&r, &r.config().classifier, 0)
        .unwrap();
    assert_eq!(ids(&plan), vec!["p1-a"]);
}

#[test]
fn an_empty_classifier_pool_is_an_error() {
    // No candidates at all, or only ones that resolve to nothing: the
    // request must fail rather than silently fall through to the main pool.
    let cfg = classifier_cfg_with(vec![ModelEntry::for_upstream("p1", "a", None)], &[]);
    let r = reg(cfg);
    let err = Router::new()
        .plan_classifier(&r, &r.config().classifier, 0)
        .unwrap_err();
    assert!(matches!(err, Error::NoCandidate(_)));

    let cfg = classifier_cfg_with(vec![], &[("p1-gone", 10)]);
    let r = reg(cfg);
    assert!(Router::new()
        .plan_classifier(&r, &r.config().classifier, 0)
        .is_err());
}

#[test]
fn classifier_health_is_shared_with_the_main_pool() {
    // A model that fails as a classifier must be demoted for main requests
    // too: the circuit breaker is keyed by model, not by pool.
    let cfg = classifier_cfg_with(
        vec![
            ModelEntry::for_upstream("p1", "glm", Some(ModelClass::Sonnet)).with_priority(0),
            ModelEntry::for_upstream("p2", "main", Some(ModelClass::Sonnet)).with_priority(5),
        ],
        &[("p1-glm", 10)],
    );
    let routing = RoutingConfig::default();
    let r = reg(cfg);
    let mut router = Router::new();

    for _ in 0..routing.circuit_breaker.failure_threshold {
        router.report_failure("p1-glm", &Error::Timeout(1), &routing, 0);
    }
    // The classifier pool has nothing left: glm is cooling and it was the
    // only candidate.
    assert!(router
        .plan_classifier(&r, &r.config().classifier, 0)
        .is_err());

    // ...and the main tier plan demotes glm for main requests as well.
    let plan = router
        .plan(&r, &Resolution::Class(ModelClass::Sonnet), &vec![], 0)
        .unwrap();
    assert_eq!(ids(&plan)[0], "p2-main");
}

#[test]
fn classifier_balanced_strategy_falls_back_to_priority() {
    // Elections are per tier; the classifier pool has none, so Balanced
    // must not silently produce an unsorted plan.
    let mut cfg = classifier_cfg_with(
        vec![
            ModelEntry::for_upstream("p1", "a", None).with_priority(30),
            ModelEntry::for_upstream("p2", "b", None).with_priority(10),
        ],
        &[("p1-a", 30), ("p2-b", 10)],
    );
    cfg.classifier.strategy = RoutingStrategy::Balanced;
    let r = reg(cfg);
    let plan = Router::new()
        .plan_classifier(&r, &r.config().classifier, 0)
        .unwrap();
    assert_eq!(ids(&plan), vec!["p2-b", "p1-a"]);
}

#[test]
fn classifier_round_robin_rotates_independently_of_tiers() {
    let mut cfg = classifier_cfg_with(
        vec![
            ModelEntry::for_upstream("p1", "a", Some(ModelClass::Sonnet)),
            ModelEntry::for_upstream("p2", "b", Some(ModelClass::Sonnet)),
        ],
        &[("p1-a", 10), ("p2-b", 10)],
    );
    cfg.classifier.strategy = RoutingStrategy::RoundRobin;
    let r = reg(cfg);
    let mut router = Router::new();
    let first = ids(&router.plan_classifier(&r, &r.config().classifier, 0).unwrap())[0].to_string();
    let second = ids(&router.plan_classifier(&r, &r.config().classifier, 0).unwrap())[0].to_string();
    assert_ne!(first, second);
}

// ------------------------------------------------------------------ more

#[test]
fn picks_decide_a_weighted_order() {
    let mut heavy = ModelEntry::for_upstream("p1", "heavy", None);
    heavy.weight = 9;
    let mut light = ModelEntry::for_upstream("p1", "light", None);
    light.weight = 0;
    let pool = vec![heavy, light];
    let order = |picks: Vec<u64>| -> Vec<String> {
        weighted_shuffle(&pool, &picks)
            .iter()
            .map(|m| m.upstream_model.clone())
            .collect()
    };
    // Nine shares for the first, and one for a weight of nothing.
    assert_eq!(order(vec![8, 0]), vec!["heavy", "light"]);
    assert_eq!(order(vec![9, 0]), vec!["light", "heavy"]);
}

#[test]
fn an_election_decides_and_newcomers_come_last() {
    let r = reg(cfg_with(vec![
        ModelEntry::for_upstream("p1", "a", Some(ModelClass::Sonnet)).with_priority(0),
        ModelEntry::for_upstream("p1", "b", Some(ModelClass::Sonnet)).with_priority(5),
        ModelEntry::for_upstream("p1", "new", Some(ModelClass::Sonnet)).with_priority(-9),
    ]));
    let mut router = Router::new();
    router.set_election(Election {
        orders: vec![ClassOrder {
            class: ModelClass::Sonnet,
            ids: vec!["p1-b".into(), "p1-gone".into(), "p1-a".into()],
        }],
    });
    let plan = router
        .plan(&r, &Resolution::Class(ModelClass::Sonnet), &vec![], 0)
        .unwrap();
    assert_eq!(ids(&plan), vec!["p1-b", "p1-a", "p1-new"]);
    assert_eq!(router.election().unwrap().orders[0].ids.len(), 3);
}

#[test]
fn models_that_cannot_do_it_are_left_out() {
    let mut blind = ModelEntry::for_upstream("p1", "blind", Some(ModelClass::Sonnet));
    blind.supports_vision = false;
    let mut seeing = ModelEntry::for_upstream("p1", "seeing", Some(ModelClass::Sonnet)).with_priority(9);
    seeing.supports_vision = true;
    let r = reg(cfg_with(vec![blind, seeing]));
    let plan = Router::new()
        .plan(
            &r,
            &Resolution::Class(ModelClass::Sonnet),
            &vec![Capability::Vision],
            0,
        )
        .unwrap();
    assert_eq!(ids(&plan), vec!["p1-seeing"]);
}

#[test]
fn only_one_probe_is_let_through() {
    let mut b = CircuitBreaker::new(breaker(1, 60));
    b.record_failure(1_000);
    assert_eq!(b.state(), CircuitState::Open);
    assert!(!b.allow_request(60_999));
    assert_eq!(b.open_remaining_secs(1_000), 60);
    assert!(b.can_probe(61_000));
    assert!(b.allow_request(61_000));
    assert!(!b.allow_request(61_000), "a probe is out already");
    b.release_half_open_permit();
    assert!(b.allow_request(61_000));
    b.record_failure(62_000);
    assert_eq!(b.state(), CircuitState::Open);
    b.reset();
    assert_eq!(b.state(), CircuitState::Closed);
}

#[test]
fn a_reset_forgets_the_failures() {
    let routing = routing_with(breaker(1, 60));
    let mut router = Router::new();
    router.report_failure("m", &Error::Timeout(1), &routing, 0);
    assert!(router.is_cooling("m"));
    assert_eq!(
        router.health_snapshot(0)[0].last_error.as_deref(),
        Some(Error::Timeout(1).safe_message().as_str())
    );
    router.reset("m");
    assert!(!router.is_cooling("m"));
}

#[test]
fn a_plan_follows_the_picks_it_is_given() {
    let mut cfg = cfg_with(vec![
        ModelEntry::for_upstream("p1", "a", Some(ModelClass::Sonnet)),
        ModelEntry::for_upstream("p1", "b", Some(ModelClass::Sonnet)),
    ]);
    cfg.routing.strategy = RoutingStrategy::WeightedRandom;
    cfg.models[0].weight = 2;
    cfg.models[1].weight = 3;
    let r = reg(cfg);
    let class = Resolution::Class(ModelClass::Sonnet);
    let mut router = Router::new();
    for (picks, expected) in [
        (vec![1, 0], vec!["p1-a", "p1-b"]),
        (vec![2, 0], vec!["p1-b", "p1-a"]),
        (vec![4, 0], vec!["p1-b", "p1-a"]),
    ] {
        let plan = router.plan_with(&r, &class, &vec![], 0, &picks).unwrap();
        assert_eq!(ids(&plan), expected);
    }
}

#[test]
fn a_classifier_plan_follows_the_picks_it_is_given() {
    let mut cfg = classifier_cfg_with(
        vec![
            ModelEntry::for_upstream("p1", "a", None),
            ModelEntry::for_upstream("p1", "b", None),
        ],
        &[("p1-a", 0), ("p1-b", 1)],
    );
    cfg.classifier.strategy = RoutingStrategy::WeightedRandom;
    for m in &mut cfg.models {
        m.weight = 2;
    }
    let r = reg(cfg);
    let pool = &r.config().classifier;
    let mut router = Router::new();
    let plan = router.plan_classifier_with(&r, pool, 0, &vec![1, 0]).unwrap();
    assert_eq!(ids(&plan), vec!["p1-a", "p1-b"]);
    let plan = router.plan_classifier_with(&r, pool, 0, &vec![2, 0]).unwrap();
    assert_eq!(ids(&plan), vec!["p1-b", "p1-a"]);
}

#[test]
fn every_strategy_keeps_every_member() {
    let members: Vec<ModelEntry> = [("a", 5), ("b", 1), ("c", 5), ("d", 1), ("e", 3)]
        .iter()
        .map(|(name, p)| ModelEntry::for_upstream("p1", name, None).with_priority(*p))
        .collect();
    let names = |list: &[ModelEntry]| list.iter().map(|m| m.upstream_model.clone()).collect::<Vec<_>>();
    let picks = vec![3, 1, 4, 1, 5];
    let mut router = Router::new();
    let routing = RoutingConfig::default();
    router.report_success("p1-b", 9, &routing);
    router.report_success("p1-d", 2, &routing);
    for strategy in [
        RoutingStrategy::Balanced,
        RoutingStrategy::Priority,
        RoutingStrategy::WeightedRandom,
        RoutingStrategy::RoundRobin,
        RoutingStrategy::LowestLatency,
    ] {
        let out = router.order(&members, "k", None, strategy, &picks);
        let mut sorted = names(&out);
        sorted.sort();
        assert_eq!(sorted, vec!["a", "b", "c", "d", "e"]);
    }
    let out = router.order(&members, "k", None, RoutingStrategy::Priority, &picks);
    let priorities: Vec<i32> = out.iter().map(|m| m.priority).collect();
    assert_eq!(priorities, vec![1, 1, 3, 5, 5]);
    let out = router.order(&members, "k", None, RoutingStrategy::RoundRobin, &picks);
    assert_eq!(names(&out), vec!["b", "c", "d", "e", "a"]);
    let out = router.order(&members, "k", None, RoutingStrategy::LowestLatency, &picks);
    assert_eq!(names(&out), vec!["a", "c", "e", "d", "b"]);
    let out = router.order(&members, "k", None, RoutingStrategy::Balanced, &picks);
    assert_eq!(names(&out), vec!["b", "d", "e", "a", "c"]);
}

#[test]
fn a_priority_is_one_group_wherever_its_models_stand() {
    let members: Vec<ModelEntry> = [("a", 1), ("b", 2), ("c", 1)]
        .iter()
        .map(|(name, p)| ModelEntry::for_upstream("p1", name, None).with_priority(*p))
        .collect();
    let mut router = Router::new();
    let first = |router: &mut Router, pick: u64| {
        router.order(&members, "k", None, RoutingStrategy::Priority, &vec![pick, 0, 0])[0].upstream_model.clone()
    };
    let seen: Vec<String> = (0..300).map(|pick| first(&mut router, pick)).collect();
    assert!(seen.contains(&"a".to_string()));
    assert!(seen.contains(&"c".to_string()));
    assert!(!seen.contains(&"b".to_string()));
}
