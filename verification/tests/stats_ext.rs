use zroutery_core::stats_ext::{
    FailureClass, FailureStats, LatencyStats, PercentileEstimator, ProviderModelStats, StatsStore,
};

fn success_rate(ps: &ProviderModelStats) -> f64 {
    if ps.total_requests == 0 {
        0.0
    } else {
        ps.total_successes as f64 / ps.total_requests as f64
    }
}

#[test]
fn percentile_empty_returns_none() {
    let est = PercentileEstimator::new(10);
    assert!(est.percentile(50).is_none());
    assert!(est.min().is_none());
    assert!(est.max().is_none());
    assert!(est.is_empty());
}

#[test]
fn percentile_single_value() {
    let mut est = PercentileEstimator::new(10);
    est.record(42);
    assert_eq!(est.percentile(0), Some(42));
    assert_eq!(est.percentile(50), Some(42));
    assert_eq!(est.percentile(100), Some(42));
    assert_eq!(est.min(), Some(42));
    assert_eq!(est.max(), Some(42));
    assert_eq!(est.len(), 1);
    assert_eq!(est.sample_count(), 1);
}

#[test]
fn percentile_sorted_insertion() {
    let mut est = PercentileEstimator::new(10);
    est.record(30);
    est.record(10);
    est.record(20);
    assert_eq!(est.min(), Some(10));
    assert_eq!(est.max(), Some(30));
    assert_eq!(est.len(), 3);
}

#[test]
fn percentile_p50_p95_accuracy() {
    let mut est = PercentileEstimator::new(100);
    // Insert 1..=100
    for i in 1..=100 {
        est.record(i);
    }
    let p50 = est.percentile(50).unwrap() as f64;
    let p95 = est.percentile(95).unwrap() as f64;
    // p50 should be near 50
    assert!((p50 - 50.0).abs() < 2.0, "p50 should be ~50, got {p50}");
    // p95 should be near 95
    assert!((p95 - 95.0).abs() < 2.0, "p95 should be ~95, got {p95}");
}

#[test]
fn percentile_ring_eviction() {
    let mut est = PercentileEstimator::new(5);
    for i in 1..=10 {
        est.record(i);
    }
    // Should still hold capacity worth of samples
    assert_eq!(est.len(), 5);
    // total_count reflects all observations
    assert_eq!(est.sample_count(), 10);
}

#[test]
fn latency_stats_record_and_query() {
    let mut ls = LatencyStats::new();
    assert!(ls.is_empty());

    ls.record(100);
    ls.record(200);
    ls.record(300);

    assert_eq!(ls.sample_count(), 3);
    assert!(!ls.is_empty());

    let p50 = ls.p50().unwrap() as f64;
    let p95 = ls.p95().unwrap() as f64;
    assert!((p50 - 200.0).abs() < 1.0, "p50 should be ~200, got {p50}");
    assert!((p95 - 300.0).abs() < 1.0, "p95 should be ~300, got {p95}");

    assert_eq!(ls.min(), Some(100));
    assert_eq!(ls.max(), Some(300));
}

#[test]
fn failure_stats_by_class_counting() {
    let mut fs = FailureStats::default();
    assert_eq!(fs.total, 0);

    fs.record(FailureClass::Timeout);
    fs.record(FailureClass::Timeout);
    fs.record(FailureClass::RateLimit);

    assert_eq!(fs.total, 3);
    assert_eq!(fs.count(FailureClass::Timeout), 2);
    assert_eq!(fs.count(FailureClass::RateLimit), 1);
    assert_eq!(fs.count(FailureClass::Transport), 0);
}

#[test]
fn provider_model_stats_success_rate() {
    let mut ps = ProviderModelStats::new("gpt-4".into(), "openai".into());
    assert_eq!(success_rate(&ps), 0.0);

    ps.record_success(100, Some(50));
    ps.record_success(200, Some(80));
    assert_eq!(success_rate(&ps), 1.0);

    ps.record_failure(FailureClass::Timeout);
    assert_eq!(ps.total_requests, 3);
    assert_eq!(ps.total_successes, 2);
    assert_eq!(ps.total_failures, 1);
    let rate = success_rate(&ps);
    assert!(
        (rate - 2.0 / 3.0).abs() < 1e-9,
        "success_rate should be ~0.667, got {rate}"
    );

    // Latency stats should have 2 samples
    assert_eq!(ps.total_latency.sample_count(), 2);
    assert_eq!(ps.ttft.sample_count(), 2);
}

#[test]
fn provider_model_stats_failure_breakdown() {
    let mut ps = ProviderModelStats::new("m".into(), "p".into());
    ps.record_failure(FailureClass::Transport);
    ps.record_failure(FailureClass::RateLimit);
    ps.record_failure(FailureClass::Transport);

    assert_eq!(ps.failures.count(FailureClass::Transport), 2);
    assert_eq!(ps.failures.count(FailureClass::RateLimit), 1);
}

#[test]
fn stats_store_isolation_between_providers() {
    let mut store = StatsStore::new();
    store.record_success("m", "p1", 100, None);
    store.record_success("m", "p2", 200, None);
    store.record_success("m", "p2", 300, None);

    let p1 = store.get("m", "p1");
    let p2 = store.get("m", "p2");

    assert_eq!(p1.total_requests, 1);
    assert_eq!(p2.total_requests, 2);
}

#[test]
fn stats_store_accumulates_across_calls() {
    let mut store = StatsStore::new();
    store.record_success("model", "provider", 100, Some(40));
    store.record_success("model", "provider", 200, Some(60));
    store.record_classified_failure("model", "provider", FailureClass::Timeout);

    let stats = store.get("model", "provider");
    assert_eq!(stats.total_requests, 3);
    assert_eq!(stats.total_successes, 2);
    assert_eq!(stats.total_failures, 1);
    assert_eq!(stats.total_latency.sample_count(), 2);
    assert_eq!(stats.ttft.sample_count(), 2);
    assert_eq!(stats.failures.count(FailureClass::Timeout), 1);
}

#[test]
fn stats_store_get_unknown_returns_empty() {
    let store = StatsStore::new();
    let stats = store.get("unknown", "unknown");
    assert_eq!(stats.total_requests, 0);
    assert!(stats.total_latency.is_empty());
}

#[test]
fn a_full_estimator_keeps_to_its_capacity_and_order() {
    let mut est = PercentileEstimator::new(3);
    for v in [5, 1, 9, 7] {
        est.record(v);
    }
    assert_eq!(est.len(), 3);
    assert!(est.min() <= est.percentile(50));
    assert!(est.percentile(50) <= est.max());
}
