use zroutery_core::session::{SessionRoutingMode, SessionState, SessionStore};

#[test]
fn session_state_starts_in_free_mode() {
    let state = SessionState::new("s1".into());
    assert_eq!(state.mode, SessionRoutingMode::Free);
    assert_eq!(state.effective_mode(2, 100_000), SessionRoutingMode::Free);
}

#[test]
fn after_sticky_threshold_requests_mode_becomes_sticky() {
    let mut state = SessionState::new("s1".into());
    state.request_count = 2;
    assert_eq!(state.effective_mode(2, 100_000), SessionRoutingMode::Sticky);
}

#[test]
fn after_pinned_threshold_tokens_mode_becomes_pinned() {
    let mut state = SessionState::new("s1".into());
    state.context_tokens = 100_000;
    assert_eq!(state.effective_mode(2, 100_000), SessionRoutingMode::Pinned);
}

#[test]
fn consecutive_failures_increments_on_failure() {
    let mut state = SessionState::new("s1".into());
    assert_eq!(state.consecutive_failures, 0);
    state.record_failure();
    assert_eq!(state.consecutive_failures, 1);
    state.record_failure();
    assert_eq!(state.consecutive_failures, 2);
}

#[test]
fn should_unpin_returns_true_at_max_failures() {
    let mut state = SessionState::new("s1".into());
    assert!(!state.should_unpin(3));
    state.record_failure();
    state.record_failure();
    assert!(!state.should_unpin(3));
    state.record_failure();
    assert!(state.should_unpin(3));
}

#[test]
fn clear_affinity_resets_everything() {
    let mut state = SessionState::new("s1".into());
    state.record_success("m1", "p1", 500);
    state.record_failure();
    state.mode = SessionRoutingMode::Pinned;

    state.clear_affinity();

    assert!(state.affinity_model.is_none());
    assert!(state.affinity_provider.is_none());
    assert_eq!(state.consecutive_failures, 0);
    assert_eq!(state.mode, SessionRoutingMode::Free);
}

#[test]
fn session_store_get_or_create_creates_new() {
    let mut store = SessionStore::new();
    let s = store.get_or_create("new-session");
    assert_eq!(s.session_id, "new-session");
    assert_eq!(s.request_count, 0);
}

#[test]
fn session_store_update_persists_state() {
    let mut store = SessionStore::new();
    let mut s = store.get_or_create("s1");
    s.request_count = 42;
    store.update(s);

    let loaded = store.get_or_create("s1");
    assert_eq!(loaded.request_count, 42);
}

#[test]
fn session_store_evict_stale_removes_old_sessions() {
    let mut store = SessionStore::new();
    let mut s = store.get_or_create("old");
    s.last_request_at = 0; // epoch
    s.request_count = 7;
    store.update(s);

    store.get_or_create("fresh"); // just created, should survive

    store.evict_stale(60);

    // old session should be gone
    let fresh = store.get_or_create("old");
    assert_eq!(fresh.request_count, 0, "old session was evicted");
    assert!(store.remove("fresh"));
    assert!(!store.remove("fresh"));
}

#[test]
fn different_session_ids_are_isolated() {
    let mut store = SessionStore::new();
    let mut a = store.get_or_create("a");
    a.request_count = 10;
    store.update(a);

    let b = store.get_or_create("b");
    assert_eq!(b.request_count, 0);

    let a2 = store.get_or_create("a");
    assert_eq!(a2.request_count, 10);
}

#[test]
fn effective_mode_respects_thresholds() {
    let mut state = SessionState::new("s1".into());

    // Below both thresholds
    state.request_count = 1;
    state.context_tokens = 50_000;
    assert_eq!(state.effective_mode(2, 100_000), SessionRoutingMode::Free);

    // At sticky threshold
    state.request_count = 2;
    state.context_tokens = 50_000;
    assert_eq!(state.effective_mode(2, 100_000), SessionRoutingMode::Sticky);

    // At pinned threshold (pinned takes priority over sticky)
    state.request_count = 2;
    state.context_tokens = 100_000;
    assert_eq!(state.effective_mode(2, 100_000), SessionRoutingMode::Pinned);
}

#[test]
fn record_success_resets_consecutive_failures() {
    let mut state = SessionState::new("s1".into());
    state.record_failure();
    state.record_failure();
    assert_eq!(state.consecutive_failures, 2);

    state.record_success("m1", "p1", 100);
    assert_eq!(state.consecutive_failures, 0);
    assert_eq!(state.request_count, 1);
    assert_eq!(state.context_tokens, 100);
    assert_eq!(state.affinity_model.as_deref(), Some("m1"));
    assert_eq!(state.affinity_provider.as_deref(), Some("p1"));
}

#[test]
fn the_clock_stamps_new_sessions() {
    // 2024-01-01, which every clock has passed.
    assert!(SessionState::new("s".into()).started_at > 1_704_067_200);
}

#[test]
fn eviction_goes_by_the_last_request() {
    let mut store = SessionStore::default();
    store.get_or_create_at("early", 100);
    store.get_or_create_at("late", 190);
    store.evict_stale_at(60, 200);
    assert!(!store.remove("early"));
    assert!(store.remove("late"));
    // A session of exactly that age is not older.
    store.get_or_create_at("exact", 140);
    store.evict_stale_at(60, 200);
    assert!(store.remove("exact"));
    // A clock that jumped does no harm.
    store.get_or_create_at("edge", i64::MIN);
    store.evict_stale_at(60, i64::MAX);
    assert!(!store.remove("edge"));
}
