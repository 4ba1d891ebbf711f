//! Session / long-context routing.
//!
//! Tracks per-session routing state so that requests belonging to the same
//! conversation stay on the same candidate when appropriate.
//!
//! Three modes:
//! * **Free** -- full policy evaluation, no affinity (new / short sessions).
//! * **Sticky** -- prefer the same candidate unless consecutive failures force
//!   a change (multi-turn conversations).
//! * **Pinned** -- hard-pin to a candidate; only an explicit failure threshold
//!   can dislodge it (long-context windows).

use crate::draw::unix_now;
use crate::ir::copy_opt_string;
use crate::table;
use crate::table::Table;
use crate::views;
use vstd::prelude::*;

verus! {

broadcast use crate::views::group_views;

/// How a session's routing behaves.
#[derive(Debug, Clone, Copy, PartialEq, Eq, Structural)]
pub enum SessionRoutingMode {
    /// New request: full policy evaluation, no affinity.
    Free,
    /// Active session: prefer the same candidate unless failure forces change.
    Sticky,
    /// Long context: pin to candidate, only change on hard failure.
    Pinned,
}

impl Default for SessionRoutingMode {
    fn default() -> (r: Self)
        ensures
            r == SessionRoutingMode::Free,
    {
        SessionRoutingMode::Free
    }
}

/// Routing state for an active session.
#[derive(Debug)]
pub struct SessionState {
    pub session_id: String,
    pub mode: SessionRoutingMode,
    /// The candidate this session is pinned/sticky to.
    pub affinity_model: Option<String>,
    pub affinity_provider: Option<String>,
    /// Number of requests in this session.
    pub request_count: u32,
    /// Total context tokens accumulated.
    pub context_tokens: u64,
    /// When the session started (unix seconds).
    pub started_at: i64,
    /// Last request timestamp (unix seconds).
    pub last_request_at: i64,
    /// Number of consecutive failures on the affinity candidate.
    pub consecutive_failures: u32,
}

pub struct SessionV {
    pub session_id: Seq<char>,
    pub mode: SessionRoutingMode,
    pub affinity_model: Option<Seq<char>>,
    pub affinity_provider: Option<Seq<char>>,
    pub request_count: u32,
    pub context_tokens: u64,
    pub started_at: i64,
    pub last_request_at: i64,
    pub consecutive_failures: u32,
}

impl View for SessionState {
    type V = SessionV;

    open spec fn view(&self) -> SessionV {
        SessionV {
            session_id: self.session_id@,
            mode: self.mode,
            affinity_model: views::opt(self.affinity_model),
            affinity_provider: views::opt(self.affinity_provider),
            request_count: self.request_count,
            context_tokens: self.context_tokens,
            started_at: self.started_at,
            last_request_at: self.last_request_at,
            consecutive_failures: self.consecutive_failures,
        }
    }
}

impl Clone for SessionState {
    fn clone(&self) -> (r: Self)
        ensures
            r@ == self@,
    {
        SessionState {
            session_id: self.session_id.clone(),
            mode: self.mode,
            affinity_model: copy_opt_string(&self.affinity_model),
            affinity_provider: copy_opt_string(&self.affinity_provider),
            request_count: self.request_count,
            context_tokens: self.context_tokens,
            started_at: self.started_at,
            last_request_at: self.last_request_at,
            consecutive_failures: self.consecutive_failures,
        }
    }
}

impl SessionV {
    /// A session that starts now.
    pub open spec fn started(session_id: Seq<char>, now: i64) -> SessionV {
        SessionV {
            session_id,
            mode: SessionRoutingMode::Free,
            affinity_model: None,
            affinity_provider: None,
            request_count: 0,
            context_tokens: 0,
            started_at: now,
            last_request_at: now,
            consecutive_failures: 0,
        }
    }

    /// The mode that the counts ask for.
    pub open spec fn mode_for(self, sticky_threshold_requests: u32, pinned_threshold_tokens: u64) -> SessionRoutingMode {
        if self.context_tokens >= pinned_threshold_tokens {
            SessionRoutingMode::Pinned
        } else if self.request_count >= sticky_threshold_requests {
            SessionRoutingMode::Sticky
        } else {
            SessionRoutingMode::Free
        }
    }

    /// After a request that succeeded.
    pub open spec fn succeeded(self, model_id: Seq<char>, provider_id: Seq<char>, tokens: u64, now: i64) -> SessionV {
        SessionV {
            request_count: (self.request_count + 1) as u32,
            context_tokens: (self.context_tokens + tokens) as u64,
            last_request_at: now,
            consecutive_failures: 0,
            affinity_model: Some(model_id),
            affinity_provider: Some(provider_id),
            ..self
        }
    }

    /// After a request that failed.
    pub open spec fn failed(self, now: i64) -> SessionV {
        SessionV {
            consecutive_failures: (self.consecutive_failures + 1) as u32,
            last_request_at: now,
            ..self
        }
    }

    /// Without its candidate.
    pub open spec fn unpinned(self) -> SessionV {
        SessionV {
            affinity_model: None,
            affinity_provider: None,
            consecutive_failures: 0,
            mode: SessionRoutingMode::Free,
            ..self
        }
    }
}

impl SessionState {
    /// A session that starts at `now`.
    pub fn starting_at(session_id: String, now: i64) -> (r: SessionState)
        ensures
            r@ == SessionV::started(session_id@, now),
    {
        SessionState {
            session_id,
            mode: SessionRoutingMode::Free,
            affinity_model: None,
            affinity_provider: None,
            request_count: 0,
            context_tokens: 0,
            started_at: now,
            last_request_at: now,
            consecutive_failures: 0,
        }
    }

    pub fn new(session_id: String) -> (r: SessionState)
        ensures
            r@ == SessionV::started(session_id@, r.started_at),
    {
        SessionState::starting_at(session_id, unix_now())
    }

    /// Determine the routing mode based on session state.
    pub fn effective_mode(&self, sticky_threshold_requests: u32, pinned_threshold_tokens: u64) -> (r:
        SessionRoutingMode)
        ensures
            r == self@.mode_for(sticky_threshold_requests, pinned_threshold_tokens),
    {
        if self.context_tokens >= pinned_threshold_tokens {
            SessionRoutingMode::Pinned
        } else if self.request_count >= sticky_threshold_requests {
            SessionRoutingMode::Sticky
        } else {
            SessionRoutingMode::Free
        }
    }

    /// Record a successful request at `now`.
    pub fn record_success_at(&mut self, model_id: &str, provider_id: &str, tokens: u64, now: i64)
        requires
            old(self).request_count < u32::MAX,
            old(self).context_tokens + tokens <= u64::MAX,
        ensures
            final(self)@ == old(self)@.succeeded(model_id@, provider_id@, tokens, now),
    {
        self.request_count = self.request_count + 1;
        self.context_tokens = self.context_tokens + tokens;
        self.last_request_at = now;
        self.consecutive_failures = 0;
        self.affinity_model = Some(model_id.to_owned());
        self.affinity_provider = Some(provider_id.to_owned());
    }

    /// Record a successful request.
    pub fn record_success(&mut self, model_id: &str, provider_id: &str, tokens: u64)
        requires
            old(self).request_count < u32::MAX,
            old(self).context_tokens + tokens <= u64::MAX,
        ensures
            final(self)@ == old(self)@.succeeded(model_id@, provider_id@, tokens, final(self).last_request_at),
    {
        self.record_success_at(model_id, provider_id, tokens, unix_now());
    }

    /// Record a failure on the current affinity candidate at `now`.
    pub fn record_failure_at(&mut self, now: i64)
        requires
            old(self).consecutive_failures < u32::MAX,
        ensures
            final(self)@ == old(self)@.failed(now),
    {
        self.consecutive_failures = self.consecutive_failures + 1;
        self.last_request_at = now;
    }

    /// Record a failure on the current affinity candidate.
    pub fn record_failure(&mut self)
        requires
            old(self).consecutive_failures < u32::MAX,
        ensures
            final(self)@ == old(self)@.failed(final(self).last_request_at),
    {
        self.record_failure_at(unix_now());
    }

    /// Should we unpin from the affinity candidate?
    /// Returns true if failures exceed threshold or provider is unavailable.
    pub fn should_unpin(&self, max_failures: u32) -> (r: bool)
        ensures
            r == (self.consecutive_failures >= max_failures),
    {
        self.consecutive_failures >= max_failures
    }

    /// Reset affinity (e.g. after unpin).
    pub fn clear_affinity(&mut self)
        ensures
            final(self)@ == old(self)@.unpinned(),
    {
        self.affinity_model = None;
        self.affinity_provider = None;
        self.consecutive_failures = 0;
        self.mode = SessionRoutingMode::Free;
    }
}

/// Store for active sessions.
pub struct SessionStore {
    sessions: Table<SessionState>,
    /// Default: sticky after 2 requests.
    pub sticky_threshold_requests: u32,
    /// Default: pinned after 100k tokens.
    pub pinned_threshold_tokens: u64,
    /// Default: unpin after 3 consecutive failures.
    pub max_failures: u32,
}

pub struct StoreV {
    pub sessions: Map<Seq<char>, SessionV>,
    pub sticky_threshold_requests: u32,
    pub pinned_threshold_tokens: u64,
    pub max_failures: u32,
}

impl View for SessionStore {
    type V = StoreV;

    closed spec fn view(&self) -> StoreV {
        StoreV {
            sessions: self.sessions@,
            sticky_threshold_requests: self.sticky_threshold_requests,
            pinned_threshold_tokens: self.pinned_threshold_tokens,
            max_failures: self.max_failures,
        }
    }
}

impl StoreV {
    pub open spec fn fresh() -> StoreV {
        StoreV {
            sessions: Map::empty(),
            sticky_threshold_requests: 2,
            pinned_threshold_tokens: 100_000,
            max_failures: 3,
        }
    }

    pub open spec fn with(self, id: Seq<char>, s: SessionV) -> StoreV {
        StoreV { sessions: self.sessions.insert(id, s), ..self }
    }

    /// The session of that id, and the store with it; one that starts now where
    /// there was none.
    pub open spec fn got(self, id: Seq<char>, now: i64) -> (SessionV, StoreV) {
        if self.sessions.contains_key(id) {
            (self.sessions[id], self)
        } else {
            (SessionV::started(id, now), self.with(id, SessionV::started(id, now)))
        }
    }

    /// Without the sessions whose last request is more than `max_age_secs` ago.
    pub open spec fn evicted(self, now: i64, max_age_secs: i64) -> StoreV {
        StoreV {
            sessions: self.sessions.restrict(
                Set::new(
                    |id: Seq<char>|
                        self.sessions.contains_key(id) && now - self.sessions[id].last_request_at <= max_age_secs,
                ),
            ),
            ..self
        }
    }
}

impl SessionStore {
    pub fn new() -> (r: SessionStore)
        ensures
            r@ == StoreV::fresh(),
    {
        SessionStore {
            sessions: Table::new(),
            sticky_threshold_requests: 2,
            pinned_threshold_tokens: 100_000,
            max_failures: 3,
        }
    }

    /// The session of that id; one that starts at `now` where there is none.
    pub fn get_or_create_at(&mut self, session_id: &str, now: i64) -> (r: SessionState)
        ensures
            (r@, final(self)@) == old(self)@.got(session_id@, now),
    {
        if let Some(s) = self.sessions.get(session_id) {
            return s.clone();
        }
        let s = SessionState::starting_at(session_id.to_owned(), now);
        self.sessions.put(session_id, s.clone());
        s
    }

    /// The session of that id; one that starts now where there is none.
    pub fn get_or_create(&mut self, session_id: &str) -> (r: SessionState)
        ensures
            (r@, final(self)@) == old(self)@.got(session_id@, r.started_at),
    {
        self.get_or_create_at(session_id, unix_now())
    }

    pub fn update(&mut self, state: SessionState)
        ensures
            final(self)@ == old(self)@.with(state@.session_id, state@),
    {
        let id = state.session_id.clone();
        self.sessions.put(id.as_str(), state);
    }

    pub fn remove(&mut self, session_id: &str) -> (r: bool)
        ensures
            r == old(self)@.sessions.contains_key(session_id@),
            final(self)@ == (StoreV { sessions: old(self)@.sessions.remove(session_id@), ..old(self)@ }),
    {
        match self.sessions.take(session_id) {
            Some(_) => true,
            None => false,
        }
    }

    /// Evict sessions older than `max_age_secs` at `now`.
    pub fn evict_stale_at(&mut self, max_age_secs: i64, now: i64)
        ensures
            final(self)@ == old(self)@.evicted(now, max_age_secs),
    {
        let ghost before = self@.sessions;
        let keys = self.sessions.keys();
        let ghost all = views::of(keys@);
        for i in 0..keys.len()
            invariant
                all == views::of(keys@),
                table::keys_of(before, all),
                self@ == (StoreV { sessions: self@.sessions, ..old(self)@ }),
                before == old(self)@.sessions,
                forall|id: Seq<char>|
                    #[trigger] self@.sessions.contains_key(id) <==> before.contains_key(id) && (now
                        - before[id].last_request_at <= max_age_secs || !all.take(i as int).contains(id)),
                forall|id: Seq<char>| #[trigger]
                    self@.sessions.contains_key(id) ==> self@.sessions[id] == before[id],
        {
            assert(all[i as int] == keys@[i as int]@);
            assert(before.contains_key(all[i as int]));
            proof {
                assert(all.take(i + 1) =~= all.take(i as int).push(all[i as int]));
                assert forall|id: Seq<char>| all.take(i + 1).contains(id) == (all.take(i as int).contains(id) || id
                    == all[i as int]) by {
                    if all.take(i as int).contains(id) {
                        let k = choose|k: int| 0 <= k < i && all.take(i as int)[k] == id;
                        assert(all.take(i + 1)[k] == id);
                    }
                    if id == all[i as int] {
                        assert(all.take(i + 1)[i as int] == id);
                    }
                }
            }
            let stale = match self.sessions.get(keys[i].as_str()) {
                Some(s) => now as i128 - s.last_request_at as i128 > max_age_secs as i128,
                None => false,
            };
            if stale {
                let _gone = self.sessions.take(keys[i].as_str());
            }
        }
        assert(all.take(all.len() as int) =~= all);
        assert(self@.sessions =~= old(self)@.evicted(now, max_age_secs).sessions);
    }

    /// Evict sessions older than `max_age_secs`.
    pub fn evict_stale(&mut self, max_age_secs: i64)
        ensures
            exists|now: i64| final(self)@ == #[trigger] old(self)@.evicted(now, max_age_secs),
    {
        let now = unix_now();
        self.evict_stale_at(max_age_secs, now);
    }
}

impl Default for SessionStore {
    fn default() -> (r: Self)
        ensures
            r@ == StoreV::fresh(),
    {
        SessionStore::new()
    }
}

/// What was last written to a session is read back, whenever it is read.
pub proof fn updates_are_read_back(store: StoreV, s: SessionV, now: i64)
    ensures
        store.with(s.session_id, s).got(s.session_id, now).0 == s,
        store.with(s.session_id, s).got(s.session_id, now).1 == store.with(s.session_id, s),
{
}

/// Sessions are isolated: writing one leaves every other as it was.
pub proof fn sessions_are_isolated(store: StoreV, s: SessionV, other: Seq<char>, now: i64)
    requires
        other != s.session_id,
    ensures
        store.with(s.session_id, s).got(other, now).0 == store.got(other, now).0,
{
}

/// A session moves from free to sticky to pinned as its counts grow, and never
/// back: a success never lowers the mode that the counts ask for.
pub proof fn modes_only_rise(s: SessionV, model: Seq<char>, provider: Seq<char>, tokens: u64, now: i64, sticky: u32, pinned: u64)
    requires
        s.request_count < u32::MAX,
        s.context_tokens + tokens <= u64::MAX,
    ensures
        s.mode_for(sticky, pinned) == SessionRoutingMode::Pinned ==> s.succeeded(model, provider, tokens, now).mode_for(
            sticky,
            pinned,
        ) == SessionRoutingMode::Pinned,
        s.mode_for(sticky, pinned) == SessionRoutingMode::Sticky ==> s.succeeded(model, provider, tokens, now).mode_for(
            sticky,
            pinned,
        ) != SessionRoutingMode::Free,
{
}

} // verus!
