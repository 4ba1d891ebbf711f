//! What each fault means: to the client, to the plan, and to the health of a model.

use vstd::prelude::*;

use crate::circuit_breaker;
use crate::circuit_breaker::{CircuitBreaker, CircuitBreakerConfig, CircuitState};
use crate::error::ErrorV;
use crate::ir::Dialect;
use crate::json;
use crate::json::{Lookup, Tree};
use crate::router;
use crate::router::{HealthV, RouterV};
use crate::text;

verus! {

// -------------------------------------------------------------------- errors

/// What a client is answered: the upstream's own status where that is a fault, and
/// otherwise a status that says whose fault it is.
pub proof fn statuses_say_whose_fault(e: ErrorV)
    ensures
        400 <= e.status() < 600,
        e matches ErrorV::Upstream { status, .. } ==> e.status() == if 400 <= status < 600 { status } else { 502 },
        e is InvalidRequest <==> e.status() == 400 && e !is Upstream,
        e is Unauthorized <==> e.status() == 401 && e !is Upstream,
        e is OverBudget <==> e.status() == 402 && e !is Upstream,
        e is UnknownModel || e is UnknownRoute <==> e.status() == 404 && e !is Upstream,
        e is MissingApiKey <==> e.status() == 412 && e !is Upstream,
        e is TooLarge <==> e.status() == 413 && e !is Upstream,
        e is Internal <==> e.status() == 500 && e !is Upstream,
        e is Transport || e is BadUpstreamPayload <==> e.status() == 502 && e !is Upstream,
        e is NoCandidate <==> e.status() == 503 && e !is Upstream,
        e is Timeout <==> e.status() == 504 && e !is Upstream,
{
}

/// What kind of fault a client is told.
pub proof fn kinds_are_told(e: ErrorV)
    ensures
        e is InvalidRequest ==> e.kind() == "invalid_request_error"@,
        e is Unauthorized ==> e.kind() == "authentication_error"@,
        e is UnknownModel || e is UnknownRoute ==> e.kind() == "not_found_error"@,
        e is Timeout ==> e.kind() == "timeout_error"@,
        e is OverBudget ==> e.kind() == "budget_exceeded"@,
        e is TooLarge ==> e.kind() == "request_too_large"@,
        e matches ErrorV::Upstream { status, .. } ==> e.kind() == if status == 429 {
            "rate_limit_error"@
        } else {
            "api_error"@
        },
        e is NoCandidate || e is MissingApiKey || e is Transport || e is BadUpstreamPayload || e is Internal
            ==> e.kind() == "api_error"@,
{
}

/// An error is told in the client's own dialect, with its kind and its message.
pub proof fn errors_are_told(e: ErrorV, dialect: Dialect)
    ensures
        e.wire(dialect).at("error"@).at("message"@) == Some(Tree::Str(e.message())),
        e.wire(dialect).at("error"@).at("type"@) == Some(Tree::Str(e.kind())),
        dialect == Dialect::Anthropic ==> e.wire(dialect).at("type"@) == Some(Tree::Str("error"@)),
        dialect != Dialect::Anthropic ==> e.wire(dialect).at("error"@).at("code"@) == Some(Tree::Str(e.kind()))
            && e.wire(dialect).at("type"@) is None,
{
    reveal_strlit("type");
    reveal_strlit("error");
    reveal_strlit("message");
    reveal_strlit("code");
    assert("type"@.len() == 4 && "error"@.len() == 5 && "message"@.len() == 7 && "code"@.len() == 4 && "type"@[0] == 't'
        && "code"@[0] == 'c');
    reveal_with_fuel(json::find_from, 4);
}

/// What each message says: what happened, and to what.
pub proof fn messages_say_what_happened(e: ErrorV, what: Seq<char>, provider: Seq<char>, status: u16, n: u64)
    ensures
        ErrorV::InvalidRequest(what).message() == "invalid request: "@ + what,
        ErrorV::Unauthorized.message() == "unauthorized"@,
        ErrorV::UnknownModel(what).message() == "unknown model: "@ + what,
        ErrorV::UnknownRoute(what).message() == "unknown route: "@ + what,
        ErrorV::NoCandidate(what).message() == "no available upstream for "@ + what,
        ErrorV::MissingApiKey(what).message() == "no API key configured for provider "@ + what,
        (ErrorV::Upstream { provider, status, body: what }).message() == "upstream "@ + provider + " returned "@
            + text::digits(status as nat) + ": "@ + what,
        (ErrorV::Transport { provider, source: what }).message() == "cannot reach "@ + provider + ": "@ + what,
        ErrorV::BadUpstreamPayload(what).message() == "bad upstream payload: "@ + what,
        ErrorV::Timeout(n).message() == "upstream timed out after "@ + text::digits(n as nat) + "s"@,
        ErrorV::OverBudget(what).message() == "stopped by a budget: "@ + what,
        (ErrorV::TooLarge { limit_mib: n }).message() == "request body is larger than "@ + text::digits(n as nat)
            + " MiB"@,
        ErrorV::Internal(what).message() == "internal error: "@ + what,
{
}

/// What is kept of an error says nothing of what the upstream answered: errors that
/// differ in the answer alone are kept alike. Of any other the whole message is kept.
pub proof fn kept_errors_hold_no_answer(provider: Seq<char>, status: u16, a: Seq<char>, b: Seq<char>, e: ErrorV)
    ensures
        (ErrorV::Upstream { provider, status, body: a }).safe_message() == (ErrorV::Upstream {
            provider,
            status,
            body: b,
        }).safe_message(),
        (ErrorV::Upstream { provider, status, body: a }).safe_message() == "upstream "@ + provider + " returned "@
            + text::digits(status as nat),
        ErrorV::BadUpstreamPayload(a).safe_message() == ErrorV::BadUpstreamPayload(b).safe_message(),
        ErrorV::BadUpstreamPayload(a).safe_message() == "bad upstream payload"@,
        e !is Upstream && e !is BadUpstreamPayload ==> e.safe_message() == e.message(),
{
}

/// Another model is tried exactly after what another model may do better: a provider
/// that cannot be reached, is slow, answers rubbish or has no key, and of its answers
/// those that speak of the account, the model or the moment and every fault of its own.
pub proof fn others_are_tried_where_it_helps(e: ErrorV)
    ensures
        e matches ErrorV::Upstream { status, .. } ==> (e.retryable() <==> status >= 500 || seq![
            401u16,
            402u16,
            403u16,
            404u16,
            408u16,
            409u16,
            425u16,
            429u16,
        ].contains(status)),
        e is Transport || e is BadUpstreamPayload || e is Timeout || e is MissingApiKey ==> e.retryable(),
        e is InvalidRequest || e is Unauthorized || e is UnknownModel || e is UnknownRoute || e is NoCandidate
            || e is OverBudget || e is TooLarge || e is Internal ==> !e.retryable(),
{
    let known = seq![401u16, 402u16, 403u16, 404u16, 408u16, 409u16, 425u16, 429u16];
    assert(known[0] == 401 && known[1] == 402 && known[2] == 403 && known[3] == 404 && known[4] == 408 && known[5]
        == 409 && known[6] == 425 && known[7] == 429);
}

/// Only what another model may do better counts against a model, and not all of that:
/// a model that is not there, a conflict, a request that came too early and a missing
/// key do not.
pub proof fn only_faults_of_the_model_count(e: ErrorV)
    ensures
        e.against_health() ==> e.retryable(),
        e matches ErrorV::Upstream { status, .. } ==> (e.against_health() <==> e.retryable() && status != 404
            && status != 409 && status != 425),
        e !is Upstream ==> (e.against_health() <==> e.retryable() && e !is MissingApiKey),
{
}

// ------------------------------------------------------------------ breakers

/// A breaker after failures at those times, with nothing else in between.
pub open spec fn after_failures(b: CircuitBreaker, times: Seq<u64>) -> CircuitBreaker {
    times.fold_left(b, |x: CircuitBreaker, now: u64| x.failed(now))
}

/// A breaker that closed opens at the failure that reaches its threshold, and not
/// before; until then it only counts.
pub proof fn breakers_open_at_their_threshold(config: CircuitBreakerConfig, times: Seq<u64>)
    requires
        0 < config.failure_threshold,
    ensures
        ({
            let b = after_failures(CircuitBreaker::fresh(config), times);
            &&& times.len() < config.failure_threshold ==> b.state == CircuitState::Closed && b.failures == times.len()
            &&& times.len() == config.failure_threshold ==> b.state == CircuitState::Open && b.opened_at
                == times.last() && !b.probing
            &&& b.config == config
        }),
    decreases times.len(),
{
    reveal(Seq::fold_left);
    if times.len() > 0 {
        breakers_open_at_their_threshold(config, times.drop_last());
    }
}

/// A success forgets the failures of a closed breaker, so that it takes as many again.
pub proof fn successes_forget_failures(b: CircuitBreaker)
    ensures
        b.state == CircuitState::Closed ==> b.succeeded().state == CircuitState::Closed && b.succeeded().failures == 0
            && b.succeeded().config == b.config,
        b.state == CircuitState::Open ==> b.succeeded().state == CircuitState::Open,
{
}

/// An open breaker lets nothing through until its time is up; then one probe, and none
/// beside it until that one is over.
pub proof fn open_breakers_wait(b: CircuitBreaker, now: u64, later: u64)
    requires
        b.state == CircuitState::Open,
    ensures
        ({
            let (ok, after) = b.passed(now);
            let elapsed = now - b.opened_at;
            &&& ok <==> elapsed >= b.config.timeout_secs * 1000 || (elapsed < 0 && b.config.timeout_secs == 0)
            &&& !ok ==> after == b
            &&& ok ==> after.state == CircuitState::HalfOpen && after.probing && after.successes == 0
            &&& ok ==> !after.passed(later).0
            &&& ok <==> b.remaining_secs(now) == 0
        }),
{
    let t = b.config.timeout_secs as int;
    let e = b.open_for(now);
    if e < t * 1000 {
        assert(e / 1000 < t) by (nonlinear_arith)
            requires
                0 <= e < t * 1000,
        ;
    }
}

/// A probe that fails opens the breaker anew, from that moment; one that succeeds makes
/// room for the next, and the one that reaches the threshold closes it as new.
pub proof fn probes_decide(b: CircuitBreaker, now: u64)
    requires
        b.state == CircuitState::HalfOpen,
        b.successes < u32::MAX,
    ensures
        b.failed(now).state == CircuitState::Open,
        b.failed(now).opened_at == now,
        b.failed(now).successes == 0,
        !b.failed(now).probing,
        !b.succeeded().probing,
        b.successes + 1 >= b.config.success_threshold ==> b.succeeded() == CircuitBreaker::fresh(b.config),
        b.successes + 1 < b.config.success_threshold ==> b.succeeded().state == CircuitState::HalfOpen
            && b.succeeded().successes == b.successes + 1 && b.succeeded().passed(now).0,
{
}

/// A new breaker is closed and has counted nothing.
pub proof fn breakers_start_closed(config: CircuitBreakerConfig, now: u64)
    ensures
        ({
            let b = CircuitBreaker::fresh(config);
            &&& b.state == CircuitState::Closed
            &&& b.failures == 0 && b.successes == 0 && !b.probing
            &&& b.config == config
            &&& b.passed(now) == (true, b)
        }),
        circuit_breaker::default_breaker().failure_threshold == 3,
        circuit_breaker::default_breaker().success_threshold == 2,
        circuit_breaker::default_breaker().timeout_secs == 60,
{
}

// -------------------------------------------------------------------- health

/// A report counts for the model it is about, and for no other: a success with its
/// latency and without the last error, a failure of the model with what may be kept of
/// it. A failure that is not the model's changes nothing.
pub proof fn reports_count_for_their_model(
    st: RouterV,
    id: Seq<char>,
    other: Seq<char>,
    rank: u64,
    e: ErrorV,
    config: CircuitBreakerConfig,
    now: u64,
)
    requires
        other != id,
        st.has_room(id),
    ensures
        ({
            let before = st.health_of(id, config);
            let ok = st.succeeded(id, rank, config).health_of(id, config);
            let bad = st.failed(id, e, config, now).health_of(id, config);
            &&& ok.total_success == before.total_success + 1
            &&& ok.total_failure == before.total_failure
            &&& ok.latency_rank == rank
            &&& ok.last_error is None
            &&& ok.breaker == before.breaker.succeeded()
            &&& e.against_health() ==> bad == (HealthV {
                breaker: before.breaker.failed(now),
                total_failure: (before.total_failure + 1) as u64,
                last_error: Some(e.safe_message()),
                ..before
            })
            &&& e.against_health() ==> bad.total_failure == before.total_failure + 1
            &&& !e.against_health() ==> st.failed(id, e, config, now) == st
            &&& st.succeeded(id, rank, config).health_of(other, config) == st.health_of(other, config)
            &&& st.failed(id, e, config, now).health_of(other, config) == st.health_of(other, config)
            &&& st.released(id).health_of(other, config) == st.health_of(other, config)
            &&& st.reset(id).health_of(other, config) == st.health_of(other, config)
            &&& st.passed(id, now).1.health_of(other, config) == st.health_of(other, config)
        }),
{
}

/// A model that nothing is known of passes. One whose breaker is asked passes as that
/// says; giving a probe back lets the next one pass; a reset forgets what the breaker
/// counted and keeps the totals.
pub proof fn breakers_guard_their_model(st: RouterV, id: Seq<char>, config: CircuitBreakerConfig, now: u64)
    ensures
        !st.health.contains_key(id) ==> st.passed(id, now) == (true, st) && st.released(id) == st && st.reset(id) == st,
        st.health.contains_key(id) ==> ({
            let h = st.health[id];
            let (ok, after) = st.passed(id, now);
            &&& ok == h.breaker.passed(now).0
            &&& after.health_of(id, config) == (HealthV { breaker: h.breaker.passed(now).1, ..h })
            &&& !st.released(id).health_of(id, config).breaker.probing
            &&& st.released(id).health_of(id, config).breaker.state == h.breaker.state
            &&& st.reset(id).health_of(id, config) == (HealthV {
                breaker: CircuitBreaker::fresh(h.breaker.config),
                last_error: None,
                ..h
            })
        }),
        router::unseen(config).breaker == CircuitBreaker::fresh(config),
        router::unseen(config).total_success == 0,
        router::unseen(config).total_failure == 0,
        router::unseen(config).latency_rank == 0,
        router::unseen(config).last_error is None,
{
}

/// A model stands ready while its breaker is closed or nothing is known of it, may be
/// probed while it is half open or its time is up, and is out otherwise.
pub proof fn standings_follow_breakers(st: RouterV, id: Seq<char>, now: u64)
    ensures
        !st.health.contains_key(id) ==> router::standing(st.health, id, now) == router::Standing::Ready,
        st.health.contains_key(id) ==> ({
            let b = st.health[id].breaker;
            &&& router::standing(st.health, id, now) == router::Standing::Ready <==> b.state == CircuitState::Closed
            &&& router::standing(st.health, id, now) == router::Standing::Out <==> b.state == CircuitState::Open
                && !b.passed(now).0
            &&& router::standing(st.health, id, now) == router::Standing::Probe <==> b.state == CircuitState::HalfOpen
                || (b.state == CircuitState::Open && b.passed(now).0)
        }),
{
}

} // verus!
