//! What is counted of requests, of models and of sessions.

use vstd::prelude::*;

use crate::error::ErrorV;
use crate::query;
use crate::session::{SessionRoutingMode, SessionV, StoreV};
use crate::stats;
use crate::stats::{KindTotalsV, ModelTotalsV, RecordV, StatsV};
use crate::stats_ext::{EstimatorV, FailureClass, FailureStats, PairV};
use crate::text;

verus! {

// --------------------------------------------------------------------- books

/// The model that a record is booked under: the one that answered, or else the one that
/// was asked for.
pub open spec fn under(r: RecordV) -> Seq<char> {
    if r.resolved_model is Some { r.resolved_model->0 } else { r.requested_model }
}

/// A record adds to the row of its model all that it cost, and its failure where it is
/// one.
pub proof fn records_add_to_their_model(s: StatsV, r: RecordV)
    requires
        s.has_room(r),
    ensures
        ({
            let before = s.model(under(r));
            let now = s.recorded(r).model(under(r));
            &&& now.model_id == before.model_id
            &&& now.requests == before.requests + 1
            &&& now.failures == before.failures + if r.ok { 0int } else { 1 }
            &&& now.input_tokens == before.input_tokens + r.usage.input_tokens
            &&& now.output_tokens == before.output_tokens + r.usage.output_tokens
            &&& now.reasoning_tokens == before.reasoning_tokens + r.usage.reasoning_tokens
            &&& now.cached_tokens == before.cached_tokens + r.usage.cache_read_tokens
            &&& now.latency_total_ms == before.latency_total_ms + r.latency_ms
        }),
        !s.per_model.contains_key(under(r)) ==> s.model(under(r)) == ModelTotalsV::fresh(under(r)),
        ModelTotalsV::fresh(under(r)).model_id == under(r),
{
}

/// A record adds to the row of its kind what it cost, and its failure where it is one.
pub proof fn records_add_to_their_kind(s: StatsV, r: RecordV)
    requires
        s.has_room(r),
    ensures
        ({
            let name = query::kind_name(r.kind);
            let before = s.kind(name);
            let now = s.recorded(r).kind(name);
            &&& now.kind == before.kind
            &&& now.requests == before.requests + 1
            &&& now.failures == before.failures + if r.ok { 0int } else { 1 }
            &&& now.input_tokens == before.input_tokens + r.usage.input_tokens
            &&& now.output_tokens == before.output_tokens + r.usage.output_tokens
            &&& now.latency_total_ms == before.latency_total_ms + r.latency_ms
        }),
        KindTotalsV::fresh(query::kind_name(r.kind)).kind == query::kind_name(r.kind),
{
}

/// Another limit keeps the newest records and every count.
pub proof fn limits_touch_the_log_alone(s: StatsV, limit: usize)
    ensures
        ({
            let now = s.limited(limit);
            let n = if limit == 0 { 1int } else { limit as int };
            &&& now.limit == n
            &&& now.records.len() == if s.records.len() < n { s.records.len() as int } else { n }
            &&& forall|i: int|
                0 <= i < now.records.len() ==> #[trigger] now.records[now.records.len() - 1 - i]
                    == s.records[s.records.len() - 1 - i]
            &&& now.per_model == s.per_model && now.per_kind == s.per_kind
            &&& now.requests == s.requests && now.failures == s.failures
            &&& now.input_tokens == s.input_tokens && now.output_tokens == s.output_tokens
            &&& now.since == s.since
        }),
{
}

/// A request that arrives is recorded as what it asks for, with nothing tried or spent.
pub proof fn requests_arrive_unspent(id: Seq<char>, at: i64, ingress: crate::ir::Dialect, model: Seq<char>, stream: bool)
    ensures
        ({
            let r = RecordV::arrived(id, at, ingress, model, stream);
            &&& r.id == id && r.at == at && r.ingress == ingress && r.requested_model == model && r.stream == stream
            &&& r.kind == query::RequestKind::Main
            &&& r.resolved_model is None && r.provider_name is None
            &&& r.ok && r.status == 200 && r.error is None
            &&& r.attempts == 0 && r.latency_ms == 0 && r.ttft_ms is None
            &&& r.usage.input_tokens == 0 && r.usage.output_tokens == 0 && r.usage.reasoning_tokens == 0
            &&& r.usage.cache_read_tokens == 0 && r.usage.cache_write_tokens == 0
        }),
{
}

proof fn the_status_is_found(s: Seq<char>, i: int, k: int)
    requires
        0 <= i <= k,
        k + 9 < s.len(),
        s.subrange(k, k + 9) == "returned "@,
        stats::is_digit(s[k + 9]),
    ensures
        i + 9 <= stats::status_at(s, i) <= k + 9,
        stats::is_digit(s[stats::status_at(s, i)]),
    decreases k - i,
{
    reveal_strlit("returned ");
    if !(s.subrange(i, i + 9) == "returned "@ && stats::is_digit(s[i + 9])) {
        the_status_is_found(s, i + 1, k);
    }
}

proof fn the_same_status_is_found(s: Seq<char>, t: Seq<char>, n: int, i: int)
    requires
        0 <= i,
        n <= s.len(),
        n <= t.len(),
        s.take(n) == t.take(n),
        0 <= stats::status_at(s, i) < n,
    ensures
        stats::status_at(t, i) == stats::status_at(s, i),
    decreases s.len() - i,
{
    reveal_strlit("returned ");
    the_status_is_ahead(s, i);
    assert forall|j: int| 0 <= j < n implies s[j] == t[j] by {
        assert(s.take(n)[j] == s[j] && t.take(n)[j] == t[j]);
    }
    assert(s.subrange(i, i + 9) =~= t.subrange(i, i + 9));
    if !(s.subrange(i, i + 9) == "returned "@ && stats::is_digit(s[i + 9])) {
        the_same_status_is_found(s, t, n, i + 1);
    }
}

proof fn the_status_is_ahead(s: Seq<char>, i: int)
    requires
        0 <= i,
        stats::status_at(s, i) >= 0,
    ensures
        i + 9 <= stats::status_at(s, i) < s.len(),
    decreases s.len() - i,
{
    reveal_strlit("returned ");
    if !(s.subrange(i, i + 9) == "returned "@ && stats::is_digit(s[i + 9])) {
        the_status_is_ahead(s, i + 1);
    }
}

proof fn the_number_ends(s: Seq<char>, i: int, n: int)
    requires
        0 <= i <= n < s.len(),
        !stats::is_digit(s[n]),
    ensures
        i <= stats::digits_end(s, i) <= n,
    decreases n - i,
{
    if i < n && stats::is_digit(s[i]) {
        the_number_ends(s, i + 1, n);
    }
}

proof fn the_number_ends_alike(s: Seq<char>, t: Seq<char>, i: int, n: int)
    requires
        0 <= i <= n < s.len(),
        n < t.len(),
        s.take(n + 1) == t.take(n + 1),
        !stats::is_digit(s[n]),
    ensures
        stats::digits_end(s, i) == stats::digits_end(t, i),
    decreases n - i,
{
    assert(s[i] == s.take(n + 1)[i] && t[i] == t.take(n + 1)[i]);
    if i < n {
        the_number_ends_alike(s, t, i + 1, n);
    }
}

/// What is recorded of an upstream's refusal says nothing of what the upstream answered:
/// refusals that differ in the answer alone leave the same record.
pub proof fn records_hold_no_answer(provider: Seq<char>, status: u16, a: Seq<char>, b: Seq<char>)
    ensures
        stats::redacted((ErrorV::Upstream { provider, status, body: a }).message()) == stats::redacted(
            (ErrorV::Upstream { provider, status, body: b }).message(),
        ),
{
    let d = text::digits(status as nat);
    let head = "upstream "@ + provider + " returned "@ + d + ": "@;
    let s = (ErrorV::Upstream { provider, status, body: a }).message();
    let t = (ErrorV::Upstream { provider, status, body: b }).message();
    assert(s =~= head + a);
    assert(t =~= head + b);
    reveal_strlit("upstream ");
    reveal_strlit("returned ");
    reveal_strlit(" returned ");
    reveal_strlit(": ");
    digits_begin(status as nat);
    let k = 9 + provider.len() as int + 1;
    assert(s.subrange(k, k + 9) =~= "returned "@);
    assert(s[k + 9] == d[0]);
    the_status_is_found(s, 0, k);
    let n = k + 9 + d.len();
    assert(s[n] == ':');
    assert(s.take(n + 1) =~= t.take(n + 1));
    assert(s.take(n) =~= t.take(n));
    the_same_status_is_found(s, t, n, 0);
    let at = stats::status_at(s, 0);
    the_number_ends(s, at, n);
    the_number_ends_alike(s, t, at, n);
    let end = stats::digits_end(s, at);
    assert(s.take(end) =~= t.take(end));
    assert(s.subrange(0, 9) =~= "upstream "@);
    assert(t.subrange(0, 9) =~= "upstream "@);
}

proof fn digits_begin(n: nat)
    ensures
        text::digits(n).len() > 0,
        stats::is_digit(text::digits(n)[0]),
    decreases n,
{
    if n >= 10 {
        digits_begin(n / 10);
    } else {
        assert(text::digits(n)[0] == text::digit(n));
        assert('0' as int + n <= '9' as int);
        assert(text::digit(n) as int == '0' as int + n);
    }
}

// ------------------------------------------------------------------ sessions

/// A session is pinned by what it holds, sticks by how often it asked, and is free
/// before either.
pub proof fn sessions_settle(s: SessionV, often: u32, much: u64)
    ensures
        s.mode_for(often, much) == SessionRoutingMode::Pinned <==> s.context_tokens >= much,
        s.mode_for(often, much) == SessionRoutingMode::Sticky <==> s.context_tokens < much && s.request_count >= often,
        s.mode_for(often, much) == SessionRoutingMode::Free <==> s.context_tokens < much && s.request_count < often,
{
}

/// A success counts, adds what it held, forgets the failures before it and remembers who
/// answered. A failure counts and remembers nobody.
pub proof fn sessions_remember(s: SessionV, model: Seq<char>, provider: Seq<char>, tokens: u64, now: i64)
    requires
        s.request_count < u32::MAX,
        s.consecutive_failures < u32::MAX,
        s.context_tokens + tokens <= u64::MAX,
    ensures
        ({
            let ok = s.succeeded(model, provider, tokens, now);
            &&& ok.request_count == s.request_count + 1
            &&& ok.context_tokens == s.context_tokens + tokens
            &&& ok.consecutive_failures == 0
            &&& ok.affinity_model == Some(model)
            &&& ok.affinity_provider == Some(provider)
            &&& ok.last_request_at == now
            &&& ok.session_id == s.session_id && ok.started_at == s.started_at && ok.mode == s.mode
        }),
        ({
            let bad = s.failed(now);
            &&& bad.consecutive_failures == s.consecutive_failures + 1
            &&& bad.last_request_at == now
            &&& bad == (SessionV {
                consecutive_failures: bad.consecutive_failures,
                last_request_at: now,
                ..s
            })
        }),
        s.unpinned().affinity_model is None && s.unpinned().affinity_provider is None
            && s.unpinned().consecutive_failures == 0 && s.unpinned().mode == SessionRoutingMode::Free,
        s.unpinned().request_count == s.request_count && s.unpinned().context_tokens == s.context_tokens
            && s.unpinned().session_id == s.session_id,
{
}

/// A session that is asked for is there from then on, as it was or as new; no other
/// changes. What was idle too long goes, and nothing else does.
pub proof fn sessions_are_kept(st: StoreV, id: Seq<char>, other: Seq<char>, now: i64, age: i64)
    ensures
        ({
            let (s, after) = st.got(id, now);
            &&& after.sessions.contains_key(id) && after.sessions[id] == s
            &&& st.sessions.contains_key(id) ==> s == st.sessions[id] && after == st
            &&& !st.sessions.contains_key(id) ==> s == SessionV::started(id, now)
            &&& other != id ==> (after.sessions.contains_key(other) <==> st.sessions.contains_key(other))
            &&& other != id && st.sessions.contains_key(other) ==> after.sessions[other] == st.sessions[other]
        }),
        ({
            let left = st.evicted(now, age);
            &&& left.sessions.contains_key(id) <==> st.sessions.contains_key(id) && now
                - st.sessions[id].last_request_at <= age
            &&& left.sessions.contains_key(id) ==> left.sessions[id] == st.sessions[id]
        }),
        SessionV::started(id, now).session_id == id,
        SessionV::started(id, now).mode == SessionRoutingMode::Free,
        SessionV::started(id, now).request_count == 0,
        SessionV::started(id, now).context_tokens == 0,
        SessionV::started(id, now).consecutive_failures == 0,
        SessionV::started(id, now).affinity_model is None,
        SessionV::started(id, now).started_at == now && SessionV::started(id, now).last_request_at == now,
        StoreV::fresh().sticky_threshold_requests == 2,
        StoreV::fresh().pinned_threshold_tokens == 100_000,
        StoreV::fresh().max_failures == 3,
{
}

// --------------------------------------------------------------------- pairs

/// A success counts, and its latency and first token are sampled; a failure counts under
/// its class alone.
pub proof fn pairs_are_counted(p: PairV, latency: u64, ttft: Option<u64>, class: FailureClass, other: FailureClass)
    requires
        p.has_room(),
    ensures
        ({
            let ok = p.succeeded(latency, ttft);
            &&& ok.total_requests == p.total_requests + 1
            &&& ok.total_successes == p.total_successes + 1
            &&& ok.total_failures == p.total_failures
            &&& ok.failures == p.failures
            &&& ok.total_latency == p.total_latency.recorded(latency)
            &&& ttft is Some ==> ok.ttft == p.ttft.recorded(ttft->0)
            &&& ttft is None ==> ok.ttft == p.ttft
            &&& ok.model_id == p.model_id && ok.provider_id == p.provider_id
        }),
        ({
            let bad = p.failed(class);
            &&& bad.total_requests == p.total_requests + 1
            &&& bad.total_failures == p.total_failures + 1
            &&& bad.total_successes == p.total_successes
            &&& bad.failures.total == p.failures.total + 1
            &&& bad.failures.of_class(class) == p.failures.of_class(class) + 1
            &&& other != class ==> bad.failures.of_class(other) == p.failures.of_class(other)
            &&& bad.ttft == p.ttft && bad.total_latency == p.total_latency
        }),
        FailureStats::none_yet().total == 0,
        FailureStats::none_yet().of_class(class) == 0,
{
}

proof fn ranks_stand_between(s: Seq<u64>, value: u64, i: int)
    requires
        0 <= i <= s.len(),
        forall|j: int| 0 <= j < i ==> #[trigger] s[j] < value,
    ensures
        i <= crate::stats_ext::rank_from(s, value, i) <= s.len(),
        forall|j: int| 0 <= j < crate::stats_ext::rank_from(s, value, i) ==> #[trigger] s[j] < value,
    decreases s.len() - i,
{
    if i < s.len() && s[i] < value {
        ranks_stand_between(s, value, i + 1);
    }
}

/// While there is room a sample is kept beside all others.
pub proof fn samples_are_kept(e: EstimatorV, value: u64)
    requires
        e.samples.len() < e.capacity,
        e.total_count < u64::MAX,
    ensures
        e.recorded(value).samples.to_multiset() == e.samples.to_multiset().insert(value),
        e.recorded(value).total_count == e.total_count + 1,
        e.recorded(value).capacity == e.capacity,
{
    ranks_stand_between(e.samples, value, 0);
    let k = crate::stats_ext::rank_from(e.samples, value, 0);
    crate::sorting::inserting_adds_one(e.samples, k, value);
}

/// A percentile is a sample: the first for none, the last for all, and the one nearest
/// to that share of the way between.
pub proof fn percentiles_are_samples(e: EstimatorV, percent: u8)
    requires
        percent <= 100,
        e.samples.len() > 0,
    ensures
        e.percentile(percent) is Some,
        e.samples.contains(e.percentile(percent)->0),
        e.percentile(0) == Some(e.samples[0]),
        e.percentile(100) == Some(e.samples[e.samples.len() - 1]),
        e.percentile(percent) == Some(e.samples[e.place_of(percent)]),
        200 * e.place_of(percent) <= percent * (e.samples.len() - 1) * 2 + 100 < 200 * (e.place_of(percent) + 1),
{
    let n = e.samples.len() - 1;
    let p = percent as int;
    assert(0 <= (p * n * 2 + 100) / 200 <= n) by (nonlinear_arith)
        requires
            0 <= p <= 100,
            0 <= n,
    ;
    assert((100 * n * 2 + 100) / 200 == n) by (nonlinear_arith)
        requires
            0 <= n,
    ;
    assert((0 * n * 2 + 100) / 200 == 0) by (nonlinear_arith);
    assert(e.samples.contains(e.samples[e.place_of(percent)]));
}

} // verus!
