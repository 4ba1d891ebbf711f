//! In-memory request log and token accounting for the GUI.
//!
//! Nothing is written to disk: the log is a bounded ring buffer, so prompts and
//! completions never outlive the process.

use std::collections::VecDeque;

use crate::draw;
use crate::draw::{fresh_id, unix_now};
use crate::ir::{copy_opt_string, Dialect, Usage};
use crate::query;
use crate::query::RequestKind;
use crate::table;
use crate::table::Table;
use crate::text;
use crate::text::{chars_of, string_of, strip_prefix};
use crate::views;
use vstd::prelude::*;

verus! {

broadcast use crate::views::group_views;

/// One completed (or failed) client request.
#[derive(Debug)]
pub struct RequestRecord {
    pub id: String,
    /// When it arrived (unix seconds).
    pub at: i64,
    /// Which API the client used.
    pub ingress: Dialect,
    /// What the request was *for*: the main conversation or a side query such
    /// as the Auto Mode classifier. Orthogonal to the model.
    pub kind: RequestKind,
    /// What the client asked for, e.g. `sonnet-class`.
    pub requested_model: String,
    /// Which concrete model answered, if any.
    pub resolved_model: Option<String>,
    pub provider_name: Option<String>,
    pub stream: bool,
    pub status: u16,
    pub ok: bool,
    pub error: Option<String>,
    pub latency_ms: u64,
    /// Time to first streamed token.
    pub ttft_ms: Option<u64>,
    pub usage: Usage,
    /// How many upstream attempts it took (>1 means failover happened).
    pub attempts: u32,
    /// Routing decision trace (for diagnostics).
    pub routing_decision: Option<String>,
}

pub struct RecordV {
    pub id: Seq<char>,
    pub at: i64,
    pub ingress: Dialect,
    pub kind: RequestKind,
    pub requested_model: Seq<char>,
    pub resolved_model: Option<Seq<char>>,
    pub provider_name: Option<Seq<char>>,
    pub stream: bool,
    pub status: u16,
    pub ok: bool,
    pub error: Option<Seq<char>>,
    pub latency_ms: u64,
    pub ttft_ms: Option<u64>,
    pub usage: Usage,
    pub attempts: u32,
    pub routing_decision: Option<Seq<char>>,
}

impl View for RequestRecord {
    type V = RecordV;

    open spec fn view(&self) -> RecordV {
        RecordV {
            id: self.id@,
            at: self.at,
            ingress: self.ingress,
            kind: self.kind,
            requested_model: self.requested_model@,
            resolved_model: views::opt(self.resolved_model),
            provider_name: views::opt(self.provider_name),
            stream: self.stream,
            status: self.status,
            ok: self.ok,
            error: views::opt(self.error),
            latency_ms: self.latency_ms,
            ttft_ms: self.ttft_ms,
            usage: self.usage,
            attempts: self.attempts,
            routing_decision: views::opt(self.routing_decision),
        }
    }
}

impl Clone for RequestRecord {
    fn clone(&self) -> (r: Self)
        ensures
            r@ == self@,
    {
        RequestRecord {
            id: self.id.clone(),
            at: self.at,
            ingress: self.ingress,
            kind: self.kind,
            requested_model: self.requested_model.clone(),
            resolved_model: copy_opt_string(&self.resolved_model),
            provider_name: copy_opt_string(&self.provider_name),
            stream: self.stream,
            status: self.status,
            ok: self.ok,
            error: copy_opt_string(&self.error),
            latency_ms: self.latency_ms,
            ttft_ms: self.ttft_ms,
            usage: self.usage,
            attempts: self.attempts,
            routing_decision: copy_opt_string(&self.routing_decision),
        }
    }
}

/// Counters for one model.
#[derive(Debug)]
pub struct ModelTotals {
    pub model_id: String,
    pub requests: u64,
    pub failures: u64,
    pub input_tokens: u64,
    pub output_tokens: u64,
    pub reasoning_tokens: u64,
    pub cached_tokens: u64,
    /// The end to end latencies together, in milliseconds; their average is this
    /// over the requests.
    pub latency_total_ms: u64,
}

pub struct ModelTotalsV {
    pub model_id: Seq<char>,
    pub requests: u64,
    pub failures: u64,
    pub input_tokens: u64,
    pub output_tokens: u64,
    pub reasoning_tokens: u64,
    pub cached_tokens: u64,
    pub latency_total_ms: u64,
}

impl View for ModelTotals {
    type V = ModelTotalsV;

    open spec fn view(&self) -> ModelTotalsV {
        ModelTotalsV {
            model_id: self.model_id@,
            requests: self.requests,
            failures: self.failures,
            input_tokens: self.input_tokens,
            output_tokens: self.output_tokens,
            reasoning_tokens: self.reasoning_tokens,
            cached_tokens: self.cached_tokens,
            latency_total_ms: self.latency_total_ms,
        }
    }
}

/// Counters for one request kind (`main` / `auto_mode`).
///
/// Model health says whether a *model* is responsive; this says how a kind of
/// traffic is doing. The same GLM endpoint can carry the main conversation and
/// the classifier, and without this split the dashboard cannot tell whether
/// "GLM is slow" means coding is slow or approvals are slow.
#[derive(Debug)]
pub struct KindTotals {
    pub kind: String,
    pub requests: u64,
    pub failures: u64,
    pub input_tokens: u64,
    pub output_tokens: u64,
    /// The end to end latencies together, in milliseconds; their average is this
    /// over the requests.
    pub latency_total_ms: u64,
}

pub struct KindTotalsV {
    pub kind: Seq<char>,
    pub requests: u64,
    pub failures: u64,
    pub input_tokens: u64,
    pub output_tokens: u64,
    pub latency_total_ms: u64,
}

impl View for KindTotals {
    type V = KindTotalsV;

    open spec fn view(&self) -> KindTotalsV {
        KindTotalsV {
            kind: self.kind@,
            requests: self.requests,
            failures: self.failures,
            input_tokens: self.input_tokens,
            output_tokens: self.output_tokens,
            latency_total_ms: self.latency_total_ms,
        }
    }
}

/// One more where something failed.
pub open spec fn one_if_failed(n: u64, ok: bool) -> u64 {
    if ok {
        n
    } else {
        (n + 1) as u64
    }
}

impl ModelTotalsV {
    pub open spec fn fresh(model_id: Seq<char>) -> ModelTotalsV {
        ModelTotalsV {
            model_id,
            requests: 0,
            failures: 0,
            input_tokens: 0,
            output_tokens: 0,
            reasoning_tokens: 0,
            cached_tokens: 0,
            latency_total_ms: 0,
        }
    }

    pub open spec fn observed(self, r: RecordV) -> ModelTotalsV {
        ModelTotalsV {
            model_id: self.model_id,
            requests: (self.requests + 1) as u64,
            failures: one_if_failed(self.failures, r.ok),
            input_tokens: (self.input_tokens + r.usage.input_tokens) as u64,
            output_tokens: (self.output_tokens + r.usage.output_tokens) as u64,
            reasoning_tokens: (self.reasoning_tokens + r.usage.reasoning_tokens) as u64,
            cached_tokens: (self.cached_tokens + r.usage.cache_read_tokens) as u64,
            latency_total_ms: (self.latency_total_ms + r.latency_ms) as u64,
        }
    }

    pub open spec fn has_room(self, r: RecordV) -> bool {
        &&& self.requests < u64::MAX
        &&& self.failures < u64::MAX
        &&& self.input_tokens + r.usage.input_tokens <= u64::MAX
        &&& self.output_tokens + r.usage.output_tokens <= u64::MAX
        &&& self.reasoning_tokens + r.usage.reasoning_tokens <= u64::MAX
        &&& self.cached_tokens + r.usage.cache_read_tokens <= u64::MAX
        &&& self.latency_total_ms + r.latency_ms <= u64::MAX
    }
}

impl KindTotalsV {
    pub open spec fn fresh(kind: Seq<char>) -> KindTotalsV {
        KindTotalsV { kind, requests: 0, failures: 0, input_tokens: 0, output_tokens: 0, latency_total_ms: 0 }
    }

    pub open spec fn observed(self, r: RecordV) -> KindTotalsV {
        KindTotalsV {
            kind: self.kind,
            requests: (self.requests + 1) as u64,
            failures: one_if_failed(self.failures, r.ok),
            input_tokens: (self.input_tokens + r.usage.input_tokens) as u64,
            output_tokens: (self.output_tokens + r.usage.output_tokens) as u64,
            latency_total_ms: (self.latency_total_ms + r.latency_ms) as u64,
        }
    }

    pub open spec fn has_room(self, r: RecordV) -> bool {
        &&& self.requests < u64::MAX
        &&& self.failures < u64::MAX
        &&& self.input_tokens + r.usage.input_tokens <= u64::MAX
        &&& self.output_tokens + r.usage.output_tokens <= u64::MAX
        &&& self.latency_total_ms + r.latency_ms <= u64::MAX
    }
}

impl ModelTotals {
    fn new(model_id: String) -> (r: ModelTotals)
        ensures
            r@ == ModelTotalsV::fresh(model_id@),
    {
        ModelTotals {
            model_id,
            requests: 0,
            failures: 0,
            input_tokens: 0,
            output_tokens: 0,
            reasoning_tokens: 0,
            cached_tokens: 0,
            latency_total_ms: 0,
        }
    }

    fn has_room(&self, record: &RequestRecord) -> (r: bool)
        ensures
            r == self@.has_room(record@),
    {
        self.requests < u64::MAX && self.failures < u64::MAX && self.input_tokens <= u64::MAX
            - record.usage.input_tokens as u64 && self.output_tokens <= u64::MAX - record.usage.output_tokens as u64
            && self.reasoning_tokens <= u64::MAX - record.usage.reasoning_tokens as u64 && self.cached_tokens
            <= u64::MAX - record.usage.cache_read_tokens as u64 && self.latency_total_ms <= u64::MAX
            - record.latency_ms
    }

    fn observe(&mut self, record: &RequestRecord)
        requires
            old(self)@.has_room(record@),
        ensures
            final(self)@ == old(self)@.observed(record@),
    {
        self.requests = self.requests + 1;
        if !record.ok {
            self.failures = self.failures + 1;
        }
        self.input_tokens = self.input_tokens + record.usage.input_tokens as u64;
        self.output_tokens = self.output_tokens + record.usage.output_tokens as u64;
        self.reasoning_tokens = self.reasoning_tokens + record.usage.reasoning_tokens as u64;
        self.cached_tokens = self.cached_tokens + record.usage.cache_read_tokens as u64;
        self.latency_total_ms = self.latency_total_ms + record.latency_ms;
    }
}

impl Clone for ModelTotals {
    fn clone(&self) -> (r: Self)
        ensures
            r@ == self@,
    {
        ModelTotals {
            model_id: self.model_id.clone(),
            requests: self.requests,
            failures: self.failures,
            input_tokens: self.input_tokens,
            output_tokens: self.output_tokens,
            reasoning_tokens: self.reasoning_tokens,
            cached_tokens: self.cached_tokens,
            latency_total_ms: self.latency_total_ms,
        }
    }
}

impl KindTotals {
    fn new(kind: String) -> (r: KindTotals)
        ensures
            r@ == KindTotalsV::fresh(kind@),
    {
        KindTotals { kind, requests: 0, failures: 0, input_tokens: 0, output_tokens: 0, latency_total_ms: 0 }
    }

    fn has_room(&self, record: &RequestRecord) -> (r: bool)
        ensures
            r == self@.has_room(record@),
    {
        self.requests < u64::MAX && self.failures < u64::MAX && self.input_tokens <= u64::MAX
            - record.usage.input_tokens as u64 && self.output_tokens <= u64::MAX - record.usage.output_tokens as u64
            && self.latency_total_ms <= u64::MAX - record.latency_ms
    }

    fn observe(&mut self, record: &RequestRecord)
        requires
            old(self)@.has_room(record@),
        ensures
            final(self)@ == old(self)@.observed(record@),
    {
        self.requests = self.requests + 1;
        if !record.ok {
            self.failures = self.failures + 1;
        }
        self.input_tokens = self.input_tokens + record.usage.input_tokens as u64;
        self.output_tokens = self.output_tokens + record.usage.output_tokens as u64;
        self.latency_total_ms = self.latency_total_ms + record.latency_ms;
    }
}

impl Clone for KindTotals {
    fn clone(&self) -> (r: Self)
        ensures
            r@ == self@,
    {
        KindTotals {
            kind: self.kind.clone(),
            requests: self.requests,
            failures: self.failures,
            input_tokens: self.input_tokens,
            output_tokens: self.output_tokens,
            latency_total_ms: self.latency_total_ms,
        }
    }
}

#[derive(Debug)]
pub struct StatsSummary {
    /// Since when the counters run (unix seconds).
    pub since: i64,
    pub requests: u64,
    pub failures: u64,
    pub input_tokens: u64,
    pub output_tokens: u64,
    /// Counters per model, sorted by model id.
    pub per_model: Vec<ModelTotals>,
    /// Counters per request kind, sorted by kind name.
    pub per_kind: Vec<KindTotals>,
}

#[derive(Debug)]
pub struct Stats {
    limit: usize,
    since: i64,
    records: VecDeque<RequestRecord>,
    per_model: Table<ModelTotals>,
    per_kind: Table<KindTotals>,
    requests: u64,
    failures: u64,
    input_tokens: u64,
    output_tokens: u64,
}

pub struct StatsV {
    pub limit: usize,
    pub since: i64,
    /// The log, oldest first.
    pub records: Seq<RecordV>,
    pub per_model: Map<Seq<char>, ModelTotalsV>,
    pub per_kind: Map<Seq<char>, KindTotalsV>,
    pub requests: u64,
    pub failures: u64,
    pub input_tokens: u64,
    pub output_tokens: u64,
}

impl View for Stats {
    type V = StatsV;

    closed spec fn view(&self) -> StatsV {
        StatsV {
            limit: self.limit,
            since: self.since,
            records: views::of(self.records@),
            per_model: self.per_model@,
            per_kind: self.per_kind@,
            requests: self.requests,
            failures: self.failures,
            input_tokens: self.input_tokens,
            output_tokens: self.output_tokens,
        }
    }
}

/// The last `limit` items.
pub open spec fn last_of<T>(s: Seq<T>, limit: int) -> Seq<T> {
    if s.len() > limit {
        s.skip(s.len() - limit)
    } else {
        s
    }
}

/// A limit that leaves room for one record.
pub open spec fn at_least_one(limit: usize) -> usize {
    if limit == 0 {
        1
    } else {
        limit
    }
}

/// The model that a record is booked under: the one that answered, else what was
/// asked for.
pub open spec fn booked_under(r: RecordV) -> Seq<char> {
    match r.resolved_model {
        Some(m) => m,
        None => r.requested_model,
    }
}

impl StatsV {
    pub open spec fn fresh(limit: usize, now: i64) -> StatsV {
        StatsV {
            limit: at_least_one(limit),
            since: now,
            records: Seq::empty(),
            per_model: Map::empty(),
            per_kind: Map::empty(),
            requests: 0,
            failures: 0,
            input_tokens: 0,
            output_tokens: 0,
        }
    }

    pub open spec fn model(self, id: Seq<char>) -> ModelTotalsV {
        if self.per_model.contains_key(id) {
            self.per_model[id]
        } else {
            ModelTotalsV::fresh(id)
        }
    }

    pub open spec fn kind(self, name: Seq<char>) -> KindTotalsV {
        if self.per_kind.contains_key(name) {
            self.per_kind[name]
        } else {
            KindTotalsV::fresh(name)
        }
    }

    /// Whether every counter has room for a record.
    pub open spec fn has_room(self, r: RecordV) -> bool {
        &&& self.requests < u64::MAX
        &&& self.failures < u64::MAX
        &&& self.input_tokens + r.usage.input_tokens <= u64::MAX
        &&& self.output_tokens + r.usage.output_tokens <= u64::MAX
        &&& self.model(booked_under(r)).has_room(r)
        &&& self.kind(query::kind_name(r.kind)).has_room(r)
    }

    /// With a record booked and logged.
    pub open spec fn recorded(self, r: RecordV) -> StatsV {
        StatsV {
            records: last_of(self.records.push(r), self.limit as int),
            per_model: self.per_model.insert(booked_under(r), self.model(booked_under(r)).observed(r)),
            per_kind: self.per_kind.insert(
                query::kind_name(r.kind),
                self.kind(query::kind_name(r.kind)).observed(r),
            ),
            requests: (self.requests + 1) as u64,
            failures: one_if_failed(self.failures, r.ok),
            input_tokens: (self.input_tokens + r.usage.input_tokens) as u64,
            output_tokens: (self.output_tokens + r.usage.output_tokens) as u64,
            ..self
        }
    }

    /// With another limit for the log.
    pub open spec fn limited(self, limit: usize) -> StatsV {
        StatsV {
            limit: at_least_one(limit),
            records: last_of(self.records, at_least_one(limit) as int),
            ..self
        }
    }
}

impl Stats {
    /// A log that starts at `now`.
    pub fn starting_at(limit: usize, now: i64) -> (r: Stats)
        ensures
            r@ == StatsV::fresh(limit, now),
    {
        Stats {
            limit: if limit == 0 {
                1
            } else {
                limit
            },
            since: now,
            records: VecDeque::new(),
            per_model: Table::new(),
            per_kind: Table::new(),
            requests: 0,
            failures: 0,
            input_tokens: 0,
            output_tokens: 0,
        }
    }

    pub fn new(limit: usize) -> (r: Stats)
        ensures
            r@ == StatsV::fresh(limit, r@.since),
    {
        Stats::starting_at(limit, unix_now())
    }

    fn drop_oldest(&mut self)
        ensures
            final(self)@ == (StatsV { records: last_of(old(self)@.records, old(self)@.limit as int), ..old(self)@ }),
    {
        let ghost all = self@.records;
        while self.records.len() > self.limit
            invariant
                self@ == (StatsV { records: self@.records, ..old(self)@ }),
                last_of(all, self.limit as int) == last_of(views::of(self.records@), self.limit as int),
                all == old(self)@.records,
            decreases self.records@.len(),
        {
            let ghost before = self.records@;
            let _oldest = self.records.pop_front();
            assert(self.records@ =~= before.skip(1));
            assert(views::of(self.records@) =~= views::of(before).skip(1));
            assert(last_of(views::of(self.records@), self.limit as int) =~= last_of(
                views::of(before),
                self.limit as int,
            ));
        }
        assert(views::of(self.records@).len() == self.records@.len());
    }

    pub fn set_limit(&mut self, limit: usize)
        ensures
            final(self)@ == old(self)@.limited(limit),
    {
        self.limit = if limit == 0 {
            1
        } else {
            limit
        };
        self.drop_oldest();
    }

    /// Whether every counter has room for a record.
    pub fn has_room(&self, record: &RequestRecord) -> (r: bool)
        ensures
            r == self@.has_room(record@),
    {
        let key = match &record.resolved_model {
            Some(m) => m.as_str(),
            None => record.requested_model.as_str(),
        };
        let model = match self.per_model.get(key) {
            Some(t) => t.has_room(record),
            None => ModelTotals::new(key.to_owned()).has_room(record),
        };
        let kind = match self.per_kind.get(record.kind.as_str()) {
            Some(t) => t.has_room(record),
            None => KindTotals::new(record.kind.as_str().to_owned()).has_room(record),
        };
        self.requests < u64::MAX && self.failures < u64::MAX && self.input_tokens <= u64::MAX
            - record.usage.input_tokens as u64 && self.output_tokens <= u64::MAX - record.usage.output_tokens as u64
            && model && kind
    }

    pub fn record(&mut self, record: RequestRecord)
        requires
            old(self)@.has_room(record@),
        ensures
            final(self)@ == old(self)@.recorded(record@),
    {
        let ghost before = self@;
        self.requests = self.requests + 1;
        if !record.ok {
            self.failures = self.failures + 1;
        }
        self.input_tokens = self.input_tokens + record.usage.input_tokens as u64;
        self.output_tokens = self.output_tokens + record.usage.output_tokens as u64;

        let key = match &record.resolved_model {
            Some(m) => m.clone(),
            None => record.requested_model.clone(),
        };
        let mut totals = match self.per_model.take(key.as_str()) {
            Some(t) => t,
            None => ModelTotals::new(key.clone()),
        };
        totals.observe(&record);
        let ghost model = totals@;
        self.per_model.put(key.as_str(), totals);
        assert(self.per_model@ =~= before.per_model.insert(key@, model));

        let mut kinds = match self.per_kind.take(record.kind.as_str()) {
            Some(t) => t,
            None => KindTotals::new(record.kind.as_str().to_owned()),
        };
        kinds.observe(&record);
        let ghost kind = kinds@;
        self.per_kind.put(record.kind.as_str(), kinds);
        assert(self.per_kind@ =~= before.per_kind.insert(query::kind_name(record.kind), kind));

        self.records.push_back(record);
        self.drop_oldest();
    }

    /// Most recent requests first.
    pub fn recent(&self, limit: usize) -> (r: Vec<RequestRecord>)
        ensures
            views::of(r@) == last_of(self@.records, limit as int).reverse(),
    {
        let ghost all = self@.records;
        let n = self.records.len();
        let take = if limit < n {
            limit
        } else {
            n
        };
        let mut out: Vec<RequestRecord> = Vec::new();
        for i in 0..take
            invariant
                all == views::of(self.records@),
                n == self.records@.len(),
                take <= n,
                out@.len() == i,
                forall|j: int| 0 <= j < i ==> (#[trigger] out@[j])@ == all[n - 1 - j],
        {
            let record: &RequestRecord = &self.records[n - 1 - i];
            assert(all[n - 1 - i] == record@);
            out.push(record.clone());
        }
        assert(all.len() == n);
        assert(views::of(out@) =~= last_of(all, limit as int).reverse());
        out
    }

    pub fn summary(&self) -> (r: StatsSummary)
        ensures
            r.since == self@.since,
            r.requests == self@.requests,
            r.failures == self@.failures,
            r.input_tokens == self@.input_tokens,
            r.output_tokens == self@.output_tokens,
            listed_in_order(self@.per_model, views::of(r.per_model@)),
            listed_in_order(self@.per_kind, views::of(r.per_kind@)),
    {
        let model_keys = self.per_model.keys();
        let ghost models = views::of(model_keys@);
        let mut per_model: Vec<ModelTotals> = Vec::new();
        for i in 0..model_keys.len()
            invariant
                models == views::of(model_keys@),
                table::keys_of(self.per_model@, models),
                per_model@.len() == i,
                forall|j: int| 0 <= j < i ==> (#[trigger] per_model@[j])@ == self.per_model@[models[j]],
        {
            assert(models[i as int] == model_keys@[i as int]@);
            assert(self.per_model@.contains_key(models[i as int]));
            if let Some(t) = self.per_model.get(model_keys[i].as_str()) {
                per_model.push(t.clone());
            }
        }
        let kind_keys = self.per_kind.keys();
        let ghost kinds = views::of(kind_keys@);
        let mut per_kind: Vec<KindTotals> = Vec::new();
        for i in 0..kind_keys.len()
            invariant
                kinds == views::of(kind_keys@),
                table::keys_of(self.per_kind@, kinds),
                per_kind@.len() == i,
                forall|j: int| 0 <= j < i ==> (#[trigger] per_kind@[j])@ == self.per_kind@[kinds[j]],
        {
            assert(kinds[i as int] == kind_keys@[i as int]@);
            assert(self.per_kind@.contains_key(kinds[i as int]));
            if let Some(t) = self.per_kind.get(kind_keys[i].as_str()) {
                per_kind.push(t.clone());
            }
        }
        proof {
            assert(listed_as(self.per_model@, models, views::of(per_model@)));
            assert(listed_as(self.per_kind@, kinds, views::of(per_kind@)));
        }
        StatsSummary {
            since: self.since,
            requests: self.requests,
            failures: self.failures,
            input_tokens: self.input_tokens,
            output_tokens: self.output_tokens,
            per_model,
            per_kind,
        }
    }

    /// Forget everything, at `now`.
    pub fn clear_at(&mut self, now: i64)
        ensures
            final(self)@ == (StatsV { limit: old(self)@.limit, ..StatsV::fresh(0, now) }),
    {
        self.records = VecDeque::new();
        self.per_model = Table::new();
        self.per_kind = Table::new();
        self.requests = 0;
        self.failures = 0;
        self.input_tokens = 0;
        self.output_tokens = 0;
        self.since = now;
    }

    pub fn clear(&mut self)
        ensures
            final(self)@ == (StatsV { limit: old(self)@.limit, ..StatsV::fresh(0, final(self)@.since) }),
    {
        self.clear_at(unix_now());
    }
}

/// Whether `items` are what a map holds under `keys`, in that order.
pub open spec fn listed_as<V>(m: Map<Seq<char>, V>, keys: Seq<Seq<char>>, items: Seq<V>) -> bool {
    &&& table::keys_of(m, keys)
    &&& items.len() == keys.len()
    &&& forall|i: int| 0 <= i < keys.len() ==> #[trigger] items[i] == m[keys[i]]
}

/// Whether `items` are the values of a map, in the order of their keys.
pub open spec fn listed_in_order<V>(m: Map<Seq<char>, V>, items: Seq<V>) -> bool {
    exists|keys: Seq<Seq<char>>| #[trigger] listed_as(m, keys, items)
}

impl Default for Stats {
    fn default() -> (r: Self)
        ensures
            r@ == StatsV::fresh(500, r@.since),
    {
        Stats::new(500)
    }
}

// ------------------------------------------------------------------- records

/// Accumulates the facts about one in-flight request.
#[derive(Debug)]
pub struct RecordBuilder {
    record: RequestRecord,
}

impl View for RecordBuilder {
    type V = RecordV;

    closed spec fn view(&self) -> RecordV {
        self.record@
    }
}

impl RecordV {
    /// A request that has just arrived.
    pub open spec fn arrived(id: Seq<char>, at: i64, ingress: Dialect, requested_model: Seq<char>, stream: bool) -> RecordV {
        RecordV {
            id,
            at,
            ingress,
            kind: RequestKind::Main,
            requested_model,
            resolved_model: None,
            provider_name: None,
            stream,
            status: 200,
            ok: true,
            error: None,
            latency_ms: 0,
            ttft_ms: None,
            usage: crate::ir::no_usage(),
            attempts: 0,
            routing_decision: None,
        }
    }

    pub open spec fn resolved(self, model_id: Seq<char>, provider_name: Seq<char>) -> RecordV {
        RecordV { resolved_model: Some(model_id), provider_name: Some(provider_name), ..self }
    }

    pub open spec fn attempted(self) -> RecordV {
        RecordV { attempts: (self.attempts + 1) as u32, ..self }
    }

    /// The first of the times to the first token counts.
    pub open spec fn first_token(self, ms: u64) -> RecordV {
        RecordV {
            ttft_ms: match self.ttft_ms {
                Some(t) => Some(t),
                None => Some(ms),
            },
            ..self
        }
    }

    pub open spec fn succeeded(self) -> RecordV {
        RecordV { ok: true, status: 200, error: None, ..self }
    }

    pub open spec fn failed(self, status: u16, error: Seq<char>) -> RecordV {
        RecordV { ok: false, status, error: Some(redacted(error)), ..self }
    }

    pub open spec fn finished(self, latency_ms: u64) -> RecordV {
        RecordV { latency_ms, ..self }
    }
}

impl RecordBuilder {
    /// A request with that id that arrived at `at`.
    pub fn starting(id: String, at: i64, ingress: Dialect, requested_model: &str, stream: bool) -> (r: RecordBuilder)
        ensures
            r@ == RecordV::arrived(id@, at, ingress, requested_model@, stream),
    {
        RecordBuilder {
            record: RequestRecord {
                id,
                at,
                ingress,
                kind: RequestKind::Main,
                requested_model: requested_model.to_owned(),
                resolved_model: None,
                provider_name: None,
                stream,
                status: 200,
                ok: true,
                error: None,
                latency_ms: 0,
                ttft_ms: None,
                usage: Usage::default(),
                attempts: 0,
                routing_decision: None,
            },
        }
    }

    /// A request that arrives now, under a fresh id.
    pub fn new(ingress: Dialect, requested_model: &str, stream: bool) -> (r: RecordBuilder)
        ensures
            r@ == RecordV::arrived(r@.id, r@.at, ingress, requested_model@, stream),
            draw::is_fresh_id(r@.id, "req_"@),
    {
        RecordBuilder::starting(fresh_id("req_"), unix_now(), ingress, requested_model, stream)
    }

    /// Stamp the request's kind. Set once, before the record is finished.
    pub fn kind(&mut self, kind: RequestKind) -> (r: &mut Self)
        ensures
            r@ == (RecordV { kind, ..old(self)@ }),
            *final(self) == *final(r),
    {
        self.record.kind = kind;
        self
    }

    pub fn id(&self) -> (r: &str)
        ensures
            r@ == self@.id,
    {
        self.record.id.as_str()
    }

    pub fn requested_model(&self) -> (r: &str)
        ensures
            r@ == self@.requested_model,
    {
        self.record.requested_model.as_str()
    }

    pub fn resolved(&mut self, model_id: &str, provider_name: &str) -> (r: &mut Self)
        ensures
            r@ == old(self)@.resolved(model_id@, provider_name@),
            *final(self) == *final(r),
    {
        self.record.resolved_model = Some(model_id.to_owned());
        self.record.provider_name = Some(provider_name.to_owned());
        self
    }

    pub fn attempt(&mut self) -> (r: &mut Self)
        requires
            old(self)@.attempts < u32::MAX,
        ensures
            r@ == old(self)@.attempted(),
            *final(self) == *final(r),
    {
        self.record.attempts = self.record.attempts + 1;
        self
    }

    pub fn usage(&mut self, usage: Usage) -> (r: &mut Self)
        ensures
            r@ == (RecordV { usage, ..old(self)@ }),
            *final(self) == *final(r),
    {
        self.record.usage = usage;
        self
    }

    pub fn ttft(&mut self, ms: u64) -> (r: &mut Self)
        ensures
            r@ == old(self)@.first_token(ms),
            *final(self) == *final(r),
    {
        if self.record.ttft_ms.is_none() {
            self.record.ttft_ms = Some(ms);
        }
        self
    }

    pub fn ok(&mut self) -> (r: &mut Self)
        ensures
            r@ == old(self)@.succeeded(),
            *final(self) == *final(r),
    {
        self.record.ok = true;
        self.record.status = 200;
        self.record.error = None;
        self
    }

    /// Record the failure message shown in Activity.
    ///
    /// Callers pass `Error::to_string()`, which for upstream failures embeds
    /// the provider's response body — the same internal-page leak `to_wire`
    /// guards against. Redact here so every failure path is covered at once.
    pub fn fail(&mut self, status: u16, error: String) -> (r: &mut Self)
        ensures
            r@ == old(self)@.failed(status, error@),
            *final(self) == *final(r),
    {
        self.record.ok = false;
        self.record.status = status;
        self.record.error = Some(redact_upstream_body(error.as_str()));
        self
    }

    pub fn finish(self, latency_ms: u64) -> (r: RequestRecord)
        ensures
            r@ == self@.finished(latency_ms),
    {
        let mut record = self.record;
        record.latency_ms = latency_ms;
        record
    }

    /// Attach a routing decision trace for diagnostics.
    pub fn routing_decision(&mut self, decision: String) -> (r: &mut Self)
        ensures
            r@ == (RecordV { routing_decision: Some(decision@), ..old(self)@ }),
            *final(self) == *final(r),
    {
        self.record.routing_decision = Some(decision);
        self
    }
}

pub open spec fn is_digit(c: char) -> bool {
    '0' as int <= c as int <= '9' as int
}

/// Where the first number behind the word `returned` begins, looking from `i` on; `-1`
/// where there is none.
pub open spec fn status_at(error: Seq<char>, i: int) -> int
    decreases error.len() - i,
{
    let n = i + "returned "@.len();
    if i < 0 || n < i || n >= error.len() {
        -1
    } else if error.subrange(i, n) == "returned "@ && is_digit(error[n]) {
        n
    } else {
        status_at(error, i + 1)
    }
}

/// Where the digits that begin at `i` end.
pub open spec fn digits_end(error: Seq<char>, i: int) -> int
    decreases error.len() - i,
{
    if 0 <= i < error.len() && is_digit(error[i]) {
        digits_end(error, i + 1)
    } else {
        i
    }
}

/// An error message without the upstream response body that it quotes: an upstream
/// error that names a status ends with it.
pub open spec fn redacted(error: Seq<char>) -> Seq<char> {
    let status = status_at(error, 0);
    if "upstream "@.is_prefix_of(error) && status >= 0 {
        error.take(digits_end(error, status))
    } else {
        error
    }
}

/// Strip an upstream response body out of an error string.
///
/// Error strings look like `upstream Xiaomi MiMo returned 404: <html>...`; the
/// provider's page after the status can be HTML with server fingerprints and
/// internal URLs. Keep the prefix — provider and status are the useful part —
/// and drop everything after the status code that introduces the body.
pub fn redact_upstream_body(error: &str) -> (r: String)
    ensures
        r@ == redacted(error@),
{
    // Only the body of upstream errors is redacted, not colons in arbitrary
    // messages.
    if strip_prefix(error, "upstream ").is_none() {
        return error.to_owned();
    }
    let chars = chars_of(error);
    let word = chars_of("returned ");
    proof {
        reveal_strlit("returned ");
    }
    let mut i: usize = 0;
    while i < chars.len() && word.len() < chars.len() - i
        invariant
            chars@ == error@,
            word@ == "returned "@,
            0 <= i <= chars@.len(),
            "upstream "@.is_prefix_of(error@),
            status_at(error@, 0) == status_at(error@, i as int),
        decreases chars@.len() - i,
    {
        let mut k: usize = 0;
        while k < word.len() && chars[i + k] == word[k]
            invariant
                i + word@.len() < chars@.len() <= usize::MAX,
                0 <= k <= word@.len(),
                forall|j: int| 0 <= j < k ==> chars@[i + j] == word@[j],
            decreases word@.len() - k,
        {
            k += 1;
        }
        let ghost n = i + word@.len();
        proof {
            let here = error@.subrange(i as int, n);
            if k == word@.len() {
                assert(here =~= word@);
            } else {
                assert(here[k as int] != word@[k as int]);
            }
        }
        if k == word.len() {
            let at = i + word.len();
            if '0' <= chars[at] && chars[at] <= '9' {
                let mut end = at;
                while end < chars.len() && '0' <= chars[end] && chars[end] <= '9'
                    invariant
                        chars@ == error@,
                        at <= end <= chars@.len(),
                        digits_end(error@, at as int) == digits_end(error@, end as int),
                    decreases chars@.len() - end,
                {
                    end += 1;
                }
                let out = string_of(&chars, 0, end);
                assert(error@.subrange(0, end as int) =~= error@.take(end as int));
                return out;
            }
        }
        i += 1;
    }
    error.to_owned()
}

// ---------------------------------------------------------------------- laws

/// The log is bounded: it never holds more than its limit, and the newest record is
/// always in it, first when the most recent are asked for.
pub proof fn log_is_bounded(s: StatsV, r: RecordV)
    requires
        s.limit >= 1,
    ensures
        s.recorded(r).records.len() <= s.limit,
        s.recorded(r).records.last() == r,
        last_of(s.recorded(r).records, 1).reverse() == Seq::empty().push(r),
        s.recorded(r).limit == s.limit,
{
    assert(last_of(s.recorded(r).records, 1).reverse() =~= Seq::empty().push(r));
}

/// A record counts once: in total, for one model and for one kind. No other model
/// and no other kind changes, though the log forgets.
pub proof fn records_count_once(s: StatsV, r: RecordV, model: Seq<char>, kind: Seq<char>)
    requires
        s.has_room(r),
    ensures
        s.recorded(r).requests == s.requests + 1,
        s.recorded(r).model(booked_under(r)).requests == s.model(booked_under(r)).requests + 1,
        s.recorded(r).kind(query::kind_name(r.kind)).requests == s.kind(query::kind_name(r.kind)).requests + 1,
        model != booked_under(r) ==> s.recorded(r).model(model) == s.model(model),
        kind != query::kind_name(r.kind) ==> s.recorded(r).kind(kind) == s.kind(kind),
{
}

/// Redaction only ever cuts the end off, and never twice.
pub proof fn redaction_cuts(error: Seq<char>)
    ensures
        redacted(error).is_prefix_of(error),
        redacted(redacted(error)) == redacted(error),
{
    reveal_strlit("returned ");
    reveal_strlit("upstream ");
    let status = status_at(error, 0);
    if "upstream "@.is_prefix_of(error) && status >= 0 {
        status_is_a_number(error, 0);
        digits_run(error, status);
        let end = digits_end(error, status);
        let kept = error.take(end);
        assert(error.take(kept.len() as int) =~= kept);
        assert("upstream "@.is_prefix_of(kept)) by {
            assert(error.subrange(0, 9) =~= "upstream "@);
            assert(kept.subrange(0, 9) =~= "upstream "@);
        }
        status_stays(error, end, 0);
        digits_stay(error, end, status);
        assert(kept.take(end) =~= kept);
    } else {
        assert(error.take(error.len() as int) =~= error);
    }
}

/// What `status_at` finds is a number behind the word.
proof fn status_is_a_number(s: Seq<char>, i: int)
    requires
        0 <= i,
    ensures
        status_at(s, i) >= 0 ==> i + 9 <= status_at(s, i) < s.len() && is_digit(s[status_at(s, i)]) && s.subrange(
            status_at(s, i) - 9,
            status_at(s, i),
        ) == "returned "@,
    decreases s.len() - i,
{
    reveal_strlit("returned ");
    if i + 9 < s.len() && !(s.subrange(i, i + 9) == "returned "@ && is_digit(s[i + 9])) {
        status_is_a_number(s, i + 1);
    }
}

proof fn digits_run(s: Seq<char>, i: int)
    requires
        0 <= i < s.len(),
        is_digit(s[i]),
    ensures
        i < digits_end(s, i) <= s.len(),
    decreases s.len() - i,
{
    reveal_with_fuel(digits_end, 2);
    if i + 1 < s.len() && is_digit(s[i + 1]) {
        digits_run(s, i + 1);
    }
}

/// A text that is cut behind the number still shows it at the same place.
proof fn status_stays(s: Seq<char>, end: int, i: int)
    requires
        0 <= i,
        0 <= status_at(s, i) < end <= s.len(),
    ensures
        status_at(s.take(end), i) == status_at(s, i),
    decreases s.len() - i,
{
    reveal_strlit("returned ");
    status_is_a_number(s, i);
    let kept = s.take(end);
    assert(kept.subrange(i, i + 9) =~= s.subrange(i, i + 9));
    if !(s.subrange(i, i + 9) == "returned "@ && is_digit(s[i + 9])) {
        status_stays(s, end, i + 1);
    }
}

proof fn digits_stay(s: Seq<char>, end: int, i: int)
    requires
        0 <= i <= end,
        end <= s.len(),
        digits_end(s, i) == end,
    ensures
        digits_end(s.take(end), i) == end,
    decreases end - i,
{
    if i < end {
        digits_stay(s, end, i + 1);
    }
}

// --------------------------------------------------------- laws of many records

/// After a number of records.
pub open spec fn after(s: StatsV, rs: Seq<RecordV>) -> StatsV
    decreases rs.len(),
{
    if rs.len() == 0 {
        s
    } else {
        after(s, rs.drop_last()).recorded(rs.last())
    }
}

/// Whether every counter has room for each of the records when it comes.
pub open spec fn all_fit(s: StatsV, rs: Seq<RecordV>) -> bool
    decreases rs.len(),
{
    rs.len() == 0 || (all_fit(s, rs.drop_last()) && after(s, rs.drop_last()).has_room(rs.last()))
}

/// A figure of each item, added up.
pub open spec fn sum<V>(items: Seq<V>, f: spec_fn(V) -> int) -> int
    decreases items.len(),
{
    if items.len() == 0 {
        0
    } else {
        sum(items.drop_last(), f) + f(items.last())
    }
}

/// The smaller of two.
pub open spec fn at_most(a: int, b: int) -> int {
    if a < b {
        a
    } else {
        b
    }
}

/// The log holds the newest records, as many as its limit allows: when the `k` most
/// recent are asked for, they come newest first, as many as there are.
pub proof fn the_newest_are_kept(limit: usize, now: i64, rs: Seq<RecordV>, k: int)
    requires
        k >= 0,
    ensures
        ({
            let l = at_least_one(limit) as int;
            let recent = last_of(after(StatsV::fresh(limit, now), rs).records, k).reverse();
            &&& recent.len() == at_most(k, at_most(l, rs.len() as int))
            &&& forall|i: int| 0 <= i < recent.len() ==> #[trigger] recent[i] == rs[rs.len() - 1 - i]
        }),
{
    log_is_the_end(limit, now, rs);
}

proof fn log_is_the_end(limit: usize, now: i64, rs: Seq<RecordV>)
    ensures
        after(StatsV::fresh(limit, now), rs).records == last_of(rs, at_least_one(limit) as int),
        after(StatsV::fresh(limit, now), rs).limit == at_least_one(limit),
    decreases rs.len(),
{
    let l = at_least_one(limit) as int;
    if rs.len() > 0 {
        let most = rs.drop_last();
        log_is_the_end(limit, now, most);
        assert(most.push(rs.last()) =~= rs);
        assert(last_of(last_of(most, l).push(rs.last()), l) =~= last_of(rs, l));
    } else {
        assert(last_of(rs, l) =~= Seq::empty());
    }
}

proof fn sum_with_another<V>(items: Seq<V>, f: spec_fn(V) -> int, p: int, x: V)
    requires
        0 <= p < items.len(),
    ensures
        sum(items.update(p, x), f) == sum(items, f) - f(items[p]) + f(x),
    decreases items.len(),
{
    let other = items.update(p, x);
    if p == items.len() - 1 {
        assert(other.drop_last() =~= items.drop_last());
    } else {
        sum_with_another(items.drop_last(), f, p, x);
        assert(other.drop_last() =~= items.drop_last().update(p, x));
    }
}

proof fn sum_without_one<V>(items: Seq<V>, f: spec_fn(V) -> int, p: int)
    requires
        0 <= p < items.len(),
    ensures
        sum(items.remove(p), f) == sum(items, f) - f(items[p]),
    decreases items.len(),
{
    let less = items.remove(p);
    if p == items.len() - 1 {
        assert(less =~= items.drop_last());
    } else {
        sum_without_one(items.drop_last(), f, p);
        assert(less.drop_last() =~= items.drop_last().remove(p));
        assert(less.last() == items.last());
    }
}

/// What a map holds, listed before one of its values was set.
proof fn listing_before<V>(m: Map<Seq<char>, V>, k: Seq<char>, v: V, keys: Seq<Seq<char>>, items: Seq<V>, f: spec_fn(
    V,
) -> int) -> (r: (Seq<Seq<char>>, Seq<V>))
    requires
        listed_as(m.insert(k, v), keys, items),
    ensures
        listed_as(m, r.0, r.1),
        sum(items, f) == sum(r.1, f) + f(v) - if m.contains_key(k) {
            f(m[k])
        } else {
            0
        },
{
    let all = m.insert(k, v);
    assert(all.contains_key(k));
    assert(keys.contains(k));
    let p = choose|p: int| 0 <= p < keys.len() && keys[p] == k;
    assert(items[p] == all[keys[p]]);
    text::texts_are_ordered(k, k, k);
    assert forall|i: int| 0 <= i < keys.len() && i != p implies #[trigger] keys[i] != k by {
        if i < p {
            assert(text::before(keys[i], keys[p]));
        } else {
            assert(text::before(keys[p], keys[i]));
        }
    }
    if m.contains_key(k) {
        let before = items.update(p, m[k]);
        sum_with_another(items, f, p, m[k]);
        assert forall|i: int| 0 <= i < keys.len() implies #[trigger] before[i] == m[keys[i]] by {
            assert(items[i] == all[keys[i]]);
        }
        assert(table::keys_of(m, keys)) by {
            assert(m.dom() =~= all.dom());
        }
        (keys, before)
    } else {
        let less = keys.remove(p);
        let before = items.remove(p);
        sum_without_one(items, f, p);
        assert forall|i: int| 0 <= i < less.len() implies #[trigger] before[i] == m[less[i]] by {
            let j = if i < p {
                i
            } else {
                i + 1
            };
            assert(less[i] == keys[j] && before[i] == items[j]);
            assert(items[j] == all[keys[j]]);
        }
        keys_without_one(m, k, v, keys, p);
        (less, before)
    }
}

proof fn keys_without_one<V>(m: Map<Seq<char>, V>, k: Seq<char>, v: V, keys: Seq<Seq<char>>, p: int)
    requires
        table::keys_of(m.insert(k, v), keys),
        !m.contains_key(k),
        0 <= p < keys.len(),
        keys[p] == k,
    ensures
        table::keys_of(m, keys.remove(p)),
{
    let less = keys.remove(p);
    let all = m.insert(k, v);
    assert forall|i: int, j: int| 0 <= i < j < less.len() implies text::before(
        #[trigger] less[i],
        #[trigger] less[j],
    ) by {
        let a = if i < p {
            i
        } else {
            i + 1
        };
        let b = if j < p {
            j
        } else {
            j + 1
        };
        assert(less[i] == keys[a] && less[j] == keys[b]);
    }
    assert forall|i: int| 0 <= i < less.len() implies m.contains_key(#[trigger] less[i]) by {
        let a = if i < p {
            i
        } else {
            i + 1
        };
        assert(less[i] == keys[a]);
        assert(all.contains_key(keys[a]));
        text::texts_are_ordered(k, k, k);
        if a < p {
            assert(text::before(keys[a], keys[p]));
        } else {
            assert(text::before(keys[p], keys[a]));
        }
    }
    assert forall|x: Seq<char>| m.contains_key(x) implies less.contains(x) by {
        assert(all.contains_key(x));
        assert(keys.contains(x));
        let a = choose|a: int| 0 <= a < keys.len() && keys[a] == x;
        let i = if a < p {
            a
        } else {
            a - 1
        };
        assert(less[i] == x);
    }
}

proof fn models_add_up(
    start: StatsV,
    rs: Seq<RecordV>,
    keys: Seq<Seq<char>>,
    items: Seq<ModelTotalsV>,
    f: spec_fn(ModelTotalsV) -> int,
    d: spec_fn(RecordV) -> int,
)
    requires
        start.per_model == Map::<Seq<char>, ModelTotalsV>::empty(),
        all_fit(start, rs),
        listed_as(after(start, rs).per_model, keys, items),
        forall|t: ModelTotalsV, r: RecordV| t.has_room(r) ==> f(#[trigger] t.observed(r)) == f(t) + d(r),
        forall|id: Seq<char>| f(#[trigger] ModelTotalsV::fresh(id)) == 0,
    ensures
        sum(items, f) == sum(rs, d),
    decreases rs.len(),
{
    if rs.len() > 0 {
        let s = after(start, rs.drop_last());
        let r = rs.last();
        let k = booked_under(r);
        let before = listing_before(s.per_model, k, s.model(k).observed(r), keys, items, f);
        models_add_up(start, rs.drop_last(), before.0, before.1, f, d);
        assert(s.model(k).has_room(r));
        assert(f(s.model(k).observed(r)) == f(s.model(k)) + d(r));
        assert(f(ModelTotalsV::fresh(k)) == 0);
    } else if keys.len() > 0 {
        assert(start.per_model.contains_key(keys[0]));
    }
}

proof fn kinds_add_up(
    start: StatsV,
    rs: Seq<RecordV>,
    keys: Seq<Seq<char>>,
    items: Seq<KindTotalsV>,
    f: spec_fn(KindTotalsV) -> int,
    d: spec_fn(RecordV) -> int,
)
    requires
        start.per_kind == Map::<Seq<char>, KindTotalsV>::empty(),
        all_fit(start, rs),
        listed_as(after(start, rs).per_kind, keys, items),
        forall|t: KindTotalsV, r: RecordV| t.has_room(r) ==> f(#[trigger] t.observed(r)) == f(t) + d(r),
        forall|kind: Seq<char>| f(#[trigger] KindTotalsV::fresh(kind)) == 0,
    ensures
        sum(items, f) == sum(rs, d),
    decreases rs.len(),
{
    if rs.len() > 0 {
        let s = after(start, rs.drop_last());
        let r = rs.last();
        let k = query::kind_name(r.kind);
        let before = listing_before(s.per_kind, k, s.kind(k).observed(r), keys, items, f);
        kinds_add_up(start, rs.drop_last(), before.0, before.1, f, d);
        assert(s.kind(k).has_room(r));
        assert(f(s.kind(k).observed(r)) == f(s.kind(k)) + d(r));
        assert(f(KindTotalsV::fresh(k)) == 0);
    } else if keys.len() > 0 {
        assert(start.per_kind.contains_key(keys[0]));
    }
}

/// How many of the records failed.
pub open spec fn failed_of(rs: Seq<RecordV>) -> int {
    sum(
        rs,
        |r: RecordV|
            if r.ok {
                0int
            } else {
                1int
            },
    )
}

/// The tokens that went in, over all records.
pub open spec fn input_of(rs: Seq<RecordV>) -> int {
    sum(rs, |r: RecordV| r.usage.input_tokens as int)
}

/// The tokens that came out, over all records.
pub open spec fn output_of(rs: Seq<RecordV>) -> int {
    sum(rs, |r: RecordV| r.usage.output_tokens as int)
}

proof fn ones_count(rs: Seq<RecordV>)
    ensures
        sum(rs, |r: RecordV| 1int) == rs.len(),
    decreases rs.len(),
{
    if rs.len() > 0 {
        ones_count(rs.drop_last());
    }
}

/// The counters count every record ever made, whatever the log has forgotten.
pub proof fn every_record_counts(limit: usize, now: i64, rs: Seq<RecordV>)
    requires
        all_fit(StatsV::fresh(limit, now), rs),
    ensures
        after(StatsV::fresh(limit, now), rs).requests == rs.len(),
        after(StatsV::fresh(limit, now), rs).failures == failed_of(rs),
        after(StatsV::fresh(limit, now), rs).input_tokens == input_of(rs),
        after(StatsV::fresh(limit, now), rs).output_tokens == output_of(rs),
    decreases rs.len(),
{
    if rs.len() > 0 {
        every_record_counts(limit, now, rs.drop_last());
    }
}

/// The counters per model add up to the totals, and so do those per kind: `models` and
/// `kinds` are the rows of the summary.
pub proof fn rows_add_up(
    limit: usize,
    now: i64,
    rs: Seq<RecordV>,
    models: Seq<ModelTotalsV>,
    kinds: Seq<KindTotalsV>,
)
    requires
        all_fit(StatsV::fresh(limit, now), rs),
        listed_in_order(after(StatsV::fresh(limit, now), rs).per_model, models),
        listed_in_order(after(StatsV::fresh(limit, now), rs).per_kind, kinds),
    ensures
        ({
            let s = after(StatsV::fresh(limit, now), rs);
            &&& sum(models, |t: ModelTotalsV| t.requests as int) == s.requests
            &&& sum(models, |t: ModelTotalsV| t.failures as int) == s.failures
            &&& sum(models, |t: ModelTotalsV| t.input_tokens as int) == s.input_tokens
            &&& sum(models, |t: ModelTotalsV| t.output_tokens as int) == s.output_tokens
            &&& sum(kinds, |t: KindTotalsV| t.requests as int) == s.requests
            &&& sum(kinds, |t: KindTotalsV| t.failures as int) == s.failures
            &&& sum(kinds, |t: KindTotalsV| t.input_tokens as int) == s.input_tokens
            &&& sum(kinds, |t: KindTotalsV| t.output_tokens as int) == s.output_tokens
        }),
{
    let start = StatsV::fresh(limit, now);
    let s = after(start, rs);
    every_record_counts(limit, now, rs);
    ones_count(rs);
    let mk = choose|keys: Seq<Seq<char>>| #[trigger] listed_as(s.per_model, keys, models);
    let kk = choose|keys: Seq<Seq<char>>| #[trigger] listed_as(s.per_kind, keys, kinds);
    let one = |r: RecordV| 1int;
    let bad = |r: RecordV|
        if r.ok {
            0int
        } else {
            1int
        };
    let put_in = |r: RecordV| r.usage.input_tokens as int;
    let put_out = |r: RecordV| r.usage.output_tokens as int;
    models_add_up(start, rs, mk, models, |t: ModelTotalsV| t.requests as int, one);
    models_add_up(start, rs, mk, models, |t: ModelTotalsV| t.failures as int, bad);
    models_add_up(start, rs, mk, models, |t: ModelTotalsV| t.input_tokens as int, put_in);
    models_add_up(start, rs, mk, models, |t: ModelTotalsV| t.output_tokens as int, put_out);
    kinds_add_up(start, rs, kk, kinds, |t: KindTotalsV| t.requests as int, one);
    kinds_add_up(start, rs, kk, kinds, |t: KindTotalsV| t.failures as int, bad);
    kinds_add_up(start, rs, kk, kinds, |t: KindTotalsV| t.input_tokens as int, put_in);
    kinds_add_up(start, rs, kk, kinds, |t: KindTotalsV| t.output_tokens as int, put_out);
}

} // verus!
