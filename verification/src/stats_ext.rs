//! Runtime statistics for provider+model pairs.
//!
//! Unlike [`crate::stats`] (the bounded request log for the GUI), this module
//! maintains *streaming* statistics that accumulate over the lifetime of the
//! process: sorted-ring-buffer percentile estimators, and failure counts broken
//! down by [`FailureClass`]. Samples are whole numbers.

use crate::sorting;
use crate::sorting::{sort, Ranked};
use crate::table::Table;
use crate::views;
use vstd::prelude::*;

verus! {

broadcast use crate::views::group_views;

// -----------------------------------------------------------------------
// PercentileEstimator
// -----------------------------------------------------------------------

/// Streaming percentile estimator using a sorted ring buffer.
///
/// Good enough for routing decisions -- not a statistical library.
#[derive(Debug)]
pub struct PercentileEstimator {
    /// Sorted samples (ring buffer, max capacity).
    samples: Vec<u64>,
    capacity: usize,
    /// Total number of observations ever recorded (including evicted ones).
    total_count: u64,
}

pub struct EstimatorV {
    pub samples: Seq<u64>,
    pub capacity: usize,
    pub total_count: u64,
}

impl View for PercentileEstimator {
    type V = EstimatorV;

    closed spec fn view(&self) -> EstimatorV {
        EstimatorV { samples: self.samples@, capacity: self.capacity, total_count: self.total_count }
    }
}

/// Whether samples stand in order.
pub open spec fn in_order(s: Seq<u64>) -> bool {
    forall|i: int, j: int| 0 <= i < j < s.len() ==> s[i] <= s[j]
}

impl PercentileEstimator {
    #[verifier::type_invariant]
    spec fn well_formed(self) -> bool {
        in_order(self.samples@) && self.samples@.len() <= self.capacity
    }
}

impl Ranked for u64 {
    open spec fn before(a: u64, b: u64) -> bool {
        a < b
    }

    fn comes_before(&self, other: &Self) -> (r: bool) {
        *self < *other
    }
}

/// The first position from `i` on whose sample is not below a value.
pub open spec fn rank_from(s: Seq<u64>, value: u64, i: int) -> int
    decreases s.len() - i,
{
    if i < 0 || i >= s.len() {
        s.len() as int
    } else if s[i] >= value {
        i
    } else {
        rank_from(s, value, i + 1)
    }
}

impl EstimatorV {
    pub open spec fn fresh(capacity: usize) -> EstimatorV {
        EstimatorV { samples: Seq::empty(), capacity, total_count: 0 }
    }

    /// After one more sample. It is added while there is room; then it takes the
    /// place that the count of all samples points at.
    pub open spec fn recorded(self, value: u64) -> EstimatorV {
        let count = (self.total_count + 1) as u64;
        EstimatorV {
            samples: if self.samples.len() < self.capacity {
                self.samples.insert(rank_from(self.samples, value, 0), value)
            } else {
                sorting::sorted::<u64>(
                    self.samples.update((count as usize) as int % self.capacity as int, value),
                )
            },
            total_count: count,
            ..self
        }
    }

    /// Where a percentile stands: at that part of the way from the first sample to
    /// the last, to the nearest place, halves up.
    pub open spec fn place_of(self, percent: u8) -> int {
        (percent * (self.samples.len() - 1) * 2 + 100) / 200
    }

    pub open spec fn percentile(self, percent: u8) -> Option<u64> {
        if self.samples.len() > 0 && self.place_of(percent) < self.samples.len() {
            Some(self.samples[self.place_of(percent)])
        } else {
            None
        }
    }

    pub open spec fn least(self) -> Option<u64> {
        if self.samples.len() > 0 {
            Some(self.samples[0])
        } else {
            None
        }
    }

    pub open spec fn greatest(self) -> Option<u64> {
        if self.samples.len() > 0 {
            Some(self.samples.last())
        } else {
            None
        }
    }
}

proof fn rank_is_inside(s: Seq<u64>, value: u64, i: int)
    requires
        0 <= i <= s.len(),
    ensures
        i <= rank_from(s, value, i) <= s.len(),
        forall|j: int| i <= j < rank_from(s, value, i) ==> s[j] < value,
        rank_from(s, value, i) < s.len() ==> s[rank_from(s, value, i)] >= value,
    decreases s.len() - i,
{
    if i < s.len() && s[i] < value {
        rank_is_inside(s, value, i + 1);
    }
}

/// The samples stay in order and within the capacity, whatever is recorded.
pub proof fn samples_stay_in_order(e: EstimatorV, value: u64)
    requires
        in_order(e.samples),
        e.samples.len() <= e.capacity,
        e.capacity > 0,
    ensures
        in_order(e.recorded(value).samples),
        e.recorded(value).samples.len() <= e.capacity,
        e.samples.len() <= e.recorded(value).samples.len(),
{
    if e.samples.len() < e.capacity {
        rank_is_inside(e.samples, value, 0);
    } else {
        let count = (e.total_count + 1) as u64;
        let s = e.samples.update((count as usize) as int % e.capacity as int, value);
        sorting::sorting_keeps_items::<u64>(s);
        sorting::sorting_orders::<u64>(s);
        let r = sorting::sorted::<u64>(s);
        assert forall|i: int, j: int| 0 <= i < j < r.len() implies r[i] <= r[j] by {
            assert(!u64::before(r[j], r[i]));
        }
    }
}

/// The least and the greatest sample bound every sample that is kept.
pub proof fn extremes_bound_the_samples(e: EstimatorV, i: int)
    requires
        in_order(e.samples),
        0 <= i < e.samples.len(),
    ensures
        e.least()->0 <= e.samples[i] <= e.greatest()->0,
{
}

impl PercentileEstimator {
    pub fn new(capacity: usize) -> (r: PercentileEstimator)
        ensures
            r@ == EstimatorV::fresh(capacity),
    {
        PercentileEstimator { samples: Vec::new(), capacity, total_count: 0 }
    }

    /// Record a new sample.
    pub fn record(&mut self, value: u64)
        requires
            old(self)@.capacity > 0,
            old(self)@.total_count < u64::MAX,
        ensures
            final(self)@ == old(self)@.recorded(value),
    {
        proof {
            use_type_invariant(&*self);
            samples_stay_in_order(self@, value);
        }
        let ghost before = self@;
        let mut samples: Vec<u64> = Vec::new();
        std::mem::swap(&mut samples, &mut self.samples);
        self.total_count = self.total_count + 1;
        if samples.len() < self.capacity {
            // Insert in sorted order
            let mut pos: usize = 0;
            while pos < samples.len() && samples[pos] < value
                invariant
                    pos <= samples@.len(),
                    rank_from(samples@, value, 0) == rank_from(samples@, value, pos as int),
                decreases samples@.len() - pos,
            {
                pos = pos + 1;
            }
            samples.insert(pos, value);
        } else {
            // Replace oldest (simple: replace a rotating position).
            // For routing purposes, this is good enough.
            let pos = (self.total_count as usize) % self.capacity;
            samples.set(pos, value);
            let ghost replaced = samples@;
            assert(views::of(samples@) =~= samples@);
            samples = sort(samples);
            assert(views::of(samples@) =~= samples@);
        }
        self.samples = samples;
    }

    pub fn sample_count(&self) -> (r: u64)
        ensures
            r == self@.total_count,
    {
        self.total_count
    }

    pub fn len(&self) -> (r: usize)
        ensures
            r == self@.samples.len(),
    {
        self.samples.len()
    }

    pub fn is_empty(&self) -> (r: bool)
        ensures
            r == (self@.samples.len() == 0),
    {
        self.samples.len() == 0
    }

    /// Get a percentile, in whole percents.
    pub fn percentile(&self, percent: u8) -> (r: Option<u64>)
        ensures
            r == self@.percentile(percent),
    {
        let n = self.samples.len();
        if n == 0 {
            return None;
        }
        assert(percent * (n - 1) * 2 + 100 <= 0xffff_ffff_ffff_ffff_ffff) by (nonlinear_arith)
            requires
                1 <= n <= 0xffff_ffff_ffff_ffff,
                0 <= percent <= 0xff,
        ;
        assert(0 <= percent * (n - 1)) by (nonlinear_arith)
            requires
                1 <= n,
                0 <= percent,
        ;
        let idx: u128 = (percent as u128 * (n as u128 - 1) * 2 + 100) / 200;
        if idx < n as u128 {
            Some(self.samples[idx as usize])
        } else {
            None
        }
    }

    pub fn min(&self) -> (r: Option<u64>)
        ensures
            r == self@.least(),
    {
        if self.samples.len() == 0 {
            None
        } else {
            Some(self.samples[0])
        }
    }

    pub fn max(&self) -> (r: Option<u64>)
        ensures
            r == self@.greatest(),
    {
        let n = self.samples.len();
        if n == 0 {
            None
        } else {
            Some(self.samples[n - 1])
        }
    }
}

// -----------------------------------------------------------------------
// LatencyStats
// -----------------------------------------------------------------------

impl Clone for PercentileEstimator {
    fn clone(&self) -> (r: Self)
        ensures
            r@ == self@,
    {
        proof {
            use_type_invariant(self);
        }
        let mut samples: Vec<u64> = Vec::new();
        for i in 0..self.samples.len()
            invariant
                samples@ == self.samples@.take(i as int),
        {
            samples.push(self.samples[i]);
            assert(samples@ =~= self.samples@.take(i + 1));
        }
        assert(samples@ =~= self.samples@);
        PercentileEstimator { samples, capacity: self.capacity, total_count: self.total_count }
    }
}

/// Historical latency statistics for a single metric (TTFT or total).
#[derive(Debug)]
pub struct LatencyStats {
    estimator: PercentileEstimator,
}

impl View for LatencyStats {
    type V = EstimatorV;

    closed spec fn view(&self) -> EstimatorV {
        self.estimator@
    }
}

impl LatencyStats {
    #[verifier::type_invariant]
    spec fn keeps_samples(self) -> bool {
        self.estimator@.capacity == 500
    }

    pub fn new() -> (r: LatencyStats)
        ensures
            r@ == EstimatorV::fresh(500),
    {
        LatencyStats {
            estimator: PercentileEstimator::new(500)  // keep last 500 samples
        }
    }

    pub fn record(&mut self, value: u64)
        requires
            old(self)@.total_count < u64::MAX,
        ensures
            final(self)@ == old(self)@.recorded(value),
    {
        proof {
            use_type_invariant(&*self);
        }
        let mut estimator = PercentileEstimator::new(500);
        std::mem::swap(&mut estimator, &mut self.estimator);
        estimator.record(value);
        self.estimator = estimator;
    }

    /// The median.
    pub fn p50(&self) -> (r: Option<u64>)
        ensures
            r == self@.percentile(50),
    {
        self.estimator.percentile(50)
    }

    pub fn p95(&self) -> (r: Option<u64>)
        ensures
            r == self@.percentile(95),
    {
        self.estimator.percentile(95)
    }

    pub fn min(&self) -> (r: Option<u64>)
        ensures
            r == self@.least(),
    {
        self.estimator.min()
    }

    pub fn max(&self) -> (r: Option<u64>)
        ensures
            r == self@.greatest(),
    {
        self.estimator.max()
    }

    pub fn sample_count(&self) -> (r: u64)
        ensures
            r == self@.total_count,
    {
        self.estimator.sample_count()
    }

    pub fn is_empty(&self) -> (r: bool)
        ensures
            r == (self@.samples.len() == 0),
    {
        self.estimator.is_empty()
    }
}

impl Default for LatencyStats {
    fn default() -> (r: Self)
        ensures
            r@ == EstimatorV::fresh(500),
    {
        LatencyStats::new()
    }
}

impl Clone for LatencyStats {
    fn clone(&self) -> (r: Self)
        ensures
            r@ == self@,
    {
        proof {
            use_type_invariant(self);
        }
        LatencyStats { estimator: self.estimator.clone() }
    }
}

// -----------------------------------------------------------------------
// FailureStats
// -----------------------------------------------------------------------

/// What kind of failure an attempt ended in.
#[derive(Debug, Clone, Copy, PartialEq, Eq, Hash, Structural)]
pub enum FailureClass {
    Transport,
    Timeout,
    RateLimit,
    Other,
}

/// A number for each failure class.
#[derive(Debug, Clone, Copy, PartialEq, Eq, Structural)]
pub struct ClassCounts {
    pub transport: u64,
    pub timeout: u64,
    pub rate_limit: u64,
    pub other: u64,
}

/// Failure statistics broken down by FailureClass.
#[derive(Debug, Clone, Copy, PartialEq, Eq, Structural)]
pub struct FailureStats {
    /// Total failures by class.
    pub by_class: ClassCounts,
    /// Total classified failures.
    pub total: u64,
}

impl FailureStats {
    pub open spec fn none_yet() -> FailureStats {
        FailureStats { by_class: ClassCounts { transport: 0, timeout: 0, rate_limit: 0, other: 0 }, total: 0 }
    }

    /// How many failures of a class there were.
    pub open spec fn of_class(self, class: FailureClass) -> u64 {
        match class {
            FailureClass::Transport => self.by_class.transport,
            FailureClass::Timeout => self.by_class.timeout,
            FailureClass::RateLimit => self.by_class.rate_limit,
            FailureClass::Other => self.by_class.other,
        }
    }

    /// After one more failure of a class.
    pub open spec fn recorded(self, class: FailureClass) -> FailureStats {
        let n = self.by_class;
        FailureStats {
            by_class: match class {
                FailureClass::Transport => ClassCounts { transport: (n.transport + 1) as u64, ..n },
                FailureClass::Timeout => ClassCounts { timeout: (n.timeout + 1) as u64, ..n },
                FailureClass::RateLimit => ClassCounts { rate_limit: (n.rate_limit + 1) as u64, ..n },
                FailureClass::Other => ClassCounts { other: (n.other + 1) as u64, ..n },
            },
            total: (self.total + 1) as u64,
        }
    }

    /// Whether the total is the sum over the classes.
    pub open spec fn adds_up(self) -> bool {
        self.total == self.by_class.transport + self.by_class.timeout + self.by_class.rate_limit + self.by_class.other
    }

    pub fn record(&mut self, class: FailureClass)
        requires
            old(self).of_class(class) < u64::MAX,
            old(self).total < u64::MAX,
        ensures
            *final(self) == old(self).recorded(class),
    {
        match class {
            FailureClass::Transport => {
                self.by_class.transport = self.by_class.transport + 1;
            },
            FailureClass::Timeout => {
                self.by_class.timeout = self.by_class.timeout + 1;
            },
            FailureClass::RateLimit => {
                self.by_class.rate_limit = self.by_class.rate_limit + 1;
            },
            FailureClass::Other => {
                self.by_class.other = self.by_class.other + 1;
            },
        }
        self.total = self.total + 1;
    }

    pub fn count(&self, class: FailureClass) -> (r: u64)
        ensures
            r == self.of_class(class),
    {
        match class {
            FailureClass::Transport => self.by_class.transport,
            FailureClass::Timeout => self.by_class.timeout,
            FailureClass::RateLimit => self.by_class.rate_limit,
            FailureClass::Other => self.by_class.other,
        }
    }
}

impl Default for FailureStats {
    fn default() -> (r: Self)
        ensures
            r == FailureStats::none_yet(),
    {
        FailureStats { by_class: ClassCounts { transport: 0, timeout: 0, rate_limit: 0, other: 0 }, total: 0 }
    }
}

/// A failure counts once in its class and once in total, and nowhere else.
pub proof fn failures_count_once(s: FailureStats, class: FailureClass, other: FailureClass)
    requires
        s.of_class(class) < u64::MAX,
        s.total < u64::MAX,
    ensures
        s.recorded(class).of_class(class) == s.of_class(class) + 1,
        other != class ==> s.recorded(class).of_class(other) == s.of_class(other),
        s.adds_up() ==> s.recorded(class).adds_up(),
{
}

// -----------------------------------------------------------------------
// ProviderModelStats
// -----------------------------------------------------------------------

/// Complete runtime statistics for a provider+model pair.
#[derive(Debug)]
pub struct ProviderModelStats {
    pub model_id: String,
    pub provider_id: String,
    // Request counts
    pub total_requests: u64,
    pub total_successes: u64,
    pub total_failures: u64,
    // Latency statistics
    pub ttft: LatencyStats,
    pub total_latency: LatencyStats,
    // Failure breakdown
    pub failures: FailureStats,
}

pub struct PairV {
    pub model_id: Seq<char>,
    pub provider_id: Seq<char>,
    pub total_requests: u64,
    pub total_successes: u64,
    pub total_failures: u64,
    pub ttft: EstimatorV,
    pub total_latency: EstimatorV,
    pub failures: FailureStats,
}

impl View for ProviderModelStats {
    type V = PairV;

    open spec fn view(&self) -> PairV {
        PairV {
            model_id: self.model_id@,
            provider_id: self.provider_id@,
            total_requests: self.total_requests,
            total_successes: self.total_successes,
            total_failures: self.total_failures,
            ttft: self.ttft@,
            total_latency: self.total_latency@,
            failures: self.failures,
        }
    }
}

impl PairV {
    pub open spec fn fresh(model_id: Seq<char>, provider_id: Seq<char>) -> PairV {
        PairV {
            model_id,
            provider_id,
            total_requests: 0,
            total_successes: 0,
            total_failures: 0,
            ttft: EstimatorV::fresh(500),
            total_latency: EstimatorV::fresh(500),
            failures: FailureStats::none_yet(),
        }
    }

    /// Whether every counter has room for one request more.
    pub open spec fn has_room(self) -> bool {
        &&& self.total_requests < u64::MAX
        &&& self.total_successes < u64::MAX
        &&& self.total_failures < u64::MAX
        &&& self.ttft.total_count < u64::MAX
        &&& self.total_latency.total_count < u64::MAX
        &&& self.failures.total < u64::MAX
        &&& self.failures.by_class.transport < u64::MAX
        &&& self.failures.by_class.timeout < u64::MAX
        &&& self.failures.by_class.rate_limit < u64::MAX
        &&& self.failures.by_class.other < u64::MAX
    }

    pub open spec fn succeeded(self, latency: u64, ttft: Option<u64>) -> PairV {
        PairV {
            total_requests: (self.total_requests + 1) as u64,
            total_successes: (self.total_successes + 1) as u64,
            total_latency: self.total_latency.recorded(latency),
            ttft: match ttft {
                Some(t) => self.ttft.recorded(t),
                None => self.ttft,
            },
            ..self
        }
    }

    pub open spec fn failed(self, class: FailureClass) -> PairV {
        PairV {
            total_requests: (self.total_requests + 1) as u64,
            total_failures: (self.total_failures + 1) as u64,
            failures: self.failures.recorded(class),
            ..self
        }
    }
}

impl ProviderModelStats {
    pub fn new(model_id: String, provider_id: String) -> (r: ProviderModelStats)
        ensures
            r@ == PairV::fresh(model_id@, provider_id@),
    {
        ProviderModelStats {
            model_id,
            provider_id,
            total_requests: 0,
            total_successes: 0,
            total_failures: 0,
            ttft: LatencyStats::new(),
            total_latency: LatencyStats::new(),
            failures: FailureStats::default(),
        }
    }

    /// Whether every counter has room for one request more.
    pub fn has_room(&self) -> (r: bool)
        ensures
            r == self@.has_room(),
    {
        self.total_requests < u64::MAX && self.total_successes < u64::MAX && self.total_failures < u64::MAX
            && self.ttft.sample_count() < u64::MAX && self.total_latency.sample_count() < u64::MAX
            && self.failures.total < u64::MAX && self.failures.by_class.transport < u64::MAX
            && self.failures.by_class.timeout < u64::MAX && self.failures.by_class.rate_limit < u64::MAX
            && self.failures.by_class.other < u64::MAX
    }

    pub fn record_success(&mut self, latency: u64, ttft: Option<u64>)
        requires
            old(self)@.has_room(),
        ensures
            final(self)@ == old(self)@.succeeded(latency, ttft),
    {
        self.total_requests = self.total_requests + 1;
        self.total_successes = self.total_successes + 1;
        self.total_latency.record(latency);
        if let Some(t) = ttft {
            self.ttft.record(t);
        }
    }

    pub fn record_failure(&mut self, class: FailureClass)
        requires
            old(self)@.has_room(),
        ensures
            final(self)@ == old(self)@.failed(class),
    {
        self.total_requests = self.total_requests + 1;
        self.total_failures = self.total_failures + 1;
        self.failures.record(class);
    }
}

impl Clone for ProviderModelStats {
    fn clone(&self) -> (r: Self)
        ensures
            r@ == self@,
    {
        ProviderModelStats {
            model_id: self.model_id.clone(),
            provider_id: self.provider_id.clone(),
            total_requests: self.total_requests,
            total_successes: self.total_successes,
            total_failures: self.total_failures,
            ttft: self.ttft.clone(),
            total_latency: self.total_latency.clone(),
            failures: self.failures,
        }
    }
}

// -----------------------------------------------------------------------
// StatsStore
// -----------------------------------------------------------------------

/// Stores runtime statistics for all provider+model pairs: for each provider, those
/// of its models.
#[derive(Debug)]
pub struct StatsStore {
    stats: Table<Table<ProviderModelStats>>,
}

pub type StoreMap = Map<Seq<char>, Map<Seq<char>, PairV>>;

impl View for StatsStore {
    type V = Map<Seq<char>, Map<Seq<char>, PairV>>;

    closed spec fn view(&self) -> Map<Seq<char>, Map<Seq<char>, PairV>> {
        self.stats@
    }
}

/// The statistics of a pair; as new where nothing was recorded.
pub open spec fn pair_of(m: StoreMap, model_id: Seq<char>, provider_id: Seq<char>) -> PairV {
    if m.contains_key(provider_id) && m[provider_id].contains_key(model_id) {
        m[provider_id][model_id]
    } else {
        PairV::fresh(model_id, provider_id)
    }
}

/// The store with the statistics of one pair in place of what it had.
pub open spec fn with_pair(m: StoreMap, model_id: Seq<char>, provider_id: Seq<char>, pair: PairV) -> StoreMap {
    let models = if m.contains_key(provider_id) {
        m[provider_id]
    } else {
        Map::empty()
    };
    m.insert(provider_id, models.insert(model_id, pair))
}

impl StatsStore {
    pub fn new() -> (r: StatsStore)
        ensures
            r@ == StoreMap::empty(),
    {
        StatsStore { stats: Table::new() }
    }

    pub fn get(&self, model_id: &str, provider_id: &str) -> (r: ProviderModelStats)
        ensures
            r@ == pair_of(self@, model_id@, provider_id@),
    {
        match self.stats.get(provider_id) {
            Some(models) => match models.get(model_id) {
                Some(stats) => stats.clone(),
                None => ProviderModelStats::new(model_id.to_owned(), provider_id.to_owned()),
            },
            None => ProviderModelStats::new(model_id.to_owned(), provider_id.to_owned()),
        }
    }

    fn set(&mut self, model_id: &str, provider_id: &str, stats: ProviderModelStats)
        ensures
            final(self)@ == with_pair(old(self)@, model_id@, provider_id@, stats@),
    {
        let ghost before = self@;
        let ghost value = stats@;
        let mut models: Table<ProviderModelStats> = match self.stats.take(provider_id) {
            Some(models) => models,
            None => Table::new(),
        };
        models.put(model_id, stats);
        self.stats.put(provider_id, models);
        assert(self@ =~= with_pair(before, model_id@, provider_id@, value));
    }

    pub fn record_success(&mut self, model_id: &str, provider_id: &str, latency: u64, ttft: Option<u64>)
        requires
            pair_of(old(self)@, model_id@, provider_id@).has_room(),
        ensures
            final(self)@ == with_pair(
                old(self)@,
                model_id@,
                provider_id@,
                pair_of(old(self)@, model_id@, provider_id@).succeeded(latency, ttft),
            ),
    {
        let mut stats = self.get(model_id, provider_id);
        stats.record_success(latency, ttft);
        self.set(model_id, provider_id, stats);
    }

    pub fn record_classified_failure(&mut self, model_id: &str, provider_id: &str, class: FailureClass)
        requires
            pair_of(old(self)@, model_id@, provider_id@).has_room(),
        ensures
            final(self)@ == with_pair(
                old(self)@,
                model_id@,
                provider_id@,
                pair_of(old(self)@, model_id@, provider_id@).failed(class),
            ),
    {
        let mut stats = self.get(model_id, provider_id);
        stats.record_failure(class);
        self.set(model_id, provider_id, stats);
    }
}

impl Default for StatsStore {
    fn default() -> (r: Self)
        ensures
            r@ == StoreMap::empty(),
    {
        StatsStore::new()
    }
}

/// What is recorded of one pair is read back, and no other pair changes.
pub proof fn pairs_are_isolated(
    m: StoreMap,
    model_id: Seq<char>,
    provider_id: Seq<char>,
    pair: PairV,
    other_model: Seq<char>,
    other_provider: Seq<char>,
)
    ensures
        pair_of(with_pair(m, model_id, provider_id, pair), model_id, provider_id) == pair,
        (other_model != model_id || other_provider != provider_id) ==> pair_of(
            with_pair(m, model_id, provider_id, pair),
            other_model,
            other_provider,
        ) == pair_of(m, other_model, other_provider),
{
}

/// A success or a failure counts as one request: requests are the successes and the
/// failures together, before and after.
pub proof fn requests_add_up(p: PairV, latency: u64, ttft: Option<u64>, class: FailureClass)
    requires
        p.has_room(),
        p.total_requests == p.total_successes + p.total_failures,
    ensures
        p.succeeded(latency, ttft).total_requests == p.succeeded(latency, ttft).total_successes + p.succeeded(
            latency,
            ttft,
        ).total_failures,
        p.failed(class).total_requests == p.failed(class).total_successes + p.failed(class).total_failures,
{
}

} // verus!
