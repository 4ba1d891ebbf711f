//! Candidate selection, health tracking and failover ordering.
//!
//! The router is long lived: it keeps health state across configuration
//! reloads, keyed by exposed model id. Time is handed in, in milliseconds of a
//! clock that never goes back.

use crate::circuit_breaker::{CircuitBreaker, CircuitBreakerConfig, CircuitState};
use crate::config;
use crate::config::{
    ClassifierConfig, ClassifierV, ConfigV, EntryV, MemberV, ModelClass, ModelEntry, ProviderConfig, ProviderV,
    RoutingConfig, RoutingStrategy,
};
use crate::election;
use crate::election::{Election, OrderV};
use crate::error;
use crate::error::{Error, ErrorV};
use crate::ir::Capability;
use crate::registry;
use crate::registry::{Registry, Resolution, ResolutionV};
use crate::sorting;
use crate::sorting::{sort, Ranked};
use crate::table;
use crate::table::Table;
use crate::text;
use crate::text::{concat, is_listed, same};
use crate::views;
use vstd::multiset::Multiset;
use vstd::prelude::*;

verus! {

broadcast use crate::views::group_views;

/// One attempt: which model, on which provider.
#[derive(Debug, PartialEq)]
pub struct Candidate {
    /// Derived once here so health keys, log records and response headers all
    /// agree on the name.
    pub exposed_id: String,
    pub entry: ModelEntry,
    pub provider: ProviderConfig,
    /// True when this candidate is only being tried because everything else is
    /// unavailable (open circuit) or because it is in a half-open probe.
    pub degraded: bool,
}

pub struct CandidateV {
    pub exposed_id: Seq<char>,
    pub entry: EntryV,
    pub provider: ProviderV,
    pub degraded: bool,
}

impl View for Candidate {
    type V = CandidateV;

    open spec fn view(&self) -> CandidateV {
        CandidateV {
            exposed_id: self.exposed_id@,
            entry: self.entry@,
            provider: self.provider@,
            degraded: self.degraded,
        }
    }
}

/// The attempt to call a model on its provider.
pub open spec fn attempt(entry: EntryV, provider: ProviderV, degraded: bool) -> CandidateV {
    CandidateV { exposed_id: entry.exposed_id(), entry, provider, degraded }
}

impl Candidate {
    pub fn new(entry: &ModelEntry, provider: &ProviderConfig, degraded: bool) -> (r: Candidate)
        ensures
            r@ == attempt(entry@, provider@, degraded),
    {
        Candidate {
            exposed_id: entry.exposed_id(),
            entry: entry.clone(),
            provider: provider.clone(),
            degraded,
        }
    }

    pub fn model_id(&self) -> (r: &str)
        ensures
            r@ == self@.exposed_id,
    {
        self.exposed_id.as_str()
    }
}

// -------------------------------------------------------------------- health

/// What is known of one model's health.
#[derive(Debug)]
pub struct HealthState {
    pub breaker: CircuitBreaker,
    pub total_success: u64,
    pub total_failure: u64,
    /// Orders the models by the average latency of their successful calls; 0 while
    /// nothing was measured.
    pub latency_rank: u64,
    pub last_error: Option<String>,
}

pub struct HealthV {
    pub breaker: CircuitBreaker,
    pub total_success: u64,
    pub total_failure: u64,
    pub latency_rank: u64,
    pub last_error: Option<Seq<char>>,
}

impl View for HealthState {
    type V = HealthV;

    open spec fn view(&self) -> HealthV {
        HealthV {
            breaker: self.breaker,
            total_success: self.total_success,
            total_failure: self.total_failure,
            latency_rank: self.latency_rank,
            last_error: views::opt(self.last_error),
        }
    }
}

impl HealthState {
    fn new(config: CircuitBreakerConfig) -> (r: HealthState)
        ensures
            r@ == unseen(config),
    {
        HealthState {
            breaker: CircuitBreaker::new(config),
            total_success: 0,
            total_failure: 0,
            latency_rank: 0,
            last_error: None,
        }
    }
}

/// Per model health, exposed to the GUI.
#[derive(Debug, PartialEq)]
pub struct ModelHealth {
    pub model_id: String,
    pub state: CircuitState,
    pub consecutive_failures: u32,
    pub total_success: u64,
    pub total_failure: u64,
    /// Orders the models by the average latency of their successful calls.
    pub latency_rank: u64,
    /// Seconds left before an open breaker may probe, 0 when not open.
    pub cooldown_remaining_secs: u64,
    pub last_error: Option<String>,
}

pub struct ModelHealthV {
    pub model_id: Seq<char>,
    pub state: CircuitState,
    pub consecutive_failures: u32,
    pub total_success: u64,
    pub total_failure: u64,
    pub latency_rank: u64,
    pub cooldown_remaining_secs: int,
    pub last_error: Option<Seq<char>>,
}

impl View for ModelHealth {
    type V = ModelHealthV;

    open spec fn view(&self) -> ModelHealthV {
        ModelHealthV {
            model_id: self.model_id@,
            state: self.state,
            consecutive_failures: self.consecutive_failures,
            total_success: self.total_success,
            total_failure: self.total_failure,
            latency_rank: self.latency_rank,
            cooldown_remaining_secs: self.cooldown_remaining_secs as int,
            last_error: views::opt(self.last_error),
        }
    }
}

/// The health of a model as it is shown.
pub open spec fn shown(id: Seq<char>, h: HealthV, now: u64) -> ModelHealthV {
    ModelHealthV {
        model_id: id,
        state: h.breaker.state,
        consecutive_failures: h.breaker.failures,
        total_success: h.total_success,
        total_failure: h.total_failure,
        latency_rank: h.latency_rank,
        cooldown_remaining_secs: h.breaker.remaining_secs(now),
        last_error: h.last_error,
    }
}

/// The health of a model that nothing is known of.
pub open spec fn unseen(config: CircuitBreakerConfig) -> HealthV {
    HealthV {
        breaker: CircuitBreaker::fresh(config),
        total_success: 0,
        total_failure: 0,
        latency_rank: 0,
        last_error: None,
    }
}

impl HealthV {
    /// After a successful call.
    pub open spec fn succeeded(self, latency_rank: u64) -> HealthV {
        HealthV {
            breaker: self.breaker.succeeded(),
            total_success: (self.total_success + 1) as u64,
            last_error: None,
            latency_rank,
            ..self
        }
    }

    /// After a failed call.
    pub open spec fn failed(self, e: ErrorV, now: u64) -> HealthV {
        HealthV {
            breaker: self.breaker.failed(now),
            total_failure: (self.total_failure + 1) as u64,
            last_error: Some(e.safe_message()),
            ..self
        }
    }
}

/// What the router knows.
pub struct RouterV {
    pub health: Map<Seq<char>, HealthV>,
    pub cursors: Map<Seq<char>, usize>,
    pub election: Option<Seq<OrderV>>,
}

impl RouterV {
    /// The health of a model, as new where nothing is known.
    pub open spec fn health_of(self, id: Seq<char>, config: CircuitBreakerConfig) -> HealthV {
        if self.health.contains_key(id) {
            self.health[id]
        } else {
            unseen(config)
        }
    }

    pub open spec fn with_health(self, id: Seq<char>, h: HealthV) -> RouterV {
        RouterV { health: self.health.insert(id, h), ..self }
    }

    /// Whether the counters of a model have room for one call more.
    pub open spec fn has_room(self, id: Seq<char>) -> bool {
        self.health.contains_key(id) ==> self.health[id].total_success < u64::MAX
            && self.health[id].total_failure < u64::MAX
    }

    pub open spec fn succeeded(self, id: Seq<char>, rank: u64, config: CircuitBreakerConfig) -> RouterV {
        self.with_health(id, self.health_of(id, config).succeeded(rank))
    }

    pub open spec fn failed(self, id: Seq<char>, e: ErrorV, config: CircuitBreakerConfig, now: u64) -> RouterV {
        if e.against_health() {
            self.with_health(id, self.health_of(id, config).failed(e, now))
        } else {
            self
        }
    }

    /// Whether a call to a model passes, and what the router then knows.
    pub open spec fn passed(self, id: Seq<char>, now: u64) -> (bool, RouterV) {
        if self.health.contains_key(id) {
            let (ok, breaker) = self.health[id].breaker.passed(now);
            (ok, self.with_health(id, HealthV { breaker, ..self.health[id] }))
        } else {
            (true, self)
        }
    }

    pub open spec fn released(self, id: Seq<char>) -> RouterV {
        if self.health.contains_key(id) {
            let h = self.health[id];
            self.with_health(id, HealthV { breaker: CircuitBreaker { probing: false, ..h.breaker }, ..h })
        } else {
            self
        }
    }

    pub open spec fn reset(self, id: Seq<char>) -> RouterV {
        if self.health.contains_key(id) {
            let h = self.health[id];
            self.with_health(
                id,
                HealthV { breaker: CircuitBreaker::fresh(h.breaker.config), last_error: None, ..h },
            )
        } else {
            self
        }
    }
}

// -------------------------------------------------------------------- choice

/// The share of a model in a random choice.
pub open spec fn share(e: EntryV) -> int {
    if e.weight == 0 {
        1
    } else {
        e.weight as int
    }
}

/// The shares of the models from `i` on.
pub open spec fn shares_from(pool: Seq<EntryV>, i: int) -> int
    decreases pool.len() - i,
{
    if i < 0 || i >= pool.len() {
        0
    } else {
        share(pool[i]) + shares_from(pool, i + 1)
    }
}

/// The model into whose share a pick falls, counting from the `i`th.
pub open spec fn falls_on(pool: Seq<EntryV>, pick: int, i: int) -> int
    decreases pool.len() - i,
{
    if i < 0 || i >= pool.len() {
        0
    } else if pick < share(pool[i]) {
        i
    } else {
        falls_on(pool, pick - share(pool[i]), i + 1)
    }
}

/// The `i`th pick; 0 where there is none.
pub open spec fn pick_at(picks: Seq<u64>, i: int) -> int {
    if 0 <= i < picks.len() {
        picks[i] as int
    } else {
        0
    }
}

/// `done` and behind it a pool in the order in which the picks take its models
/// out, one pick for each place.
pub open spec fn shuffled(pool: Seq<EntryV>, picks: Seq<u64>, done: Seq<EntryV>) -> Seq<EntryV>
    decreases pool.len(),
{
    if pool.len() == 0 {
        done
    } else {
        let i = falls_on(pool, pick_at(picks, done.len() as int), 0);
        proof {
            falls_inside(pool, pick_at(picks, done.len() as int), 0);
        }
        shuffled(pool.remove(i), picks, done.push(pool[i]))
    }
}

pub proof fn falls_inside(pool: Seq<EntryV>, pick: int, i: int)
    requires
        pool.len() > 0,
    ensures
        0 <= falls_on(pool, pick, i) < pool.len(),
    decreases pool.len() - i,
{
    if 0 <= i && i < pool.len() && pick >= share(pool[i]) {
        falls_inside(pool, pick - share(pool[i]), i + 1);
    }
}

/// Neighbouring models of one priority.
pub struct Group {
    pub priority: i32,
    pub members: Vec<ModelEntry>,
}

pub struct GroupV {
    pub priority: i32,
    pub members: Seq<EntryV>,
}

impl View for Group {
    type V = GroupV;

    open spec fn view(&self) -> GroupV {
        GroupV { priority: self.priority, members: views::of(self.members@) }
    }
}

/// A model and the rank of its latency.
pub struct Timed {
    pub rank: u64,
    pub entry: ModelEntry,
}

pub struct TimedV {
    pub rank: u64,
    pub entry: EntryV,
}

impl View for Timed {
    type V = TimedV;

    open spec fn view(&self) -> TimedV {
        TimedV { rank: self.rank, entry: self.entry@ }
    }
}

impl Ranked for Timed {
    open spec fn before(a: TimedV, b: TimedV) -> bool {
        a.rank < b.rank
    }

    fn comes_before(&self, other: &Self) -> (r: bool) {
        self.rank < other.rank
    }
}

/// The groups with one model more: in the last group where that has its priority.
pub open spec fn grouped_with(groups: Seq<GroupV>, m: EntryV) -> Seq<GroupV> {
    if groups.len() > 0 && groups.last().priority == m.priority {
        groups.drop_last().push(GroupV { priority: m.priority, members: groups.last().members.push(m) })
    } else {
        groups.push(GroupV { priority: m.priority, members: Seq::empty().push(m) })
    }
}

/// The models from `i` on as groups of neighbours of one priority, behind `sofar`.
pub open spec fn groups_from(members: Seq<EntryV>, i: int, sofar: Seq<GroupV>) -> Seq<GroupV>
    decreases members.len() - i,
{
    if i < 0 || i >= members.len() {
        sofar
    } else {
        groups_from(members, i + 1, grouped_with(sofar, members[i]))
    }
}

/// The groups of a pool, by priority: one for each priority there is.
pub open spec fn groups(members: Seq<EntryV>) -> Seq<GroupV> {
    groups_from(sorting::sorted::<ModelEntry>(members), 0, Seq::empty())
}

/// The groups from `i` on, each shuffled, behind `done`.
pub open spec fn shuffled_groups(groups: Seq<GroupV>, picks: Seq<u64>, i: int, done: Seq<EntryV>) -> Seq<EntryV>
    decreases groups.len() - i,
{
    if i < 0 || i >= groups.len() {
        done
    } else {
        shuffled_groups(groups, picks, i + 1, shuffled(groups[i].members, picks, done))
    }
}

/// The first model from `i` on with that id.
pub open spec fn member_from(members: Seq<EntryV>, id: Seq<char>, i: int) -> Option<EntryV>
    decreases members.len() - i,
{
    if i < 0 || i >= members.len() {
        None
    } else if members[i].exposed_id() == id {
        Some(members[i])
    } else {
        member_from(members, id, i + 1)
    }
}

/// The models that an order names from its `i`th id on, behind `sofar`.
pub open spec fn named_from(members: Seq<EntryV>, order: Seq<Seq<char>>, i: int, sofar: Seq<EntryV>) -> Seq<EntryV>
    decreases order.len() - i,
{
    if i < 0 || i >= order.len() {
        sofar
    } else {
        match member_from(members, order[i], 0) {
            Some(m) => named_from(members, order, i + 1, sofar.push(m)),
            None => named_from(members, order, i + 1, sofar),
        }
    }
}

/// The models from `i` on that an order does not name, behind `sofar`.
pub open spec fn unnamed_from(members: Seq<EntryV>, order: Seq<Seq<char>>, i: int, sofar: Seq<EntryV>) -> Seq<EntryV>
    decreases members.len() - i,
{
    if i < 0 || i >= members.len() {
        sofar
    } else if text::listed(order, members[i].exposed_id()) {
        unnamed_from(members, order, i + 1, sofar)
    } else {
        unnamed_from(members, order, i + 1, sofar.push(members[i]))
    }
}

/// The order that an election decided, for the members that are there; what it did
/// not see comes behind, by priority.
pub open spec fn elected(members: Seq<EntryV>, order: Option<Seq<Seq<char>>>) -> Seq<EntryV> {
    match order {
        Some(ids) => named_from(members, ids, 0, Seq::empty()) + sorting::sorted::<ModelEntry>(
            unnamed_from(members, ids, 0, Seq::empty()),
        ),
        None => sorting::sorted::<ModelEntry>(members),
    }
}

/// The rank of a model's latency; 0, before all others, where nothing is known.
pub open spec fn rank_of(health: Map<Seq<char>, HealthV>, id: Seq<char>) -> u64 {
    if health.contains_key(id) {
        health[id].latency_rank
    } else {
        0
    }
}

/// Each model with the rank of its latency.
pub open spec fn timed(members: Seq<EntryV>, health: Map<Seq<char>, HealthV>) -> Seq<TimedV> {
    Seq::new(
        members.len(),
        |i: int| TimedV { rank: rank_of(health, members[i].exposed_id()), entry: members[i] },
    )
}

/// The models, without their ranks.
pub open spec fn untimed(s: Seq<TimedV>) -> Seq<EntryV> {
    Seq::new(s.len(), |i: int| s[i].entry)
}

/// The place at which a pool's turn stands.
pub open spec fn cursor_of(cursors: Map<Seq<char>, usize>, key: Seq<char>) -> usize {
    if cursors.contains_key(key) {
        cursors[key]
    } else {
        0
    }
}

/// The place after another, from the largest back to the first.
pub open spec fn next_turn(n: usize) -> usize {
    if n == usize::MAX {
        0
    } else {
        (n + 1) as usize
    }
}

/// The models from the `start`th on, and then those before it.
pub open spec fn rotated(members: Seq<EntryV>, start: int) -> Seq<EntryV> {
    members.skip(start) + members.take(start)
}

/// The order of a pool's healthy members.
pub open spec fn ordered(
    st: RouterV,
    members: Seq<EntryV>,
    key: Seq<char>,
    class: Option<ModelClass>,
    strategy: RoutingStrategy,
    picks: Seq<u64>,
) -> Seq<EntryV> {
    if members.len() <= 1 {
        members
    } else {
        match strategy {
            RoutingStrategy::Balanced => match class {
                Some(c) => elected(
                    members,
                    match st.election {
                        Some(orders) => election::order_from(orders, c, 0),
                        None => None,
                    },
                ),
                None => sorting::sorted::<ModelEntry>(members),
            },
            RoutingStrategy::Priority => shuffled_groups(groups(members), picks, 0, Seq::empty()),
            RoutingStrategy::WeightedRandom => shuffled(members, picks, Seq::empty()),
            RoutingStrategy::RoundRobin => rotated(
                members,
                cursor_of(st.cursors, key) as int % members.len() as int,
            ),
            RoutingStrategy::LowestLatency => untimed(sorting::sorted::<Timed>(timed(members, st.health))),
        }
    }
}

/// What the router knows after ordering a pool: a pool that goes in turn moves on
/// by one.
pub open spec fn after_ordering(
    st: RouterV,
    members: Seq<EntryV>,
    key: Seq<char>,
    strategy: RoutingStrategy,
) -> RouterV {
    if members.len() > 1 && strategy == RoutingStrategy::RoundRobin {
        RouterV { cursors: st.cursors.insert(key, next_turn(cursor_of(st.cursors, key))), ..st }
    } else {
        st
    }
}

// --------------------------------------------------------------------- plans

/// A pool of models, and how to go through it.
pub struct Pool {
    /// The name of the pool: a class's virtual id, or `classifier`.
    pub name: String,
    pub members: Vec<ModelEntry>,
    /// The class of the pool, where it has one.
    pub class: Option<ModelClass>,
    pub strategy: RoutingStrategy,
    pub failover: bool,
    pub max_attempts: u32,
}

pub struct PoolV {
    pub name: Seq<char>,
    pub members: Seq<EntryV>,
    pub class: Option<ModelClass>,
    pub strategy: RoutingStrategy,
    pub failover: bool,
    pub max_attempts: u32,
}

impl View for Pool {
    type V = PoolV;

    open spec fn view(&self) -> PoolV {
        PoolV {
            name: self.name@,
            members: views::of(self.members@),
            class: self.class,
            strategy: self.strategy,
            failover: self.failover,
            max_attempts: self.max_attempts,
        }
    }
}

/// Whether a model has every capability that is asked for.
pub open spec fn satisfies(m: EntryV, required: Seq<Capability>) -> bool {
    forall|i: int| 0 <= i < required.len() ==> m.supports(#[trigger] required[i])
}

/// The models from `i` on with every capability that is asked for, behind `sofar`.
pub open spec fn satisfying_from(
    members: Seq<EntryV>,
    required: Seq<Capability>,
    i: int,
    sofar: Seq<EntryV>,
) -> Seq<EntryV>
    decreases members.len() - i,
{
    if i < 0 || i >= members.len() {
        sofar
    } else if satisfies(members[i], required) {
        satisfying_from(members, required, i + 1, sofar.push(members[i]))
    } else {
        satisfying_from(members, required, i + 1, sofar)
    }
}

/// The models with every capability that is asked for; all of them where there is
/// no such model.
pub open spec fn capable(members: Seq<EntryV>, required: Seq<Capability>) -> Seq<EntryV> {
    let found = satisfying_from(members, required, 0, Seq::empty());
    if found.len() == 0 {
        members
    } else {
        found
    }
}

/// How a model stands when a plan is made.
#[derive(Debug, Clone, Copy, PartialEq, Eq, Structural)]
pub enum Standing {
    /// It takes requests.
    Ready,
    /// It may be probed.
    Probe,
    /// It is left alone.
    Out,
}

/// How a model stands.
pub open spec fn standing(health: Map<Seq<char>, HealthV>, id: Seq<char>, now: u64) -> Standing {
    if health.contains_key(id) {
        let b = health[id].breaker;
        match b.state {
            CircuitState::Closed => Standing::Ready,
            CircuitState::HalfOpen => Standing::Probe,
            CircuitState::Open => if b.may_probe(now) {
                Standing::Probe
            } else {
                Standing::Out
            },
        }
    } else {
        Standing::Ready
    }
}

/// The models from `i` on that stand so, behind `sofar`.
pub open spec fn standing_from(
    members: Seq<EntryV>,
    health: Map<Seq<char>, HealthV>,
    now: u64,
    how: Standing,
    i: int,
    sofar: Seq<EntryV>,
) -> Seq<EntryV>
    decreases members.len() - i,
{
    if i < 0 || i >= members.len() {
        sofar
    } else if standing(health, members[i].exposed_id(), now) == how {
        standing_from(members, health, now, how, i + 1, sofar.push(members[i]))
    } else {
        standing_from(members, health, now, how, i + 1, sofar)
    }
}

/// The models that stand so.
pub open spec fn standing_so(
    members: Seq<EntryV>,
    health: Map<Seq<char>, HealthV>,
    now: u64,
    how: Standing,
) -> Seq<EntryV> {
    standing_from(members, health, now, how, 0, Seq::empty())
}

/// The ids of models.
pub open spec fn ids_of(members: Seq<EntryV>) -> Seq<Seq<char>> {
    Seq::new(members.len(), |i: int| members[i].exposed_id())
}

/// The attempts at the models from `i` on, up to `limit` of them, behind `sofar`.
pub open spec fn attempts_from(
    c: ConfigV,
    queue: Seq<EntryV>,
    degraded: Seq<Seq<char>>,
    limit: int,
    i: int,
    sofar: Seq<CandidateV>,
) -> Result<Seq<CandidateV>, ErrorV>
    decreases queue.len() - i,
{
    if i < 0 || i >= queue.len() || i >= limit {
        Ok(sofar)
    } else {
        match registry::provider_for(c, queue[i]) {
            Ok(p) => attempts_from(
                c,
                queue,
                degraded,
                limit,
                i + 1,
                sofar.push(attempt(queue[i], p, text::listed(degraded, queue[i].exposed_id()))),
            ),
            Err(e) => Err(e),
        }
    }
}

/// How many attempts a pool allows.
pub open spec fn attempt_limit(pool: PoolV) -> int {
    if pool.failover && pool.max_attempts > 1 {
        pool.max_attempts as int
    } else {
        1
    }
}

/// The attempts at a pool, given its healthy members in order and those that may be
/// probed: the healthy ones first, and where failover is on the others behind them,
/// marked degraded; the others alone where no member is healthy.
pub open spec fn pool_attempts(
    c: ConfigV,
    pool: PoolV,
    ready: Seq<EntryV>,
    probes: Seq<EntryV>,
) -> Result<Seq<CandidateV>, ErrorV> {
    let fallback = ready.len() == 0 || pool.failover;
    let queue = if fallback {
        ready + probes
    } else {
        ready
    };
    let degraded = if fallback {
        ids_of(probes)
    } else {
        Seq::empty()
    };
    match attempts_from(c, queue, degraded, attempt_limit(pool), 0, Seq::empty()) {
        Ok(list) => if list.len() == 0 {
            Err(ErrorV::NoCandidate(pool.name))
        } else {
            Ok(list)
        },
        Err(e) => Err(e),
    }
}

/// The plan for a pool, and what the router then knows.
pub open spec fn pool_plan(
    st: RouterV,
    c: ConfigV,
    pool: PoolV,
    now: u64,
    picks: Seq<u64>,
) -> (Result<Seq<CandidateV>, ErrorV>, RouterV) {
    let ready = standing_so(pool.members, st.health, now, Standing::Ready);
    let probes = standing_so(pool.members, st.health, now, Standing::Probe);
    (
        pool_attempts(c, pool, ordered(st, ready, pool.name, pool.class, pool.strategy, picks), probes),
        after_ordering(st, ready, pool.name, pool.strategy),
    )
}

/// The pool of a class.
pub open spec fn class_pool(c: ConfigV, class: ModelClass, required: Seq<Capability>) -> PoolV {
    let members = registry::members(c, class);
    PoolV {
        name: class.id(),
        members: if c.routing.capability_filter && required.len() > 0 {
            capable(members, required)
        } else {
            members
        },
        class: Some(class),
        strategy: c.routing.strategy,
        failover: c.routing.failover,
        max_attempts: c.routing.max_attempts,
    }
}

/// The plan for one model.
pub open spec fn direct_plan(c: ConfigV, id: Seq<char>) -> Result<Seq<CandidateV>, ErrorV> {
    match registry::entry_of(c, id) {
        Ok(m) => match registry::provider_for(c, m) {
            Ok(p) => if p.enabled {
                Ok(Seq::empty().push(attempt(m, p, false)))
            } else {
                Err(ErrorV::UnknownModel(id + " (provider disabled)"@))
            },
            Err(e) => Err(e),
        },
        Err(e) => Err(e),
    }
}

/// The plan for a resolved model id, and what the router then knows.
pub open spec fn planned(
    st: RouterV,
    c: ConfigV,
    resolution: ResolutionV,
    required: Seq<Capability>,
    now: u64,
    picks: Seq<u64>,
) -> (Result<Seq<CandidateV>, ErrorV>, RouterV) {
    match resolution {
        ResolutionV::Direct(id) => (direct_plan(c, id), st),
        ResolutionV::Class(class) => if registry::members(c, class).len() == 0 {
            (Err(ErrorV::NoCandidate(class.id())), st)
        } else {
            pool_plan(st, c, class_pool(c, class, required), now, picks)
        },
    }
}

/// The model that a member of the classifier pool stands for, with the priority it
/// has in the pool. A member that is off, unknown or unusable stands for none.
pub open spec fn pool_member(c: ConfigV, m: MemberV) -> Option<EntryV> {
    match registry::entry_of(c, m.model) {
        Ok(e) => if m.enabled && e.enabled && c.provider_in_use(e.provider_id) {
            Some(EntryV { priority: m.priority, ..e })
        } else {
            None
        },
        Err(_) => None,
    }
}

/// The classifier pool's models from the `i`th member on, behind `sofar`.
pub open spec fn pool_from(c: ConfigV, list: Seq<MemberV>, i: int, sofar: Seq<EntryV>) -> Seq<EntryV>
    decreases list.len() - i,
{
    if i < 0 || i >= list.len() {
        sofar
    } else {
        match pool_member(c, list[i]) {
            Some(e) => pool_from(c, list, i + 1, sofar.push(e)),
            None => pool_from(c, list, i + 1, sofar),
        }
    }
}

/// The classifier pool.
pub open spec fn classifier_pool(c: ConfigV, cc: ClassifierV) -> PoolV {
    PoolV {
        name: "classifier"@,
        members: pool_from(c, cc.candidates, 0, Seq::empty()),
        class: None,
        strategy: cc.strategy,
        failover: cc.failover,
        max_attempts: cc.max_attempts,
    }
}

/// The plan for a classifier request, and what the router then knows.
pub open spec fn classifier_plan(
    st: RouterV,
    c: ConfigV,
    cc: ClassifierV,
    now: u64,
    picks: Seq<u64>,
) -> (Result<Seq<CandidateV>, ErrorV>, RouterV) {
    let pool = classifier_pool(c, cc);
    if pool.members.len() == 0 {
        (Err(ErrorV::NoCandidate("classifier"@)), st)
    } else {
        pool_plan(st, c, pool, now, picks)
    }
}

// ----------------------------------------------------------------- the draws

/// What is left of a pool when the picks from `from` up to `to` have taken their
/// models out.
pub open spec fn left_after(pool: Seq<EntryV>, picks: Seq<u64>, from: int, to: int) -> Seq<EntryV>
    decreases to - from,
{
    if to <= from {
        pool
    } else {
        let rest = left_after(pool, picks, from, to - 1);
        rest.remove(falls_on(rest, pick_at(picks, to - 1), 0))
    }
}

/// Whether the picks from `from` on, one for each model of a pool, each fall inside
/// the shares of what is left of the pool.
pub open spec fn fair_from(pool: Seq<EntryV>, picks: Seq<u64>, from: int) -> bool {
    forall|k: int|
        from <= k < from + pool.len() ==> (#[trigger] pick_at(picks, k)) < shares_from(
            left_after(pool, picks, from, k),
            0,
        )
}

/// Whether the picks from `at` on are fair for the groups from `i` on.
pub open spec fn fair_groups(groups: Seq<GroupV>, picks: Seq<u64>, i: int, at: int) -> bool
    decreases groups.len() - i,
{
    if i < 0 || i >= groups.len() {
        true
    } else {
        fair_from(groups[i].members, picks, at) && fair_groups(
            groups,
            picks,
            i + 1,
            at + groups[i].members.len(),
        )
    }
}

/// Whether picks are fair for ordering a pool.
pub open spec fn fair(members: Seq<EntryV>, strategy: RoutingStrategy, picks: Seq<u64>) -> bool {
    match strategy {
        RoutingStrategy::Priority => fair_groups(groups(members), picks, 0, 0),
        RoutingStrategy::WeightedRandom => fair_from(members, picks, 0),
        _ => true,
    }
}

/// `rand::Rng::gen_range` on `0..total`: a number below `total`, which one is
/// chance. An empty range would panic.
#[verifier::external_body]
fn draw_below(total: u64) -> (r: u64)
    requires
        total > 0,
    ensures
        r < total,
{
    rand::Rng::gen_range(&mut rand::thread_rng(), 0..total)
}

fn share_of(m: &ModelEntry) -> (r: u64)
    ensures
        r == share(m@),
        1 <= r <= 0xffff_ffff,
{
    if m.weight == 0 {
        1
    } else {
        m.weight as u64
    }
}

/// The member of a pool into whose share a pick falls.
pub fn pick_member(pool: &Vec<ModelEntry>, pick: u64) -> (r: usize)
    ensures
        r == falls_on(views::of(pool@), pick as int, 0),
        pool@.len() > 0 ==> r < pool@.len(),
{
    let ghost all = views::of(pool@);
    let mut left: u64 = pick;
    for i in 0..pool.len()
        invariant
            all == views::of(pool@),
            falls_on(all, pick as int, 0) == falls_on(all, left as int, i as int),
    {
        assert(all[i as int] == pool@[i as int]@);
        let w = share_of(&pool[i]);
        if left < w {
            return i;
        }
        left = left - w;
    }
    0
}

proof fn shares_are_small(pool: Seq<EntryV>, i: int)
    requires
        0 <= i <= pool.len(),
    ensures
        pool.len() - i <= shares_from(pool, i) <= 0xffff_ffff * (pool.len() - i),
    decreases pool.len() - i,
{
    if i < pool.len() {
        shares_are_small(pool, i + 1);
    }
}

fn total_share(pool: &Vec<ModelEntry>) -> (r: u64)
    requires
        pool@.len() <= 0xffff_ffff,
    ensures
        r == shares_from(views::of(pool@), 0),
        r >= pool@.len(),
{
    let ghost all = views::of(pool@);
    let mut sum: u64 = 0;
    proof {
        shares_are_small(all, 0);
    }
    for i in 0..pool.len()
        invariant
            all == views::of(pool@),
            pool@.len() <= 0xffff_ffff,
            sum + shares_from(all, i as int) == shares_from(all, 0),
            shares_from(all, 0) <= 0xffff_ffff * all.len(),
    {
        assert(all[i as int] == pool@[i as int]@);
        proof {
            shares_are_small(all, i + 1);
            assert(shares_from(all, 0) <= 0xffff_ffff * 0xffff_ffff);
        }
        sum = sum + share_of(&pool[i]);
    }
    sum
}

proof fn left_depends_on_its_picks(pool: Seq<EntryV>, a: Seq<u64>, b: Seq<u64>, from: int, to: int)
    requires
        forall|k: int| from <= k < to ==> #[trigger] pick_at(a, k) == pick_at(b, k),
    ensures
        left_after(pool, a, from, to) == left_after(pool, b, from, to),
    decreases to - from,
{
    if from < to {
        left_depends_on_its_picks(pool, a, b, from, to - 1);
        assert(pick_at(a, to - 1) == pick_at(b, to - 1));
    }
}

/// Draw a pick for each model of a pool.
fn draw_from(pool: Vec<ModelEntry>, picks: &mut Vec<u64>)
    requires
        pool@.len() <= 0xffff_ffff,
    ensures
        final(picks)@.len() == old(picks)@.len() + pool@.len(),
        final(picks)@.take(old(picks)@.len() as int) == old(picks)@,
        fair_from(views::of(pool@), final(picks)@, old(picks)@.len() as int),
{
    let ghost all = views::of(pool@);
    let ghost start = picks@.len() as int;
    let ghost first = picks@;
    let mut rest = pool;
    while rest.len() > 0
        invariant
            0 <= start <= picks@.len(),
            picks@.len() + rest@.len() == start + all.len(),
            rest@.len() <= 0xffff_ffff,
            picks@.take(start) == first,
            views::of(rest@) == left_after(all, picks@, start, picks@.len() as int),
            forall|k: int|
                start <= k < picks@.len() ==> (#[trigger] pick_at(picks@, k)) < shares_from(
                    left_after(all, picks@, start, k),
                    0,
                ),
        decreases rest@.len(),
    {
        let ghost before = picks@;
        let ghost left = views::of(rest@);
        let total = total_share(&rest);
        let pick = draw_below(total);
        let i = pick_member(&rest, pick);
        picks.push(pick);
        proof {
            assert forall|k: int| 0 <= k < before.len() implies #[trigger] pick_at(picks@, k) == pick_at(before, k) by {
                assert(picks@[k] == before[k]);
            }
            left_depends_on_its_picks(all, picks@, before, start, before.len() as int);
            assert(pick_at(picks@, before.len() as int) == pick);
            assert forall|k: int| start <= k < picks@.len() implies (#[trigger] pick_at(picks@, k)) < shares_from(
                left_after(all, picks@, start, k),
                0,
            ) by {
                left_depends_on_its_picks(all, picks@, before, start, k);
                if k < before.len() {
                    assert(pick_at(before, k) == pick_at(picks@, k));
                }
            }
            assert(picks@.take(start) =~= before.take(start));
        }
        rest.remove(i);
        assert(views::of(rest@) =~= left.remove(i as int));
    }
    assert(views::of(rest@).len() == 0);
}

proof fn groups_keep_their_models(members: Seq<EntryV>, i: int, sofar: Seq<GroupV>)
    requires
        forall|k: int| 0 <= k < sofar.len() ==> (#[trigger] sofar[k]).members.len() <= members.len(),
        0 <= i <= members.len(),
        sofar.len() > 0 ==> sofar.last().members.len() <= i,
    ensures
        forall|k: int|
            0 <= k < groups_from(members, i, sofar).len() ==> (#[trigger] groups_from(members, i, sofar)[k]).members.len()
                <= members.len(),
    decreases members.len() - i,
{
    if i < members.len() {
        let next = grouped_with(sofar, members[i]);
        assert forall|k: int| 0 <= k < next.len() implies (#[trigger] next[k]).members.len() <= members.len() by {
            if k < sofar.len() {
                assert(sofar[k].members.len() <= members.len());
            }
        }
        groups_keep_their_models(members, i + 1, next);
        assert(groups_from(members, i, sofar) == groups_from(members, i + 1, next));
    } else {
        assert(groups_from(members, i, sofar) == sofar);
    }
}

proof fn sorted_groups_keep_their_models(members: Seq<EntryV>)
    ensures
        forall|k: int| 0 <= k < groups(members).len() ==> (#[trigger] groups(members)[k]).members.len() <= members.len(),
{
    sorting::sorting_keeps_items::<ModelEntry>(members);
    groups_keep_their_models(sorting::sorted::<ModelEntry>(members), 0, Seq::empty());
}

fn copy_entries(v: &Vec<ModelEntry>) -> (r: Vec<ModelEntry>)
    ensures
        views::of(r@) == views::of(v@),
        r@.len() == v@.len(),
{
    let mut out: Vec<ModelEntry> = Vec::new();
    for i in 0..v.len()
        invariant
            out@.len() == i,
            forall|j: int| 0 <= j < i ==> (#[trigger] out@[j])@ == v@[j]@,
    {
        out.push(v[i].clone());
    }
    assert(views::of(out@) =~= views::of(v@));
    out
}

/// The groups of a pool, by priority.
fn group(members: &Vec<ModelEntry>) -> (r: Vec<Group>)
    ensures
        views::of(r@) == groups(views::of(members@)),
{
    let members = by_priority(members);
    let ghost all = views::of(members@);
    let mut out: Vec<Group> = Vec::new();
    for i in 0..members.len()
        invariant
            all == views::of(members@),
            groups_from(all, 0, Seq::empty()) == groups_from(all, i as int, views::of(out@)),
    {
        assert(all[i as int] == members@[i as int]@);
        let m = members[i].clone();
        let ghost before = views::of(out@);
        let n = out.len();
        if n > 0 && out[n - 1].priority == m.priority {
            assert(before.last() == out@[n - 1]@);
            match out.pop() {
                Some(last) => {
                    let mut last = last;
                    last.members.push(m);
                    assert(views::of(out@) =~= before.drop_last());
                    out.push(last);
                },
                None => {},
            }
        } else {
            assert(n > 0 ==> before.last() == out@[n - 1]@);
            let mut one: Vec<ModelEntry> = Vec::new();
            let priority = m.priority;
            one.push(m);
            out.push(Group { priority, members: one });
        }
        assert(views::of(out@) == grouped_with(before, all[i as int]));
    }
    out
}

proof fn earlier_picks_decide(pool: Seq<EntryV>, a: Seq<u64>, b: Seq<u64>, from: int)
    requires
        0 <= from,
        fair_from(pool, a, from),
        from + pool.len() <= a.len(),
        a.len() <= b.len(),
        b.take(a.len() as int) == a,
    ensures
        fair_from(pool, b, from),
{
    assert forall|k: int| 0 <= k < a.len() implies #[trigger] pick_at(a, k) == pick_at(b, k) by {
        assert(b.take(a.len() as int)[k] == b[k]);
    }
    assert forall|k: int| from <= k < from + pool.len() implies (#[trigger] pick_at(b, k)) < shares_from(
        left_after(pool, b, from, k),
        0,
    ) by {
        left_depends_on_its_picks(pool, a, b, from, k);
        assert(pick_at(a, k) == pick_at(b, k));
    }
}

/// How many models the groups before the `i`th hold.
spec fn held_before(groups: Seq<GroupV>, i: int) -> int
    decreases i,
{
    if i <= 0 {
        0
    } else {
        held_before(groups, i - 1) + groups[i - 1].members.len()
    }
}

proof fn fair_for_each(groups: Seq<GroupV>, picks: Seq<u64>, i: int)
    requires
        0 <= i <= groups.len(),
        forall|k: int| i <= k < groups.len() ==> fair_from((#[trigger] groups[k]).members, picks, held_before(groups, k)),
    ensures
        fair_groups(groups, picks, i, held_before(groups, i)),
    decreases groups.len() - i,
{
    if i < groups.len() {
        assert(fair_from(groups[i].members, picks, held_before(groups, i)));
        fair_for_each(groups, picks, i + 1);
    }
}

/// Whether the picks for the `k`th group are there, and fair.
spec fn fair_for(groups: Seq<GroupV>, picks: Seq<u64>, k: int) -> bool {
    fair_from(groups[k].members, picks, held_before(groups, k)) && 0 <= held_before(groups, k)
        && held_before(groups, k) + groups[k].members.len() <= picks.len()
}

/// Whether the picks are those of the first `i` groups, and fair.
#[verifier::opaque]
spec fn fair_up_to(groups: Seq<GroupV>, picks: Seq<u64>, i: int) -> bool {
    picks.len() == held_before(groups, i) && (forall|k: int| 0 <= k < i ==> #[trigger] fair_for(groups, picks, k))
}

proof fn fair_for_one_more(groups: Seq<GroupV>, before: Seq<u64>, picks: Seq<u64>, i: int)
    requires
        0 <= i < groups.len(),
        fair_up_to(groups, before, i),
        picks.len() == before.len() + groups[i].members.len(),
        picks.take(before.len() as int) == before,
        fair_from(groups[i].members, picks, before.len() as int),
    ensures
        fair_up_to(groups, picks, i + 1),
{
    reveal(fair_up_to);
    assert forall|k: int| 0 <= k < i + 1 implies #[trigger] fair_for(groups, picks, k) by {
        if k < i {
            assert(fair_for(groups, before, k));
            earlier_picks_decide(groups[k].members, before, picks, held_before(groups, k));
        }
    }
}

/// Draw the picks for ordering a pool.
pub fn draw_picks(members: &Vec<ModelEntry>, strategy: RoutingStrategy) -> (r: Vec<u64>)
    requires
        members@.len() <= 0xffff_ffff,
    ensures
        fair(views::of(members@), strategy, r@),
{
    let mut picks: Vec<u64> = Vec::new();
    match strategy {
        RoutingStrategy::WeightedRandom => {
            draw_from(copy_entries(members), &mut picks);
        },
        RoutingStrategy::Priority => {
            let all = group(members);
            let ghost gs = views::of(all@);
            proof {
                sorted_groups_keep_their_models(views::of(members@));
            }
            proof {
                reveal(fair_up_to);
            }
            for i in 0..all.len()
                invariant
                    gs == views::of(all@),
                    members@.len() <= 0xffff_ffff,
                    forall|k: int| 0 <= k < gs.len() ==> (#[trigger] gs[k]).members.len() <= members@.len(),
                    fair_up_to(gs, picks@, i as int),
            {
                assert(gs[i as int] == all@[i as int]@);
                let ghost before = picks@;
                draw_from(copy_entries(&all[i].members), &mut picks);
                proof {
                    fair_for_one_more(gs, before, picks@, i as int);
                }
            }
            proof {
                reveal(fair_up_to);
                assert forall|k: int| 0 <= k < gs.len() implies fair_from(
                    (#[trigger] gs[k]).members,
                    picks@,
                    held_before(gs, k),
                ) by {
                    assert(fair_for(gs, picks@, k));
                }
            }
            proof {
                fair_for_each(gs, picks@, 0);
            }
        },
        _ => {},
    }
    picks
}

/// Take the models of a pool out one by one, each where a pick falls.
fn shuffle(pool: Vec<ModelEntry>, picks: &Vec<u64>, out: &mut Vec<ModelEntry>)
    ensures
        views::of(final(out)@) == shuffled(views::of(pool@), picks@, views::of(old(out)@)),
{
    let ghost goal = shuffled(views::of(pool@), picks@, views::of(out@));
    let mut rest = pool;
    while rest.len() > 0
        invariant
            goal == shuffled(views::of(rest@), picks@, views::of(out@)),
        decreases rest@.len(),
    {
        let ghost left = views::of(rest@);
        let pick = if out.len() < picks.len() {
            picks[out.len()]
        } else {
            0
        };
        assert(views::of(out@).len() == out@.len());
        assert(pick == pick_at(picks@, views::of(out@).len() as int));
        let i = pick_member(&rest, pick);
        assert(left[i as int] == rest@[i as int]@);
        let m = rest.remove(i);
        assert(views::of(rest@) =~= left.remove(i as int));
        out.push(m);
    }
    assert(views::of(rest@).len() == 0);
}

/// Order a group randomly, with probability proportional to weight: `picks` holds a
/// number for each place, drawn below the shares that are left.
pub fn weighted_shuffle(members: &Vec<ModelEntry>, picks: &Vec<u64>) -> (r: Vec<ModelEntry>)
    ensures
        views::of(r@) == shuffled(views::of(members@), picks@, Seq::empty()),
{
    let mut out: Vec<ModelEntry> = Vec::new();
    shuffle(copy_entries(members), picks, &mut out);
    out
}

/// Priority order with a stable tiebreak, shared by `Balanced` when no election has
/// been held and by pools that have none.
fn by_priority(members: &Vec<ModelEntry>) -> (r: Vec<ModelEntry>)
    ensures
        views::of(r@) == sorting::sorted::<ModelEntry>(views::of(members@)),
{
    sort(copy_entries(members))
}

fn find_member(members: &Vec<ModelEntry>, id: &str) -> (r: Option<ModelEntry>)
    ensures
        views::opt(r) == member_from(views::of(members@), id@, 0),
{
    let ghost all = views::of(members@);
    for i in 0..members.len()
        invariant
            all == views::of(members@),
            member_from(all, id@, 0) == member_from(all, id@, i as int),
    {
        assert(all[i as int] == members@[i as int]@);
        let own = members[i].exposed_id();
        if same(own.as_str(), id) {
            return Some(members[i].clone());
        }
    }
    None
}

/// The order an election decided, for the members that still exist.
///
/// Anything the election did not see — added since, or unavailable when it ran
/// — goes after what it did, in priority order, so a new model is used but does
/// not silently take the primary slot it was never measured for.
pub fn elected_order(members: &Vec<ModelEntry>, order: &Vec<String>) -> (r: Vec<ModelEntry>)
    ensures
        views::of(r@) == elected(views::of(members@), Some(views::of(order@))),
{
    let ghost all = views::of(members@);
    let ghost ids = views::of(order@);
    let mut out: Vec<ModelEntry> = Vec::new();
    for i in 0..order.len()
        invariant
            all == views::of(members@),
            ids == views::of(order@),
            named_from(all, ids, 0, Seq::empty()) == named_from(all, ids, i as int, views::of(out@)),
    {
        assert(ids[i as int] == order@[i as int]@);
        if let Some(m) = find_member(members, order[i].as_str()) {
            out.push(m);
        }
    }
    let mut rest: Vec<ModelEntry> = Vec::new();
    for i in 0..members.len()
        invariant
            all == views::of(members@),
            ids == views::of(order@),
            unnamed_from(all, ids, 0, Seq::empty()) == unnamed_from(all, ids, i as int, views::of(rest@)),
    {
        assert(all[i as int] == members@[i as int]@);
        let own = members[i].exposed_id();
        if !is_listed(order, own.as_str()) {
            rest.push(members[i].clone());
        }
    }
    let mut rest = sort(rest);
    out.append(&mut rest);
    out
}

fn rotate(members: &Vec<ModelEntry>, start: usize) -> (r: Vec<ModelEntry>)
    requires
        start <= members@.len(),
    ensures
        views::of(r@) == rotated(views::of(members@), start as int),
{
    let ghost all = views::of(members@);
    let mut out: Vec<ModelEntry> = Vec::new();
    for i in start..members.len()
        invariant
            all == views::of(members@),
            start <= members@.len(),
            views::of(out@) == all.subrange(start as int, i as int),
    {
        out.push(members[i].clone());
        assert(all[i as int] == members@[i as int]@);
        assert(views::of(out@) =~= all.subrange(start as int, i + 1));
    }
    for i in 0..start
        invariant
            all == views::of(members@),
            start <= members@.len(),
            views::of(out@) == all.skip(start as int) + all.take(i as int),
    {
        out.push(members[i].clone());
        assert(all[i as int] == members@[i as int]@);
        assert(views::of(out@) =~= all.skip(start as int) + all.take(i + 1));
    }
    out
}

// ---------------------------------------------------------------- the router

#[derive(Debug)]
pub struct Router {
    health: Table<HealthState>,
    /// Round robin cursors, keyed by pool name (a class's virtual id, or the
    /// classifier pool) rather than by class: routing pools exist that are not a
    /// class.
    rr: Table<usize>,
    /// The last election, when one has been held. `Balanced` follows the order it
    /// decided instead of re-deciding per request, which is the whole point: a
    /// route that changes under load cannot be reasoned about.
    election: Option<Election>,
}

impl View for Router {
    type V = RouterV;

    closed spec fn view(&self) -> RouterV {
        RouterV { health: self.health@, cursors: self.rr@, election: views::opt(self.election) }
    }
}

/// What a router knows that has seen nothing.
pub open spec fn new_router() -> RouterV {
    RouterV { health: Map::empty(), cursors: Map::empty(), election: None }
}

impl Default for Router {
    fn default() -> (r: Self)
        ensures
            r@ == new_router(),
    {
        Router::new()
    }
}

/// Whether a plan and what the router then knows come from some fair draw.
pub open spec fn drawn_plan(
    before: RouterV,
    after: RouterV,
    c: ConfigV,
    resolution: ResolutionV,
    required: Seq<Capability>,
    now: u64,
    r: Result<Seq<CandidateV>, ErrorV>,
) -> bool {
    exists|picks: Seq<u64>|
        #![trigger planned(before, c, resolution, required, now, picks)]
        {
            &&& resolution matches ResolutionV::Class(class) ==> fair(
                standing_so(class_pool(c, class, required).members, before.health, now, Standing::Ready),
                c.routing.strategy,
                picks,
            )
            &&& planned(before, c, resolution, required, now, picks) == (r, after)
        }
}

/// Whether a classifier plan and what the router then knows come from some fair
/// draw.
pub open spec fn drawn_classifier_plan(
    before: RouterV,
    after: RouterV,
    c: ConfigV,
    cc: ClassifierV,
    now: u64,
    r: Result<Seq<CandidateV>, ErrorV>,
) -> bool {
    exists|picks: Seq<u64>|
        #![trigger classifier_plan(before, c, cc, now, picks)]
        {
            &&& fair(
                standing_so(classifier_pool(c, cc).members, before.health, now, Standing::Ready),
                cc.strategy,
                picks,
            )
            &&& classifier_plan(before, c, cc, now, picks) == (r, after)
        }
}

impl Router {
    pub fn new() -> (r: Router)
        ensures
            r@ == new_router(),
    {
        Router { health: Table::new(), rr: Table::new(), election: None }
    }

    /// The models of a pool that stand so.
    fn with_standing(&self, members: &Vec<ModelEntry>, now: u64, how: Standing) -> (r: Vec<ModelEntry>)
        ensures
            views::of(r@) == standing_so(views::of(members@), self@.health, now, how),
            r@.len() <= members@.len(),
    {
        let ghost all = views::of(members@);
        let ghost health = self@.health;
        let mut out: Vec<ModelEntry> = Vec::new();
        for i in 0..members.len()
            invariant
                all == views::of(members@),
                health == self@.health,
                out@.len() <= i,
                standing_so(all, health, now, how) == standing_from(
                    all,
                    health,
                    now,
                    how,
                    i as int,
                    views::of(out@),
                ),
        {
            assert(all[i as int] == members@[i as int]@);
            let id = members[i].exposed_id();
            if self.stands(id.as_str(), now) == how {
                out.push(members[i].clone());
            }
        }
        out
    }

    fn stands(&self, id: &str, now: u64) -> (r: Standing)
        ensures
            r == standing(self@.health, id@, now),
    {
        match self.health.get(id) {
            Some(h) => match h.breaker.state {
                CircuitState::Closed => Standing::Ready,
                CircuitState::HalfOpen => Standing::Probe,
                // An open circuit that has waited out its timeout is eligible for
                // a half-open probe; it is still degraded.
                CircuitState::Open => {
                    if h.breaker.can_probe(now) {
                        Standing::Probe
                    } else {
                        Standing::Out
                    }
                },
            },
            None => Standing::Ready,
        }
    }

    fn by_latency(&self, members: &Vec<ModelEntry>) -> (r: Vec<ModelEntry>)
        ensures
            views::of(r@) == untimed(sorting::sorted::<Timed>(timed(views::of(members@), self@.health))),
    {
        let ghost all = views::of(members@);
        let mut list: Vec<Timed> = Vec::new();
        for i in 0..members.len()
            invariant
                all == views::of(members@),
                list@.len() == i,
                forall|j: int| 0 <= j < i ==> (#[trigger] list@[j])@ == timed(all, self@.health)[j],
        {
            assert(all[i as int] == members@[i as int]@);
            let id = members[i].exposed_id();
            // Unmeasured models sort first so they get probed.
            let rank = match self.health.get(id.as_str()) {
                Some(h) => h.latency_rank,
                None => 0,
            };
            list.push(Timed { rank, entry: members[i].clone() });
        }
        assert(views::of(list@) =~= timed(all, self@.health));
        let list = sort(list);
        let ghost done = views::of(list@);
        let mut out: Vec<ModelEntry> = Vec::new();
        for i in 0..list.len()
            invariant
                done == views::of(list@),
                out@.len() == i,
                forall|j: int| 0 <= j < i ==> (#[trigger] out@[j])@ == done[j].entry,
        {
            assert(done[i as int] == list@[i as int]@);
            out.push(list[i].entry.clone());
        }
        assert(views::of(out@) =~= untimed(done));
        out
    }

    /// Put the healthy members of a pool in order.
    pub fn order(
        &mut self,
        members: &Vec<ModelEntry>,
        counter_key: &str,
        election_class: Option<ModelClass>,
        strategy: RoutingStrategy,
        picks: &Vec<u64>,
    ) -> (r: Vec<ModelEntry>)
        ensures
            views::of(r@) == ordered(
                old(self)@,
                views::of(members@),
                counter_key@,
                election_class,
                strategy,
                picks@,
            ),
            final(self)@ == after_ordering(old(self)@, views::of(members@), counter_key@, strategy),
    {
        assert(views::of(members@).len() == members@.len());
        if members.len() <= 1 {
            return copy_entries(members);
        }
        match strategy {
            // Elections are held per class; a pool that has none (the classifier
            // pool) falls back to priority, which is what the user configured.
            RoutingStrategy::Balanced => match election_class {
                Some(class) => match &self.election {
                    Some(e) => match e.order_for(class) {
                        Some(ids) => elected_order(members, ids),
                        None => by_priority(members),
                    },
                    None => by_priority(members),
                },
                None => by_priority(members),
            },
            RoutingStrategy::Priority => {
                let all = group(members);
                let ghost gs = views::of(all@);
                let mut out: Vec<ModelEntry> = Vec::new();
                for i in 0..all.len()
                    invariant
                        gs == views::of(all@),
                        shuffled_groups(gs, picks@, 0, Seq::empty()) == shuffled_groups(
                            gs,
                            picks@,
                            i as int,
                            views::of(out@),
                        ),
                {
                    assert(gs[i as int] == all@[i as int]@);
                    shuffle(copy_entries(&all[i].members), picks, &mut out);
                }
                out
            },
            RoutingStrategy::WeightedRandom => weighted_shuffle(members, picks),
            RoutingStrategy::RoundRobin => {
                let turn = match self.rr.get(counter_key) {
                    Some(n) => *n,
                    None => 0,
                };
                let start = turn % members.len();
                let next = if turn == usize::MAX {
                    0
                } else {
                    turn + 1
                };
                self.rr.put(counter_key, next);
                rotate(members, start)
            },
            RoutingStrategy::LowestLatency => self.by_latency(members),
        }
    }

    /// Turn a pool of models into an ordered list of attempts, applying health,
    /// circuit breakers, the strategy's ordering, failover and the attempt cap.
    ///
    /// Every routing pool shares this one implementation, so a candidate means the
    /// same thing wherever it came from: health filtering, degraded marking and
    /// failover cannot drift between pools.
    pub fn plan_candidates(&mut self, registry: &Registry, pool: &Pool, now: u64, picks: &Vec<u64>) -> (r: Result<
        Vec<Candidate>,
        Error,
    >)
        ensures
            pool_plan(old(self)@, registry@, pool@, now, picks@) == (error::outcomes(r), final(self)@),
    {
        let closed = self.with_standing(&pool.members, now, Standing::Ready);
        let probes = self.with_standing(&pool.members, now, Standing::Probe);
        let mut queue = self.order(&closed, pool.name.as_str(), pool.class, pool.strategy, picks);
        let ghost ready = views::of(queue@);
        let ghost later = views::of(probes@);
        let mut degraded: Vec<String> = Vec::new();
        assert(ready.len() == queue@.len());
        if queue.len() == 0 || pool.failover {
            // Half-open candidates are allowed but treated as degraded.
            for i in 0..probes.len()
                invariant
                    later == views::of(probes@),
                    views::of(queue@) == ready + later.take(i as int),
                    views::of(degraded@) == ids_of(later).take(i as int),
            {
                assert(later[i as int] == probes@[i as int]@);
                degraded.push(probes[i].exposed_id());
                queue.push(probes[i].clone());
                assert(ready + later.take(i + 1) =~= (ready + later.take(i as int)).push(later[i as int]));
                assert(ids_of(later).take(i + 1) =~= ids_of(later).take(i as int).push(ids_of(later)[i as int]));
            }
            assert(later.take(later.len() as int) =~= later);
            assert(ids_of(later).take(later.len() as int) =~= ids_of(later));
        }
        let limit: u32 = if pool.failover && pool.max_attempts > 1 {
            pool.max_attempts
        } else {
            1
        };
        let ghost all = views::of(queue@);
        let ghost marked = views::of(degraded@);
        let mut out: Vec<Candidate> = Vec::new();
        let mut i: usize = 0;
        while i < queue.len() && (out.len() as u64) < limit as u64
            invariant
                all == views::of(queue@),
                marked == views::of(degraded@),
                i <= queue@.len(),
                out@.len() == i,
                limit == attempt_limit(pool@),
                attempts_from(registry@, all, marked, limit as int, 0, Seq::empty()) == attempts_from(
                    registry@,
                    all,
                    marked,
                    limit as int,
                    i as int,
                    views::of(out@),
                ),
                pool_plan(old(self)@, registry@, pool@, now, picks@).1 == self@,
                pool_plan(old(self)@, registry@, pool@, now, picks@).0 == pool_attempts(
                    registry@,
                    pool@,
                    ready,
                    later,
                ),
                all == (if ready.len() == 0 || pool@.failover {
                    ready + later
                } else {
                    ready
                }),
                marked == (if ready.len() == 0 || pool@.failover {
                    ids_of(later)
                } else {
                    Seq::<Seq<char>>::empty()
                }),
            decreases queue@.len() - i,
        {
            assert(all[i as int] == queue@[i as int]@);
            match registry.provider_of(&queue[i]) {
                Ok(p) => {
                    let id = queue[i].exposed_id();
                    let is_degraded = is_listed(&degraded, id.as_str());
                    out.push(Candidate::new(&queue[i], p, is_degraded));
                },
                Err(e) => {
                    return Err(e);
                },
            }
            i = i + 1;
        }
        assert(views::of(out@).len() == out@.len());
        if out.len() == 0 {
            return Err(Error::NoCandidate(pool.name.clone()));
        }
        Ok(out)
    }
}

/// Check if a model's capabilities satisfy the request's requirements.
///
/// Every listed capability must be present on the model.
pub fn satisfies_capabilities(model: &ModelEntry, required: &Vec<Capability>) -> (r: bool)
    ensures
        r == satisfies(model@, required@),
{
    for i in 0..required.len()
        invariant
            forall|j: int| 0 <= j < i ==> model@.supports(#[trigger] required@[j]),
    {
        if !model.supports(required[i]) {
            return false;
        }
    }
    true
}

/// Exclude models whose declared capabilities do not satisfy the request's
/// requirements. Soft fallback: if no candidate survives, keep the original list so
/// the request is not rejected for a missing capability declaration alone.
fn filter_capable(members: Vec<ModelEntry>, required: &Vec<Capability>) -> (r: Vec<ModelEntry>)
    ensures
        views::of(r@) == capable(views::of(members@), required@),
        r@.len() <= members@.len(),
{
    let ghost all = views::of(members@);
    let mut out: Vec<ModelEntry> = Vec::new();
    for i in 0..members.len()
        invariant
            all == views::of(members@),
            out@.len() <= i,
            satisfying_from(all, required@, 0, Seq::empty()) == satisfying_from(
                all,
                required@,
                i as int,
                views::of(out@),
            ),
    {
        assert(all[i as int] == members@[i as int]@);
        if satisfies_capabilities(&members[i], required) {
            out.push(members[i].clone());
        }
    }
    assert(views::of(out@).len() == out@.len());
    if out.len() == 0 {
        members
    } else {
        out
    }
}

proof fn members_are_models(c: ConfigV, class: ModelClass, i: int, sofar: Seq<EntryV>)
    requires
        0 <= i <= c.models.len(),
    ensures
        registry::members_from(c, class, i, sofar).len() <= sofar.len() + c.models.len() - i,
    decreases c.models.len() - i,
{
    if i < c.models.len() {
        members_are_models(c, class, i + 1, sofar);
        members_are_models(c, class, i + 1, sofar.push(c.models[i]));
    }
}

/// The pool of a class, unless the class has no member.
fn pool_of_class(registry: &Registry, class: ModelClass, required: &Vec<Capability>) -> (r: Result<Pool, Error>)
    ensures
        match r {
            Ok(pool) => pool@ == class_pool(registry@, class, required@) && registry::members(
                registry@,
                class,
            ).len() > 0 && pool.members@.len() <= registry@.models.len(),
            Err(e) => e@ == ErrorV::NoCandidate(class.id()) && registry::members(registry@, class).len() == 0,
        },
{
    let found = registry.class_members(class);
    let ghost all = views::of(found@);
    proof {
        members_are_models(registry@, class, 0, Seq::empty());
        sorting::sorting_keeps_items::<ModelEntry>(
            registry::members_from(registry@, class, 0, Seq::empty()),
        );
    }
    assert(all.len() == found@.len());
    if found.len() == 0 {
        return Err(Error::NoCandidate(class.virtual_id().to_owned()));
    }
    let mut members: Vec<ModelEntry> = Vec::new();
    for i in 0..found.len()
        invariant
            members@.len() == i,
            forall|j: int| 0 <= j < i ==> (#[trigger] members@[j])@ == found@[j]@,
    {
        members.push(found[i].clone());
    }
    assert(views::of(members@) =~= all);
    let routing = &registry.config().routing;
    if routing.capability_filter && required.len() > 0 {
        members = filter_capable(members, required);
    }
    Ok(
        Pool {
            name: class.virtual_id().to_owned(),
            members,
            class: Some(class),
            strategy: routing.strategy,
            failover: routing.failover,
            max_attempts: routing.max_attempts,
        },
    )
}

/// The classifier pool, unless it has no usable member.
fn pool_of_classifier(registry: &Registry, config: &ClassifierConfig) -> (r: Result<Pool, Error>)
    ensures
        match r {
            Ok(pool) => pool@ == classifier_pool(registry@, config@) && pool.members@.len() > 0
                && pool.members@.len() <= config.candidates@.len(),
            Err(e) => e@ == ErrorV::NoCandidate("classifier"@) && classifier_pool(
                registry@,
                config@,
            ).members.len() == 0,
        },
{
    let ghost list = views::of(config.candidates@);
    let mut members: Vec<ModelEntry> = Vec::new();
    for i in 0..config.candidates.len()
        invariant
            list == views::of(config.candidates@),
            members@.len() <= i,
            pool_from(registry@, list, 0, Seq::empty()) == pool_from(
                registry@,
                list,
                i as int,
                views::of(members@),
            ),
    {
        let candidate = &config.candidates[i];
        assert(list[i as int] == candidate@);
        if candidate.enabled {
            if let Ok(found) = registry.entry(candidate.model.as_str()) {
                if found.enabled && registry.config().provider_in_use(found.provider_id.as_str()) {
                    // The pool's own priority orders the candidate here, not the
                    // model's class priority: a model can be last in its class and
                    // first in the classifier pool.
                    members.push(found.clone().with_priority(candidate.priority));
                }
            }
        }
    }
    assert(views::of(members@).len() == members@.len());
    if members.len() == 0 {
        return Err(Error::NoCandidate("classifier".to_owned()));
    }
    Ok(
        Pool {
            name: "classifier".to_owned(),
            members,
            class: None,
            strategy: config.strategy,
            failover: config.failover,
            max_attempts: config.max_attempts,
        },
    )
}

/// The plan for one model.
fn plan_direct(registry: &Registry, id: &str) -> (r: Result<Vec<Candidate>, Error>)
    ensures
        error::outcomes(r) == direct_plan(registry@, id@),
{
    let entry = match registry.entry(id) {
        Ok(entry) => entry,
        Err(e) => {
            return Err(e);
        },
    };
    let provider = match registry.provider_of(entry) {
        Ok(provider) => provider,
        Err(e) => {
            return Err(e);
        },
    };
    if !provider.enabled {
        return Err(Error::UnknownModel(concat(id, " (provider disabled)")));
    }
    let mut out: Vec<Candidate> = Vec::new();
    out.push(Candidate::new(entry, provider, false));
    Ok(out)
}

impl Router {
    /// Build the ordered list of attempts for a resolved model id, with the picks
    /// for the strategies that draw.
    pub fn plan_with(
        &mut self,
        registry: &Registry,
        resolution: &Resolution,
        required_capabilities: &Vec<Capability>,
        now: u64,
        picks: &Vec<u64>,
    ) -> (r: Result<Vec<Candidate>, Error>)
        ensures
            planned(old(self)@, registry@, resolution@, required_capabilities@, now, picks@) == (
                error::outcomes(r),
                final(self)@,
            ),
    {
        match resolution {
            Resolution::Direct(id) => plan_direct(registry, id.as_str()),
            Resolution::Class(class) => match pool_of_class(registry, *class, required_capabilities) {
                Ok(pool) => self.plan_candidates(registry, &pool, now, picks),
                Err(e) => Err(e),
            },
        }
    }

    /// Build the ordered list of attempts for a resolved model id.
    pub fn plan(
        &mut self,
        registry: &Registry,
        resolution: &Resolution,
        required_capabilities: &Vec<Capability>,
        now: u64,
    ) -> (r: Result<Vec<Candidate>, Error>)
        requires
            registry@.models.len() <= 0xffff_ffff,
        ensures
            drawn_plan(
                old(self)@,
                final(self)@,
                registry@,
                resolution@,
                required_capabilities@,
                now,
                error::outcomes(r),
            ),
    {
        let ghost before = self@;
        match resolution {
            Resolution::Direct(id) => {
                let r = plan_direct(registry, id.as_str());
                assert(planned(before, registry@, resolution@, required_capabilities@, now, Seq::empty()) == (
                    error::outcomes(r),
                    self@,
                ));
                r
            },
            Resolution::Class(class) => match pool_of_class(registry, *class, required_capabilities) {
                Ok(pool) => {
                    let ready = self.with_standing(&pool.members, now, Standing::Ready);
                    let picks = draw_picks(&ready, pool.strategy);
                    let r = self.plan_candidates(registry, &pool, now, &picks);
                    assert(planned(before, registry@, resolution@, required_capabilities@, now, picks@) == (
                        error::outcomes(r),
                        self@,
                    ));
                    r
                },
                Err(e) => {
                    let r: Result<Vec<Candidate>, Error> = Err(e);
                    proof {
                        let pool = class_pool(registry@, *class, required_capabilities@);
                        no_member_stands(pool.members, before.health, now);
                        assert(fair(Seq::empty(), pool.strategy, Seq::empty())) by {
                            empty_is_fair(pool.strategy);
                        }
                        assert(planned(
                            before,
                            registry@,
                            resolution@,
                            required_capabilities@,
                            now,
                            Seq::empty(),
                        ) == (error::outcomes(r), self@));
                    }
                    r
                },
            },
        }
    }

    /// Build the ordered attempts for an Auto Mode classifier request, with the
    /// picks for the strategies that draw.
    pub fn plan_classifier_with(
        &mut self,
        registry: &Registry,
        config: &ClassifierConfig,
        now: u64,
        picks: &Vec<u64>,
    ) -> (r: Result<Vec<Candidate>, Error>)
        ensures
            classifier_plan(old(self)@, registry@, config@, now, picks@) == (error::outcomes(r), final(self)@),
    {
        match pool_of_classifier(registry, config) {
            Ok(pool) => self.plan_candidates(registry, &pool, now, picks),
            Err(e) => Err(e),
        }
    }

    /// Build the ordered attempts for an Auto Mode classifier request.
    ///
    /// The pool is a selection of existing models, so candidates reuse the
    /// registry's identity: provider, secret, protocol, pricing and the *same*
    /// health state a main request sees. A provider that is open is open for both;
    /// there is deliberately no separate "classifier health", because the model does
    /// not get sicker depending on who asked.
    ///
    /// Candidates name models by exposed id or alias. Unknown or disabled
    /// references are skipped here rather than failing the plan: one stale entry must
    /// not take the whole classifier pool down.
    pub fn plan_classifier(&mut self, registry: &Registry, config: &ClassifierConfig, now: u64) -> (r: Result<
        Vec<Candidate>,
        Error,
    >)
        requires
            config@.candidates.len() <= 0xffff_ffff,
        ensures
            drawn_classifier_plan(
                old(self)@,
                final(self)@,
                registry@,
                config@,
                now,
                error::outcomes(r),
            ),
    {
        let ghost before = self@;
        match pool_of_classifier(registry, config) {
            Ok(pool) => {
                let ready = self.with_standing(&pool.members, now, Standing::Ready);
                let picks = draw_picks(&ready, pool.strategy);
                let r = self.plan_candidates(registry, &pool, now, &picks);
                assert(classifier_plan(before, registry@, config@, now, picks@) == (error::outcomes(r), self@));
                r
            },
            Err(e) => {
                let r: Result<Vec<Candidate>, Error> = Err(e);
                proof {
                    let pool = classifier_pool(registry@, config@);
                    no_member_stands(pool.members, before.health, now);
                    empty_is_fair(pool.strategy);
                    assert(classifier_plan(before, registry@, config@, now, Seq::empty()) == (
                        error::outcomes(r),
                        self@,
                    ));
                }
                r
            },
        }
    }

    /// Record an election. The order it decided is used until the next one.
    pub fn set_election(&mut self, election: Election)
        ensures
            final(self)@ == (RouterV { election: Some(election@), ..old(self)@ }),
    {
        self.election = Some(election);
    }

    pub fn election(&self) -> (r: Option<Election>)
        ensures
            views::opt(r) == self@.election,
    {
        match &self.election {
            Some(e) => Some(e.clone()),
            None => None,
        }
    }

    /// Whether the counters of a model have room for one call more.
    pub fn has_room(&self, model_id: &str) -> (r: bool)
        ensures
            r == self@.has_room(model_id@),
    {
        match self.health.get(model_id) {
            Some(h) => h.total_success < u64::MAX && h.total_failure < u64::MAX,
            None => true,
        }
    }

    /// Record a successful call. `latency_rank` orders the models by the average
    /// latency of their successful calls, this one counted.
    pub fn report_success(&mut self, model_id: &str, latency_rank: u64, routing: &RoutingConfig)
        requires
            old(self)@.has_room(model_id@),
        ensures
            final(self)@ == old(self)@.succeeded(model_id@, latency_rank, routing.circuit_breaker),
    {
        let ghost before = self@.health;
        let mut h = match self.health.take(model_id) {
            Some(h) => h,
            None => HealthState::new(routing.circuit_breaker),
        };
        h.breaker.record_success();
        h.total_success = h.total_success + 1;
        h.last_error = None;
        h.latency_rank = latency_rank;
        self.health.put(model_id, h);
        assert(self@.health =~= before.insert(model_id@, h@));
    }

    /// Record a failed call, where it says something of the model's health.
    pub fn report_failure(&mut self, model_id: &str, error: &Error, routing: &RoutingConfig, now: u64)
        requires
            old(self)@.has_room(model_id@),
        ensures
            final(self)@ == old(self)@.failed(model_id@, error@, routing.circuit_breaker, now),
    {
        if !error.counts_against_health() {
            return;
        }
        let ghost before = self@.health;
        let mut h = match self.health.take(model_id) {
            Some(h) => h,
            None => HealthState::new(routing.circuit_breaker),
        };
        h.breaker.record_failure(now);
        h.total_failure = h.total_failure + 1;
        // The GUI shows this string in the health table; the unredacted body
        // stays in the log where it belongs.
        h.last_error = Some(error.safe_message());
        self.health.put(model_id, h);
        assert(self@.health =~= before.insert(model_id@, h@));
    }

    /// Whether a request may actually be sent to this model.
    ///
    /// It is called by the pipeline right before an upstream send, so half-open
    /// probes are limited to one in flight per model.
    pub fn allow_request(&mut self, model_id: &str, now: u64) -> (r: bool)
        ensures
            (r, final(self)@) == old(self)@.passed(model_id@, now),
    {
        let ghost before = self@.health;
        match self.health.take(model_id) {
            Some(h) => {
                let mut h = h;
                let ok = h.breaker.allow_request(now);
                self.health.put(model_id, h);
                assert(self@.health =~= before.insert(model_id@, h@));
                ok
            },
            // Models without health data are new and therefore closed.
            None => {
                assert(self@.health =~= before);
                true
            },
        }
    }

    /// Release a half-open probe permit after a rectifier retry.
    pub fn release_half_open_permit(&mut self, model_id: &str)
        ensures
            final(self)@ == old(self)@.released(model_id@),
    {
        let ghost before = self@.health;
        match self.health.take(model_id) {
            Some(h) => {
                let mut h = h;
                h.breaker.release_half_open_permit();
                self.health.put(model_id, h);
                assert(self@.health =~= before.insert(model_id@, h@));
            },
            None => {
                assert(self@.health =~= before);
            },
        }
    }

    /// Clear circuit breaker state for one model (GUI "retry now").
    pub fn reset(&mut self, model_id: &str)
        ensures
            final(self)@ == old(self)@.reset(model_id@),
    {
        let ghost before = self@.health;
        match self.health.take(model_id) {
            Some(h) => {
                let mut h = h;
                h.breaker.reset();
                h.last_error = None;
                self.health.put(model_id, h);
                assert(self@.health =~= before.insert(model_id@, h@));
            },
            None => {
                assert(self@.health =~= before);
            },
        }
    }

    /// Drop health entries for models that no longer exist.
    ///
    /// Called when the configuration changes: without this the map only ever
    /// grew, and entries for deleted models kept showing up in the GUI snapshot
    /// for as long as the process lived. History that still matters survives —
    /// a re-added model id simply starts fresh, like a new install would.
    pub fn retain_models(&mut self, known: &Vec<String>)
        ensures
            final(self)@ == (RouterV {
                health: old(self)@.health.restrict(
                    Set::new(|id: Seq<char>| text::listed(views::of(known@), id)),
                ),
                ..old(self)@
            }),
    {
        let ghost before = self@;
        let ghost names = views::of(known@);
        let keys = self.health.keys();
        let ghost all = views::of(keys@);
        for i in 0..keys.len()
            invariant
                all == views::of(keys@),
                names == views::of(known@),
                table::keys_of(before.health, all),
                self@.cursors == before.cursors,
                self@.election == before.election,
                forall|id: Seq<char>|
                    #[trigger] self@.health.contains_key(id) <==> before.health.contains_key(id) && (text::listed(
                        names,
                        id,
                    ) || !all.take(i as int).contains(id)),
                forall|id: Seq<char>| #[trigger]
                    self@.health.contains_key(id) ==> self@.health[id] == before.health[id],
        {
            assert(all[i as int] == keys@[i as int]@);
            let ghost sofar = self@.health;
            if !is_listed(known, keys[i].as_str()) {
                let _gone = self.health.take(keys[i].as_str());
            }
            proof {
                assert(all.take(i + 1) =~= all.take(i as int).push(all[i as int]));
                assert forall|id: Seq<char>| all.take(i + 1).contains(id) == (all.take(i as int).contains(id) || id
                    == all[i as int]) by {
                    if all.take(i as int).contains(id) {
                        let k = choose|k: int| 0 <= k < i && all.take(i as int)[k] == id;
                        assert(all.take(i + 1)[k] == id);
                    }
                    if id == all[i as int] {
                        assert(all.take(i + 1)[i as int] == id);
                    }
                }
            }
        }
        assert(all.take(all.len() as int) =~= all);
        assert(self@.health =~= before.health.restrict(
            Set::new(|id: Seq<char>| text::listed(views::of(known@), id)),
        ));
    }

    pub fn is_cooling(&self, model_id: &str) -> (r: bool)
        ensures
            r == (self@.health.contains_key(model_id@) && self@.health[model_id@].breaker.state
                == CircuitState::Open),
    {
        match self.health.get(model_id) {
            Some(h) => h.breaker.state == CircuitState::Open,
            None => false,
        }
    }

    /// The health of every model that is known of, by id.
    pub fn health_snapshot(&self, now: u64) -> (r: Vec<ModelHealth>)
        ensures
            table::keys_of(self@.health, Seq::new(r@.len(), |i: int| r@[i].model_id@)),
            forall|i: int|
                0 <= i < r@.len() ==> (#[trigger] r@[i])@ == shown(
                    r@[i].model_id@,
                    self@.health[r@[i].model_id@],
                    now,
                ),
    {
        let keys = self.health.keys();
        let ghost all = views::of(keys@);
        let mut out: Vec<ModelHealth> = Vec::new();
        for i in 0..keys.len()
            invariant
                all == views::of(keys@),
                table::keys_of(self@.health, all),
                out@.len() == i,
                forall|j: int| 0 <= j < i ==> (#[trigger] out@[j]).model_id@ == all[j],
                forall|j: int|
                    0 <= j < i ==> (#[trigger] out@[j])@ == shown(all[j], self@.health[all[j]], now),
        {
            assert(all[i as int] == keys@[i as int]@);
            assert(self@.health.contains_key(all[i as int]));
            if let Some(h) = self.health.get(keys[i].as_str()) {
                let last_error = match &h.last_error {
                    Some(e) => Some(e.clone()),
                    None => None,
                };
                out.push(
                    ModelHealth {
                        model_id: keys[i].clone(),
                        state: h.breaker.state,
                        consecutive_failures: h.breaker.failures,
                        total_success: h.total_success,
                        total_failure: h.total_failure,
                        latency_rank: h.latency_rank,
                        cooldown_remaining_secs: h.breaker.open_remaining_secs(now),
                        last_error,
                    },
                );
            }
        }
        assert(Seq::new(out@.len(), |i: int| out@[i].model_id@) =~= all);
        out
    }
}

proof fn no_member_stands(members: Seq<EntryV>, health: Map<Seq<char>, HealthV>, now: u64)
    ensures
        members.len() == 0 ==> standing_so(members, health, now, Standing::Ready) == Seq::<EntryV>::empty(),
{
}

proof fn empty_is_fair(strategy: RoutingStrategy)
    ensures
        fair(Seq::empty(), strategy, Seq::empty()),
{
    let g = groups_from(Seq::empty(), 0, Seq::empty());
    assert(g =~= Seq::empty());
    assert(groups(Seq::empty()) =~= Seq::empty());
}

// ---------------------------------------------------------------------- laws

/// A shuffle keeps every model as often as it was there, whatever the picks.
pub proof fn shuffling_keeps_models(pool: Seq<EntryV>, picks: Seq<u64>, done: Seq<EntryV>)
    ensures
        shuffled(pool, picks, done).to_multiset() == done.to_multiset().add(pool.to_multiset()),
    decreases pool.len(),
{
    if pool.len() == 0 {
        pool.to_multiset_ensures();
        assert forall|m: EntryV| pool.to_multiset().count(m) == 0 by {
            assert(!pool.contains(m));
        }
        assert(done.to_multiset().add(pool.to_multiset()) =~= done.to_multiset());
    } else {
        let i = falls_on(pool, pick_at(picks, done.len() as int), 0);
        falls_inside(pool, pick_at(picks, done.len() as int), 0);
        shuffling_keeps_models(pool.remove(i), picks, done.push(pool[i]));
        pool.to_multiset_ensures();
        done.to_multiset_ensures();
        assert(pool.remove(i).to_multiset() =~= pool.to_multiset().remove(pool[i]));
        assert(done.push(pool[i]).to_multiset() =~= done.to_multiset().insert(pool[i]));
        assert(pool.to_multiset().count(pool[i]) > 0) by {
            assert(pool.contains(pool[i]));
        }
        assert(done.to_multiset().insert(pool[i]).add(pool.to_multiset().remove(pool[i])) =~= done.to_multiset().add(
            pool.to_multiset(),
        ));
    }
}

proof fn same_counts_same_members<T>(a: Seq<T>, b: Seq<T>, x: T)
    requires
        a.to_multiset() == b.to_multiset(),
    ensures
        a.contains(x) == b.contains(x),
{
    a.to_multiset_ensures();
    b.to_multiset_ensures();
    assert(a.contains(x) <==> a.to_multiset().count(x) > 0);
    assert(b.contains(x) <==> b.to_multiset().count(x) > 0);
}

proof fn shuffled_contains(pool: Seq<EntryV>, picks: Seq<u64>, done: Seq<EntryV>, m: EntryV)
    ensures
        shuffled(pool, picks, done).contains(m) == (done.contains(m) || pool.contains(m)),
{
    shuffling_keeps_models(pool, picks, done);
    let s = shuffled(pool, picks, done);
    s.to_multiset_ensures();
    done.to_multiset_ensures();
    pool.to_multiset_ensures();
    assert(s.contains(m) <==> s.to_multiset().count(m) > 0);
    assert(done.contains(m) <==> done.to_multiset().count(m) > 0);
    assert(pool.contains(m) <==> pool.to_multiset().count(m) > 0);
}

spec fn in_groups(groups: Seq<GroupV>, from: int, m: EntryV) -> bool {
    exists|k: int| from <= k < groups.len() && (#[trigger] groups[k]).members.contains(m)
}

proof fn pushed_contains(s: Seq<EntryV>, x: EntryV, m: EntryV)
    ensures
        s.push(x).contains(m) == (s.contains(m) || m == x),
{
    if s.contains(m) {
        let k = choose|k: int| 0 <= k < s.len() && s[k] == m;
        assert(s.push(x)[k] == m);
    }
    if m == x {
        assert(s.push(x)[s.len() as int] == m);
    }
}

proof fn skipped_contains(members: Seq<EntryV>, i: int, m: EntryV)
    requires
        0 <= i < members.len(),
    ensures
        members.skip(i).contains(m) == (m == members[i] || members.skip(i + 1).contains(m)),
{
    let a = members.skip(i);
    let b = members.skip(i + 1);
    if b.contains(m) {
        let k = choose|k: int| 0 <= k < b.len() && b[k] == m;
        assert(a[k + 1] == m);
    }
    if m == members[i] {
        assert(a[0] == m);
    }
    if a.contains(m) {
        let k = choose|k: int| 0 <= k < a.len() && a[k] == m;
        if k > 0 {
            assert(b[k - 1] == m);
        }
    }
}

proof fn grouping_contains(members: Seq<EntryV>, i: int, sofar: Seq<GroupV>, m: EntryV)
    requires
        0 <= i <= members.len(),
    ensures
        in_groups(groups_from(members, i, sofar), 0, m) == (in_groups(sofar, 0, m) || members.skip(i).contains(m)),
    decreases members.len() - i,
{
    if i < members.len() {
        let next = grouped_with(sofar, members[i]);
        grouping_contains(members, i + 1, next, m);
        skipped_contains(members, i, m);
        assert(in_groups(next, 0, m) == (in_groups(sofar, 0, m) || m == members[i])) by {
            if sofar.len() > 0 && sofar.last().priority == members[i].priority {
                pushed_contains(sofar.last().members, members[i], m);
                if in_groups(sofar, 0, m) {
                    let k = choose|k: int| 0 <= k < sofar.len() && (#[trigger] sofar[k]).members.contains(m);
                    assert(next[k].members.contains(m));
                }
                if m == members[i] {
                    assert(next[sofar.len() - 1].members.contains(m));
                }
                if in_groups(next, 0, m) {
                    let k = choose|k: int| 0 <= k < next.len() && (#[trigger] next[k]).members.contains(m);
                    if k < sofar.len() - 1 {
                        assert(sofar[k].members.contains(m));
                    } else if sofar.last().members.contains(m) {
                        assert(sofar[sofar.len() - 1].members.contains(m));
                    }
                }
            } else {
                pushed_contains(Seq::empty(), members[i], m);
                if in_groups(sofar, 0, m) {
                    let k = choose|k: int| 0 <= k < sofar.len() && (#[trigger] sofar[k]).members.contains(m);
                    assert(next[k].members.contains(m));
                }
                if m == members[i] {
                    assert(next[sofar.len() as int].members.contains(m));
                }
                if in_groups(next, 0, m) {
                    let k = choose|k: int| 0 <= k < next.len() && (#[trigger] next[k]).members.contains(m);
                    if k < sofar.len() {
                        assert(sofar[k].members.contains(m));
                    }
                }
            }
        }
    } else {
        assert(members.skip(i) =~= Seq::empty());
    }
}

proof fn shuffled_groups_contain(groups: Seq<GroupV>, picks: Seq<u64>, i: int, done: Seq<EntryV>, m: EntryV)
    requires
        0 <= i <= groups.len(),
    ensures
        shuffled_groups(groups, picks, i, done).contains(m) == (done.contains(m) || in_groups(groups, i, m)),
    decreases groups.len() - i,
{
    if i < groups.len() {
        shuffled_groups_contain(groups, picks, i + 1, shuffled(groups[i].members, picks, done), m);
        shuffled_contains(groups[i].members, picks, done, m);
        assert(in_groups(groups, i, m) == (groups[i].members.contains(m) || in_groups(groups, i + 1, m)));
    }
}

proof fn groups_contain(members: Seq<EntryV>, m: EntryV)
    ensures
        in_groups(groups(members), 0, m) == members.contains(m),
{
    let s = sorting::sorted::<ModelEntry>(members);
    grouping_contains(s, 0, Seq::empty(), m);
    assert(s.skip(0) =~= s);
    sorting::sorting_keeps_items::<ModelEntry>(members);
    same_counts_same_members(members, s, m);
}

proof fn member_from_is_member(members: Seq<EntryV>, id: Seq<char>, i: int)
    requires
        0 <= i,
    ensures
        member_from(members, id, i) matches Some(m) ==> members.contains(m) && m.exposed_id() == id,
    decreases members.len() - i,
{
    if i < members.len() {
        if members[i].exposed_id() == id {
            assert(members.contains(members[i]));
        } else {
            member_from_is_member(members, id, i + 1);
        }
    }
}

proof fn named_are_members(members: Seq<EntryV>, order: Seq<Seq<char>>, i: int, sofar: Seq<EntryV>, m: EntryV)
    requires
        0 <= i,
    ensures
        named_from(members, order, i, sofar).contains(m) ==> sofar.contains(m) || (members.contains(m) && text::listed(
            order,
            m.exposed_id(),
        )),
    decreases order.len() - i,
{
    if i < order.len() {
        member_from_is_member(members, order[i], 0);
        match member_from(members, order[i], 0) {
            Some(x) => {
                pushed_contains(sofar, x, m);
                named_are_members(members, order, i + 1, sofar.push(x), m);
            },
            None => {
                named_are_members(members, order, i + 1, sofar, m);
            },
        }
    }
}

proof fn unnamed_are_members(members: Seq<EntryV>, order: Seq<Seq<char>>, i: int, sofar: Seq<EntryV>, m: EntryV)
    requires
        0 <= i <= members.len(),
    ensures
        unnamed_from(members, order, i, sofar).contains(m) == (sofar.contains(m) || (members.skip(i).contains(m)
            && !text::listed(order, m.exposed_id()))),
    decreases members.len() - i,
{
    if i < members.len() {
        skipped_contains(members, i, m);
        if text::listed(order, members[i].exposed_id()) {
            unnamed_are_members(members, order, i + 1, sofar, m);
        } else {
            pushed_contains(sofar, members[i], m);
            unnamed_are_members(members, order, i + 1, sofar.push(members[i]), m);
        }
    } else {
        assert(members.skip(i) =~= Seq::empty());
    }
}

proof fn sorted_contains(members: Seq<EntryV>, m: EntryV)
    ensures
        sorting::sorted::<ModelEntry>(members).contains(m) == members.contains(m),
{
    sorting::sorting_keeps_items::<ModelEntry>(members);
    same_counts_same_members(sorting::sorted::<ModelEntry>(members), members, m);
}

proof fn elected_are_members(members: Seq<EntryV>, order: Option<Seq<Seq<char>>>, m: EntryV)
    requires
        elected(members, order).contains(m),
    ensures
        members.contains(m),
{
    sorted_contains(members, m);
    match order {
        Some(ids) => {
            let named = named_from(members, ids, 0, Seq::empty());
            let rest = unnamed_from(members, ids, 0, Seq::empty());
            named_are_members(members, ids, 0, Seq::empty(), m);
            unnamed_are_members(members, ids, 0, Seq::empty(), m);
            assert(members.skip(0) =~= members);
            sorted_contains(rest, m);
            let all = named + sorting::sorted::<ModelEntry>(rest);
            let k = choose|k: int| 0 <= k < all.len() && all[k] == m;
            if k < named.len() {
                assert(named[k] == m);
            } else {
                assert(sorting::sorted::<ModelEntry>(rest)[k - named.len()] == m);
            }
        },
        None => {},
    }
}

proof fn latency_order_contains(members: Seq<EntryV>, health: Map<Seq<char>, HealthV>, m: EntryV)
    ensures
        untimed(sorting::sorted::<Timed>(timed(members, health))).contains(m) == members.contains(m),
{
    let t = timed(members, health);
    let s = sorting::sorted::<Timed>(t);
    sorting::sorting_keeps_items::<Timed>(t);
    if members.contains(m) {
        let k = choose|k: int| 0 <= k < members.len() && members[k] == m;
        assert(t.contains(t[k]));
        same_counts_same_members(t, s, t[k]);
        let l = choose|l: int| 0 <= l < s.len() && s[l] == t[k];
        assert(untimed(s)[l] == m);
    }
    if untimed(s).contains(m) {
        let l = choose|l: int| 0 <= l < s.len() && untimed(s)[l] == m;
        assert(s.contains(s[l]));
        same_counts_same_members(t, s, s[l]);
        let k = choose|k: int| 0 <= k < t.len() && t[k] == s[l];
        assert(members[k] == m);
    }
}

/// Ordering a pool brings no model in, whatever the strategy, and with every
/// strategy but an election's order it leaves none out.
pub proof fn ordering_keeps_the_pool(
    st: RouterV,
    members: Seq<EntryV>,
    key: Seq<char>,
    class: Option<ModelClass>,
    strategy: RoutingStrategy,
    picks: Seq<u64>,
    m: EntryV,
)
    ensures
        ordered(st, members, key, class, strategy, picks).contains(m) ==> members.contains(m),
        strategy != RoutingStrategy::Balanced && members.contains(m) ==> ordered(
            st,
            members,
            key,
            class,
            strategy,
            picks,
        ).contains(m),
{
    if members.len() > 1 {
        match strategy {
            RoutingStrategy::Balanced => {
                sorted_contains(members, m);
                if let Some(c) = class {
                    let order = match st.election {
                        Some(orders) => election::order_from(orders, c, 0),
                        None => None,
                    };
                    if elected(members, order).contains(m) {
                        elected_are_members(members, order, m);
                    }
                }
            },
            RoutingStrategy::Priority => {
                shuffled_groups_contain(groups(members), picks, 0, Seq::empty(), m);
                groups_contain(members, m);
            },
            RoutingStrategy::WeightedRandom => {
                shuffled_contains(members, picks, Seq::empty(), m);
            },
            RoutingStrategy::RoundRobin => {
                let start = cursor_of(st.cursors, key) as int % members.len() as int;
                let r = rotated(members, start);
                if members.contains(m) {
                    let k = choose|k: int| 0 <= k < members.len() && members[k] == m;
                    if k >= start {
                        assert(r[k - start] == m);
                    } else {
                        assert(r[members.len() - start + k] == m);
                    }
                }
                if r.contains(m) {
                    let k = choose|k: int| 0 <= k < r.len() && r[k] == m;
                    if k < members.len() - start {
                        assert(members[k + start] == m);
                    } else {
                        assert(members[k - (members.len() - start)] == m);
                    }
                }
            },
            RoutingStrategy::LowestLatency => {
                latency_order_contains(members, st.health, m);
            },
        }
    }
}

/// A model that an election did not see comes behind all that it did.
pub proof fn unseen_models_come_last(members: Seq<EntryV>, order: Seq<Seq<char>>)
    ensures
        elected(members, Some(order)) == named_from(members, order, 0, Seq::empty()) + sorting::sorted::<ModelEntry>(
            unnamed_from(members, order, 0, Seq::empty()),
        ),
        forall|m: EntryV| #[trigger]
            named_from(members, order, 0, Seq::empty()).contains(m) ==> text::listed(order, m.exposed_id()),
        forall|m: EntryV| #[trigger]
            unnamed_from(members, order, 0, Seq::empty()).contains(m) ==> !text::listed(order, m.exposed_id()),
{
    assert forall|m: EntryV| #[trigger] named_from(members, order, 0, Seq::empty()).contains(m) implies text::listed(
        order,
        m.exposed_id(),
    ) by {
        named_are_members(members, order, 0, Seq::empty(), m);
    }
    assert forall|m: EntryV| #[trigger] unnamed_from(members, order, 0, Seq::empty()).contains(m) implies !text::listed(
        order,
        m.exposed_id(),
    ) by {
        unnamed_are_members(members, order, 0, Seq::empty(), m);
    }
}

/// A pool that goes in turn starts at the next member each time: with `n` members
/// the start moves from the one at the cursor to the one after it, and the last is
/// followed by the first.
pub proof fn turns_go_round(st: RouterV, members: Seq<EntryV>, key: Seq<char>, class: Option<ModelClass>, picks: Seq<u64>)
    requires
        members.len() > 1,
        cursor_of(st.cursors, key) < usize::MAX,
    ensures
        ordered(st, members, key, class, RoutingStrategy::RoundRobin, picks)[0] == members[cursor_of(st.cursors, key)
            as int % members.len() as int],
        ordered(
            after_ordering(st, members, key, RoutingStrategy::RoundRobin),
            members,
            key,
            class,
            RoutingStrategy::RoundRobin,
            picks,
        )[0] == members[(cursor_of(st.cursors, key) + 1) % members.len() as int],
        cursor_of(st.cursors, key) as int % members.len() as int != (cursor_of(st.cursors, key) + 1)
            % members.len() as int,
{
    let n = cursor_of(st.cursors, key) as int;
    let len = members.len() as int;
    assert(n % len != (n + 1) % len) by (nonlinear_arith)
        requires
            len > 1,
            n >= 0,
    {
        if n % len == (n + 1) % len {
            let a = n / len;
            let b = (n + 1) / len;
            assert(n == len * a + n % len);
            assert(n + 1 == len * b + (n + 1) % len);
            assert(1 == len * (b - a));
            assert(b - a >= 1);
            assert(len * (b - a) >= len);
        }
    }
    assert(0 <= n % len < len) by (nonlinear_arith)
        requires
            len > 1,
    ;
    assert(0 <= (n + 1) % len < len) by (nonlinear_arith)
        requires
            len > 1,
    ;
}

proof fn standing_models_stand(
    members: Seq<EntryV>,
    health: Map<Seq<char>, HealthV>,
    now: u64,
    how: Standing,
    i: int,
    sofar: Seq<EntryV>,
    m: EntryV,
)
    requires
        0 <= i,
    ensures
        standing_from(members, health, now, how, i, sofar).contains(m) ==> sofar.contains(m) || standing(
            health,
            m.exposed_id(),
            now,
        ) == how,
    decreases members.len() - i,
{
    if i < members.len() {
        pushed_contains(sofar, members[i], m);
        standing_models_stand(members, health, now, how, i + 1, sofar, m);
        standing_models_stand(members, health, now, how, i + 1, sofar.push(members[i]), m);
    }
}

proof fn attempts_follow_the_queue(
    c: ConfigV,
    queue: Seq<EntryV>,
    degraded: Seq<Seq<char>>,
    limit: int,
    i: int,
    sofar: Seq<CandidateV>,
)
    requires
        0 <= i <= queue.len(),
        sofar.len() == i,
        i <= limit,
        forall|k: int|
            0 <= k < i ==> (#[trigger] sofar[k]).entry == queue[k] && sofar[k].exposed_id == queue[k].exposed_id()
                && sofar[k].degraded == text::listed(degraded, queue[k].exposed_id()),
    ensures
        attempts_from(c, queue, degraded, limit, i, sofar) matches Ok(list) ==> {
            &&& list.len() <= limit
            &&& list.len() <= queue.len()
            &&& (list.len() == limit || list.len() == queue.len())
            &&& forall|k: int|
                0 <= k < list.len() ==> (#[trigger] list[k]).entry == queue[k] && list[k].exposed_id
                    == queue[k].exposed_id() && list[k].degraded == text::listed(degraded, queue[k].exposed_id())
        },
    decreases queue.len() - i,
{
    if i < queue.len() && i < limit {
        match registry::provider_for(c, queue[i]) {
            Ok(p) => {
                attempts_follow_the_queue(
                    c,
                    queue,
                    degraded,
                    limit,
                    i + 1,
                    sofar.push(attempt(queue[i], p, text::listed(degraded, queue[i].exposed_id()))),
                );
            },
            Err(_) => {},
        }
    }
}

/// A plan for a pool holds at least one attempt and at most as many as the pool
/// allows, one where failover is off. No attempt goes to a model whose breaker keeps
/// it out, and exactly those at models that may only be probed are marked degraded.
pub proof fn plans_respect_health(st: RouterV, c: ConfigV, pool: PoolV, now: u64, picks: Seq<u64>)
    ensures
        pool_plan(st, c, pool, now, picks).0 matches Ok(list) ==> {
            &&& 1 <= list.len() <= attempt_limit(pool)
            &&& !pool.failover ==> list.len() == 1
            &&& forall|k: int|
                0 <= k < list.len() ==> standing(st.health, (#[trigger] list[k]).exposed_id, now) != Standing::Out
                    && list[k].degraded == (standing(st.health, list[k].exposed_id, now) == Standing::Probe)
        },
{
    let closed = standing_so(pool.members, st.health, now, Standing::Ready);
    let probes = standing_so(pool.members, st.health, now, Standing::Probe);
    let ready = ordered(st, closed, pool.name, pool.class, pool.strategy, picks);
    let fallback = ready.len() == 0 || pool.failover;
    let queue = if fallback {
        ready + probes
    } else {
        ready
    };
    let degraded = if fallback {
        ids_of(probes)
    } else {
        Seq::empty()
    };
    attempts_follow_the_queue(c, queue, degraded, attempt_limit(pool), 0, Seq::empty());
    if let Ok(list) = pool_plan(st, c, pool, now, picks).0 {
        assert forall|k: int| 0 <= k < list.len() implies standing(st.health, (#[trigger] list[k]).exposed_id, now)
            != Standing::Out && list[k].degraded == (standing(st.health, list[k].exposed_id, now)
            == Standing::Probe) by {
            let m = queue[k];
            if k < ready.len() {
                assert(ready[k] == m);
                ordering_keeps_the_pool(st, closed, pool.name, pool.class, pool.strategy, picks, m);
                standing_models_stand(pool.members, st.health, now, Standing::Ready, 0, Seq::empty(), m);
                if text::listed(degraded, m.exposed_id()) {
                    let j = choose|j: int| 0 <= j < degraded.len() && #[trigger] degraded[j] == m.exposed_id();
                    assert(probes.contains(probes[j]));
                    standing_models_stand(pool.members, st.health, now, Standing::Probe, 0, Seq::empty(), probes[j]);
                }
            } else {
                let j = k - ready.len();
                assert(probes[j] == m);
                assert(probes.contains(m));
                standing_models_stand(pool.members, st.health, now, Standing::Probe, 0, Seq::empty(), m);
                assert(degraded[j] == m.exposed_id());
            }
        }
    }
}

/// Health belongs to a model, not to a pool: a model that is out when one pool is
/// planned is out for any other pool.
pub proof fn health_is_shared(st: RouterV, c: ConfigV, a: PoolV, b: PoolV, now: u64, picks: Seq<u64>, id: Seq<char>)
    requires
        standing(st.health, id, now) == Standing::Out,
    ensures
        pool_plan(st, c, a, now, picks).0 matches Ok(list) ==> forall|k: int|
            0 <= k < list.len() ==> (#[trigger] list[k]).exposed_id != id,
        pool_plan(st, c, b, now, picks).0 matches Ok(list) ==> forall|k: int|
            0 <= k < list.len() ==> (#[trigger] list[k]).exposed_id != id,
{
    plans_respect_health(st, c, a, now, picks);
    plans_respect_health(st, c, b, now, picks);
}

// ------------------------------------------------------------ laws of ordering

/// No two members have one id.
pub open spec fn ids_differ(members: Seq<EntryV>) -> bool {
    forall|i: int, j: int|
        0 <= i < j < members.len() ==> (#[trigger] members[i]).exposed_id() != (#[trigger] members[j]).exposed_id()
}

/// An order that names nothing twice.
pub open spec fn names_differ(order: Seq<Seq<char>>) -> bool {
    forall|i: int, j: int| 0 <= i < j < order.len() ==> #[trigger] order[i] != #[trigger] order[j]
}

/// The order that the last election decided for a class.
pub open spec fn order_for(st: RouterV, class: ModelClass) -> Option<Seq<Seq<char>>> {
    match st.election {
        Some(orders) => election::order_from(orders, class, 0),
        None => None,
    }
}

/// All the models of the groups.
spec fn held(groups: Seq<GroupV>) -> Multiset<EntryV>
    decreases groups.len(),
{
    if groups.len() == 0 {
        Multiset::empty()
    } else {
        held(groups.drop_last()).add(groups.last().members.to_multiset())
    }
}

proof fn held_with_one_more(groups: Seq<GroupV>, p: int, g: GroupV)
    requires
        0 <= p <= groups.len(),
    ensures
        held(groups.insert(p, g)) == held(groups).add(g.members.to_multiset()),
    decreases groups.len(),
{
    let all = groups.insert(p, g);
    if p == groups.len() {
        assert(all.drop_last() =~= groups);
    } else {
        held_with_one_more(groups.drop_last(), p, g);
        assert(all.drop_last() =~= groups.drop_last().insert(p, g));
        assert(all.last() == groups.last());
        assert(held(all) =~= held(groups).add(g.members.to_multiset()));
    }
}

proof fn grouping_holds(members: Seq<EntryV>, i: int, sofar: Seq<GroupV>)
    requires
        0 <= i <= members.len(),
    ensures
        held(groups_from(members, i, sofar)) == held(sofar).add(members.skip(i).to_multiset()),
    decreases members.len() - i,
{
    if i < members.len() {
        let m = members[i];
        let next = grouped_with(sofar, m);
        grouping_holds(members, i + 1, next);
        let rest = members.skip(i + 1);
        assert(members.skip(i) =~= rest.insert(0, m));
        sorting::inserting_adds_one(rest, 0, m);
        if sofar.len() > 0 && sofar.last().priority == m.priority {
            assert(next.drop_last() =~= sofar.drop_last());
            sofar.last().members.to_multiset_ensures();
            assert(held(next) =~= held(sofar).insert(m));
        } else {
            assert(next.drop_last() =~= sofar);
            let none = Seq::<EntryV>::empty();
            none.to_multiset_ensures();
            assert(none.to_multiset() =~= Multiset::empty());
            assert(held(next) =~= held(sofar).insert(m));
        }
        assert(held(sofar).insert(m).add(rest.to_multiset()) =~= held(sofar).add(rest.to_multiset().insert(m)));
    } else {
        assert(members.skip(i) =~= Seq::empty());
        members.skip(i).to_multiset_ensures();
        assert(members.skip(i).to_multiset() =~= Multiset::empty());
        assert(held(sofar).add(Multiset::empty()) =~= held(sofar));
    }
}

proof fn shuffled_groups_hold(groups: Seq<GroupV>, picks: Seq<u64>, i: int, done: Seq<EntryV>)
    requires
        0 <= i <= groups.len(),
    ensures
        shuffled_groups(groups, picks, i, done).to_multiset() == done.to_multiset().add(held(groups.skip(i))),
    decreases groups.len() - i,
{
    if i < groups.len() {
        let g = groups[i];
        let next = shuffled(g.members, picks, done);
        shuffling_keeps_models(g.members, picks, done);
        shuffled_groups_hold(groups, picks, i + 1, next);
        assert(groups.skip(i) =~= groups.skip(i + 1).insert(0, g));
        held_with_one_more(groups.skip(i + 1), 0, g);
        assert(next.to_multiset().add(held(groups.skip(i + 1))) =~= done.to_multiset().add(held(groups.skip(i))));
    } else {
        assert(groups.skip(i) =~= Seq::empty());
        assert(done.to_multiset().add(Multiset::empty()) =~= done.to_multiset());
    }
}

proof fn priority_keeps_models(members: Seq<EntryV>, picks: Seq<u64>)
    ensures
        shuffled_groups(groups(members), picks, 0, Seq::empty()).to_multiset() == members.to_multiset(),
{
    let s = sorting::sorted::<ModelEntry>(members);
    let none = Seq::<EntryV>::empty();
    sorting::sorting_keeps_items::<ModelEntry>(members);
    grouping_holds(s, 0, Seq::empty());
    assert(s.skip(0) =~= s);
    shuffled_groups_hold(groups(members), picks, 0, none);
    assert(groups(members).skip(0) =~= groups(members));
    none.to_multiset_ensures();
    assert(none.to_multiset() =~= Multiset::empty());
    assert(held(Seq::<GroupV>::empty()) == Multiset::<EntryV>::empty());
    assert(Multiset::<EntryV>::empty().add(members.to_multiset()) =~= members.to_multiset());
    assert(Multiset::<EntryV>::empty().add(held(groups(members))) =~= held(groups(members)));
}

proof fn latency_keeps_the_first(t: Seq<TimedV>, n: int)
    requires
        0 <= n <= t.len(),
    ensures
        untimed(sorting::sorted_to::<Timed>(t, n)).to_multiset() == untimed(t.take(n)).to_multiset(),
    decreases n,
{
    if n > 0 {
        latency_keeps_the_first(t, n - 1);
        let rest = sorting::sorted_to::<Timed>(t, n - 1);
        let x = t[n - 1];
        let p = sorting::place::<Timed>(rest, x, 0);
        sorting::place_is_inside::<Timed>(rest, x, 0);
        assert(untimed(rest.insert(p, x)) =~= untimed(rest).insert(p, x.entry));
        sorting::inserting_adds_one(untimed(rest), p, x.entry);
        assert(untimed(t.take(n)) =~= untimed(t.take(n - 1)).push(x.entry));
        untimed(t.take(n - 1)).to_multiset_ensures();
    } else {
        assert(untimed(t.take(0)) =~= untimed(sorting::sorted_to::<Timed>(t, 0)));
    }
}

proof fn member_is_found(members: Seq<EntryV>, i: int, k: int)
    requires
        ids_differ(members),
        0 <= i <= k < members.len(),
    ensures
        member_from(members, members[k].exposed_id(), i) == Some(members[k]),
    decreases k - i,
{
    if i < k {
        member_is_found(members, i + 1, k);
    }
}

/// The named members come each once, in the order of their names.
proof fn named_members_differ(members: Seq<EntryV>, order: Seq<Seq<char>>, i: int, sofar: Seq<EntryV>)
    requires
        names_differ(order),
        0 <= i <= order.len(),
        ids_differ(sofar),
        forall|k: int, j: int|
            0 <= k < sofar.len() && i <= j < order.len() ==> (#[trigger] sofar[k]).exposed_id() != #[trigger] order[j],
    ensures
        ids_differ(named_from(members, order, i, sofar)),
    decreases order.len() - i,
{
    if i < order.len() {
        member_from_is_member(members, order[i], 0);
        if let Some(m) = member_from(members, order[i], 0) {
            let next = sofar.push(m);
            assert forall|a: int, b: int| 0 <= a < b < next.len() implies (#[trigger] next[a]).exposed_id() != (
            #[trigger] next[b]).exposed_id() by {
                assert(next[a] == sofar[a]);
                if b < sofar.len() {
                    assert(next[b] == sofar[b]);
                }
            }
            assert forall|k: int, j: int| 0 <= k < next.len() && i + 1 <= j < order.len() implies (
            #[trigger] next[k]).exposed_id() != #[trigger] order[j] by {
                if k < sofar.len() {
                    assert(next[k] == sofar[k]);
                }
            }
            named_members_differ(members, order, i + 1, next);
        } else {
            named_members_differ(members, order, i + 1, sofar);
        }
    }
}

proof fn unnamed_members_differ(members: Seq<EntryV>, order: Seq<Seq<char>>, i: int, sofar: Seq<EntryV>)
    requires
        ids_differ(members),
        0 <= i <= members.len(),
        ids_differ(sofar),
        forall|k: int, j: int|
            0 <= k < sofar.len() && i <= j < members.len() ==> (#[trigger] sofar[k]).exposed_id() != (
            #[trigger] members[j]).exposed_id(),
    ensures
        ids_differ(unnamed_from(members, order, i, sofar)),
    decreases members.len() - i,
{
    if i < members.len() {
        if text::listed(order, members[i].exposed_id()) {
            unnamed_members_differ(members, order, i + 1, sofar);
        } else {
            let next = sofar.push(members[i]);
            assert forall|a: int, b: int| 0 <= a < b < next.len() implies (#[trigger] next[a]).exposed_id() != (
            #[trigger] next[b]).exposed_id() by {
                assert(next[a] == sofar[a]);
                if b < sofar.len() {
                    assert(next[b] == sofar[b]);
                }
            }
            assert forall|k: int, j: int| 0 <= k < next.len() && i + 1 <= j < members.len() implies (
            #[trigger] next[k]).exposed_id() != (#[trigger] members[j]).exposed_id() by {
                if k < sofar.len() {
                    assert(next[k] == sofar[k]);
                }
            }
            unnamed_members_differ(members, order, i + 1, next);
        }
    }
}

proof fn named_members_are_there(members: Seq<EntryV>, order: Seq<Seq<char>>, i: int, sofar: Seq<EntryV>, k: int)
    requires
        ids_differ(members),
        0 <= k < members.len(),
        0 <= i <= order.len(),
        sofar.contains(members[k]) || exists|j: int| i <= j < order.len() && #[trigger] order[j] == members[k].exposed_id(),
    ensures
        named_from(members, order, i, sofar).contains(members[k]),
    decreases order.len() - i,
{
    let m = members[k];
    if i < order.len() {
        let next = match member_from(members, order[i], 0) {
            Some(x) => sofar.push(x),
            None => sofar,
        };
        if order[i] == m.exposed_id() {
            member_is_found(members, 0, k);
            pushed_contains(sofar, m, m);
        } else {
            if let Some(x) = member_from(members, order[i], 0) {
                pushed_contains(sofar, x, m);
            }
            if !sofar.contains(m) {
                let j = choose|j: int| i <= j < order.len() && #[trigger] order[j] == m.exposed_id();
                assert(i + 1 <= j);
            }
        }
        named_members_are_there(members, order, i + 1, next, k);
    }
}

proof fn each_once(s: Seq<EntryV>)
    requires
        ids_differ(s),
    ensures
        s.no_duplicates(),
{
}

/// Two lists of the same models, each once, hold them alike.
proof fn same_members_same_counts(a: Seq<EntryV>, b: Seq<EntryV>)
    requires
        a.no_duplicates(),
        b.no_duplicates(),
        forall|m: EntryV| a.contains(m) == b.contains(m),
    ensures
        a.to_multiset() == b.to_multiset(),
{
    a.to_multiset_ensures();
    b.to_multiset_ensures();
    a.lemma_multiset_has_no_duplicates();
    b.lemma_multiset_has_no_duplicates();
    assert forall|m: EntryV| a.to_multiset().count(m) == b.to_multiset().count(m) by {
        assert(a.contains(m) <==> a.to_multiset().count(m) > 0);
        assert(b.contains(m) <==> b.to_multiset().count(m) > 0);
        if a.contains(m) {
            assert(a.to_multiset().contains(m) && b.to_multiset().contains(m));
        }
    }
    assert(a.to_multiset() =~= b.to_multiset());
}

proof fn election_keeps_models(members: Seq<EntryV>, order: Option<Seq<Seq<char>>>)
    requires
        order matches Some(ids) ==> ids_differ(members) && names_differ(ids),
    ensures
        elected(members, order).to_multiset() == members.to_multiset(),
{
    sorting::sorting_keeps_items::<ModelEntry>(members);
    if let Some(ids) = order {
        let none = Seq::<EntryV>::empty();
        let named = named_from(members, ids, 0, none);
        let rest = unnamed_from(members, ids, 0, none);
        named_members_differ(members, ids, 0, none);
        unnamed_members_differ(members, ids, 0, none);
        each_once(members);
        each_once(rest);
        let all = named + rest;
        assert(members.skip(0) =~= members);
        unseen_models_come_last(members, ids);
        assert forall|a: int, b: int| 0 <= a < b < all.len() implies (#[trigger] all[a]).exposed_id() != (
        #[trigger] all[b]).exposed_id() by {
            if a < named.len() && b >= named.len() {
                assert(named.contains(named[a]));
                assert(rest.contains(rest[b - named.len()]));
            }
        }
        each_once(all);
        assert forall|m: EntryV| all.contains(m) == members.contains(m) by {
            named_are_members(members, ids, 0, none, m);
            unnamed_are_members(members, ids, 0, none, m);
            if all.contains(m) {
                let k = choose|k: int| 0 <= k < all.len() && all[k] == m;
                if k < named.len() {
                    assert(named.contains(named[k]));
                } else {
                    assert(rest.contains(rest[k - named.len()]));
                }
            }
            if members.contains(m) {
                let k = choose|k: int| 0 <= k < members.len() && members[k] == m;
                if text::listed(ids, m.exposed_id()) {
                    let j = choose|j: int| 0 <= j < ids.len() && #[trigger] ids[j] == m.exposed_id();
                    named_members_are_there(members, ids, 0, none, k);
                    let l = choose|l: int| 0 <= l < named.len() && named[l] == m;
                    assert(all[l] == m);
                } else {
                    let l = choose|l: int| 0 <= l < rest.len() && rest[l] == m;
                    assert(all[named.len() + l] == m);
                }
            }
        }
        same_members_same_counts(all, members);
        sorting::sorting_keeps_items::<ModelEntry>(rest);
        let sorted = sorting::sorted::<ModelEntry>(rest);
        vstd::seq_lib::lemma_multiset_commutative(named, rest);
        vstd::seq_lib::lemma_multiset_commutative(named, sorted);
    }
}

/// Ordering a pool leaves every member in, as often as it was there, whatever the
/// strategy. An election's order does so where no id stands for two members and no
/// id is named twice.
pub proof fn ordering_permutes(
    st: RouterV,
    members: Seq<EntryV>,
    key: Seq<char>,
    class: Option<ModelClass>,
    strategy: RoutingStrategy,
    picks: Seq<u64>,
)
    requires
        strategy == RoutingStrategy::Balanced ==> (class matches Some(c) ==> (order_for(st, c) matches Some(ids)
            ==> ids_differ(members) && names_differ(ids))),
    ensures
        ordered(st, members, key, class, strategy, picks).to_multiset() == members.to_multiset(),
        ordered(st, members, key, class, strategy, picks).len() == members.len(),
{
    let out = ordered(st, members, key, class, strategy, picks);
    if members.len() > 1 {
        match strategy {
            RoutingStrategy::Balanced => {
                sorting::sorting_keeps_items::<ModelEntry>(members);
                if let Some(c) = class {
                    election_keeps_models(members, order_for(st, c));
                }
            },
            RoutingStrategy::Priority => {
                priority_keeps_models(members, picks);
            },
            RoutingStrategy::WeightedRandom => {
                let none = Seq::<EntryV>::empty();
                shuffling_keeps_models(members, picks, none);
                none.to_multiset_ensures();
                assert(none.to_multiset() =~= Multiset::empty());
                assert(Multiset::<EntryV>::empty().add(members.to_multiset()) =~= members.to_multiset());
            },
            RoutingStrategy::RoundRobin => {
                let n = cursor_of(st.cursors, key) as int;
                let len = members.len() as int;
                let start = n % len;
                assert(0 <= start < len) by (nonlinear_arith)
                    requires
                        len > 1,
                        start == n % len,
                ;
                vstd::seq_lib::lemma_multiset_commutative(members.skip(start), members.take(start));
                vstd::seq_lib::lemma_multiset_commutative(members.take(start), members.skip(start));
                assert(members.take(start) + members.skip(start) =~= members);
                assert(out.to_multiset() =~= members.to_multiset());
            },
            RoutingStrategy::LowestLatency => {
                let t = timed(members, st.health);
                latency_keeps_the_first(t, t.len() as int);
                assert(t.take(t.len() as int) =~= t);
                assert(untimed(t) =~= members);
            },
        }
    }
    out.to_multiset_ensures();
    members.to_multiset_ensures();
}

/// The priorities never fall along the list.
pub open spec fn by_rising_priority(s: Seq<EntryV>) -> bool {
    forall|i: int, j: int| 0 <= i < j < s.len() ==> (#[trigger] s[i]).priority <= (#[trigger] s[j]).priority
}

/// Every model has its group's priority.
pub open spec fn uniform(groups: Seq<GroupV>) -> bool {
    forall|k: int, j: int|
        0 <= k < groups.len() && 0 <= j < groups[k].members.len() ==> (#[trigger] groups[k].members[j]).priority
            == groups[k].priority
}

proof fn grouping_is_uniform(members: Seq<EntryV>, i: int, sofar: Seq<GroupV>)
    requires
        0 <= i <= members.len(),
        uniform(sofar),
    ensures
        uniform(groups_from(members, i, sofar)),
    decreases members.len() - i,
{
    if i < members.len() {
        let m = members[i];
        let next = grouped_with(sofar, m);
        assert forall|k: int, j: int| 0 <= k < next.len() && 0 <= j < next[k].members.len() implies (
        #[trigger] next[k].members[j]).priority == next[k].priority by {
            if sofar.len() > 0 && sofar.last().priority == m.priority {
                if k < sofar.len() - 1 {
                    assert(next[k] == sofar[k]);
                    assert(sofar[k].members[j].priority == sofar[k].priority);
                } else if j < sofar.last().members.len() {
                    assert(sofar[sofar.len() - 1].members[j].priority == m.priority);
                }
            } else if k < sofar.len() {
                assert(next[k] == sofar[k]);
                assert(sofar[k].members[j].priority == sofar[k].priority);
            }
        }
        grouping_is_uniform(members, i + 1, next);
    }
}

/// The priorities rise from group to group.
pub open spec fn rising(groups: Seq<GroupV>) -> bool {
    forall|a: int, b: int|
        0 <= a < b < groups.len() ==> (#[trigger] groups[a]).priority < (#[trigger] groups[b]).priority
}

proof fn grouping_rises(members: Seq<EntryV>, i: int, sofar: Seq<GroupV>)
    requires
        0 <= i <= members.len(),
        by_rising_priority(members),
        rising(sofar),
        sofar.len() > 0 ==> i > 0 && sofar.last().priority == members[i - 1].priority,
    ensures
        rising(groups_from(members, i, sofar)),
    decreases members.len() - i,
{
    if i < members.len() {
        grouping_rises(members, i + 1, grouped_with(sofar, members[i]));
    }
}

/// The models that share a priority stand in one group, whatever order they are
/// configured in, and the groups come by their priorities.
pub proof fn one_group_per_priority(members: Seq<EntryV>)
    ensures
        uniform(groups(members)),
        rising(groups(members)),
        forall|m: EntryV|
            #[trigger] members.contains(m) <==> exists|k: int|
                0 <= k < groups(members).len() && (#[trigger] groups(members)[k]).members.contains(m),
{
    let s = sorting::sorted::<ModelEntry>(members);
    registry::models_are_ordered();
    sorting::sorting_orders::<ModelEntry>(members);
    assert forall|i: int, j: int| 0 <= i < j < s.len() implies (#[trigger] s[i]).priority <= (
    #[trigger] s[j]).priority by {
        assert(!<ModelEntry as Ranked>::before(s[j], s[i]));
    }
    grouping_is_uniform(s, 0, Seq::empty());
    grouping_rises(s, 0, Seq::empty());
    assert forall|m: EntryV| #[trigger] members.contains(m) <==> exists|k: int|
        0 <= k < groups(members).len() && (#[trigger] groups(members)[k]).members.contains(m) by {
        groups_contain(members, m);
    }
}

proof fn shuffled_comes_behind(pool: Seq<EntryV>, picks: Seq<u64>, done: Seq<EntryV>)
    ensures
        shuffled(pool, picks, done).len() == done.len() + pool.len(),
        forall|k: int| 0 <= k < done.len() ==> #[trigger] shuffled(pool, picks, done)[k] == done[k],
        forall|k: int|
            done.len() <= k < shuffled(pool, picks, done).len() ==> pool.contains(
                #[trigger] shuffled(pool, picks, done)[k],
            ),
    decreases pool.len(),
{
    if pool.len() > 0 {
        let i = falls_on(pool, pick_at(picks, done.len() as int), 0);
        falls_inside(pool, pick_at(picks, done.len() as int), 0);
        let less = pool.remove(i);
        let next = done.push(pool[i]);
        shuffled_comes_behind(less, picks, next);
        let out = shuffled(less, picks, next);
        assert forall|k: int| 0 <= k < done.len() implies #[trigger] out[k] == done[k] by {
            assert(out[k] == next[k]);
        }
        assert forall|k: int| done.len() <= k < out.len() implies pool.contains(#[trigger] out[k]) by {
            if k == done.len() {
                assert(out[k] == next[k]);
                assert(pool.contains(pool[i]));
            } else {
                assert(less.contains(out[k]));
                let j = choose|j: int| 0 <= j < less.len() && less[j] == out[k];
                let l = if j < i {
                    j
                } else {
                    j + 1
                };
                assert(pool[l] == out[k]);
            }
        }
    }
}

proof fn shuffled_groups_rise(groups: Seq<GroupV>, picks: Seq<u64>, i: int, done: Seq<EntryV>)
    requires
        0 <= i <= groups.len(),
        uniform(groups),
        forall|a: int, b: int|
            0 <= a < b < groups.len() ==> (#[trigger] groups[a]).priority <= (#[trigger] groups[b]).priority,
        by_rising_priority(done),
        forall|d: int, k: int|
            0 <= d < done.len() && i <= k < groups.len() ==> (#[trigger] done[d]).priority <= (
            #[trigger] groups[k]).priority,
    ensures
        by_rising_priority(shuffled_groups(groups, picks, i, done)),
    decreases groups.len() - i,
{
    if i < groups.len() {
        let g = groups[i];
        let next = shuffled(g.members, picks, done);
        shuffled_comes_behind(g.members, picks, done);
        assert forall|k: int| 0 <= k < next.len() implies (#[trigger] next[k]).priority <= g.priority && (k
            >= done.len() ==> next[k].priority == g.priority) by {
            if k < done.len() {
                assert(next[k] == done[k]);
            } else {
                assert(g.members.contains(next[k]));
                let j = choose|j: int| 0 <= j < g.members.len() && g.members[j] == next[k];
                assert(groups[i].members[j].priority == groups[i].priority);
            }
        }
        assert forall|a: int, b: int| 0 <= a < b < next.len() implies (#[trigger] next[a]).priority <= (
        #[trigger] next[b]).priority by {
            if b < done.len() {
                assert(next[a] == done[a] && next[b] == done[b]);
            }
        }
        assert forall|d: int, k: int| 0 <= d < next.len() && i + 1 <= k < groups.len() implies (
        #[trigger] next[d]).priority <= (#[trigger] groups[k]).priority by {
            assert(groups[i].priority <= groups[k].priority);
        }
        shuffled_groups_rise(groups, picks, i + 1, next);
    }
}

/// How each strategy orders a pool: by priority the priorities never fall, in turn the
/// list is turned to the left by the cursor, by latency the known latencies never fall
/// and what was not measured comes first, and without an election the members come by
/// priority and id.
pub proof fn strategies_order(st: RouterV, members: Seq<EntryV>, key: Seq<char>, class: Option<ModelClass>, picks: Seq<u64>)
    ensures
        by_rising_priority(ordered(st, members, key, class, RoutingStrategy::Priority, picks)),
        members.len() > 1 ==> ({
            let k = cursor_of(st.cursors, key) as int % members.len() as int;
            ordered(st, members, key, class, RoutingStrategy::RoundRobin, picks) == members.skip(k) + members.take(k)
        }),
        ({
            let out = ordered(st, members, key, class, RoutingStrategy::LowestLatency, picks);
            forall|i: int, j: int|
                0 <= i < j < out.len() ==> rank_of(st.health, (#[trigger] out[i]).exposed_id()) <= rank_of(
                    st.health,
                    (#[trigger] out[j]).exposed_id(),
                )
        }),
        ({
            let out = ordered(st, members, key, None, RoutingStrategy::Balanced, picks);
            forall|i: int, j: int|
                0 <= i < j < out.len() ==> (#[trigger] out[i]).priority < (#[trigger] out[j]).priority || (
                out[i].priority == out[j].priority && !text::before(out[j].exposed_id(), out[i].exposed_id()))
        }),
        forall|id: Seq<char>| !st.health.contains_key(id) ==> #[trigger] rank_of(st.health, id) == 0,
{
    if members.len() > 1 {
        one_group_per_priority(members);
        shuffled_groups_rise(groups(members), picks, 0, Seq::empty());
        let t = timed(members, st.health);
        let s = sorting::sorted::<Timed>(t);
        assert(sorting::is_order::<Timed>());
        sorting::sorting_orders::<Timed>(t);
        sorting::sorting_keeps_items::<Timed>(t);
        let out = untimed(s);
        assert forall|i: int| 0 <= i < s.len() implies (#[trigger] s[i]).rank == rank_of(
            st.health,
            s[i].entry.exposed_id(),
        ) by {
            assert(s.contains(s[i]));
            same_counts_same_members(t, s, s[i]);
            let k = choose|k: int| 0 <= k < t.len() && t[k] == s[i];
            assert(t[k].entry == members[k]);
        }
        assert forall|i: int, j: int| 0 <= i < j < out.len() implies rank_of(
            st.health,
            (#[trigger] out[i]).exposed_id(),
        ) <= rank_of(st.health, (#[trigger] out[j]).exposed_id()) by {
            assert(!<Timed as Ranked>::before(s[j], s[i]));
        }
        registry::models_are_ordered();
        sorting::sorting_orders::<ModelEntry>(members);
        let b = sorting::sorted::<ModelEntry>(members);
        assert forall|i: int, j: int| 0 <= i < j < b.len() implies (#[trigger] b[i]).priority < (
        #[trigger] b[j]).priority || (b[i].priority == b[j].priority && !text::before(
            b[j].exposed_id(),
            b[i].exposed_id(),
        )) by {
            assert(!<ModelEntry as Ranked>::before(b[j], b[i]));
        }
    }
}

} // verus!
