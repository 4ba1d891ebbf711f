//! The request pipeline: walk the router's plan, talk to a provider, and turn the
//! answer back into the client's dialect.
//!
//! What is sent and awaited happens elsewhere; what is sent, and what follows from
//! what came back, is decided here.

use std::collections::VecDeque;

use crate::config::{AppConfig, ConfigV, ModelClass, ProviderV, RectifierConfig, RoutingConfig};
use crate::error;
use crate::error::{Error, ErrorV};
use crate::headers;
use crate::headers::{insert_header, is_header_value};
use crate::ir;
use crate::ir::{
    BlockV, ChatRequest, ChatResponse, ContentBlock, Dialect, EventV, MediaSource, Message, MessageV, RequestV,
    ResponseV, SourceV, StreamEvent, Usage,
};
use crate::json::{Json, Tree};
use crate::protocol;
use crate::protocol::sse::{FrameV, SseFrame};
use crate::protocol::{AnyEncoder, StreamEncoder};
use crate::query;
use crate::query::RequestKind;
use crate::rectifier;
use crate::rectifier::media_fallback::MediaFallbackRectifier;
use crate::rectifier::{AnyRectifier, Rectifier};
use crate::registry;
use crate::registry::{Registry, Resolution, ResolutionV};
use crate::router;
use crate::router::{Candidate, CandidateV, Router, RouterV};
use crate::server;
use crate::server::api_key;
use crate::stats::{RecordBuilder, RecordV, RequestRecord};
use crate::text;
use crate::text::{concat, concat3};
use crate::upstream;
use crate::upstream::{encode_for_mode, encode_mode_for, EncodeMode};
use crate::views;
use vstd::prelude::*;

verus! {

broadcast use crate::views::group_views;

// ------------------------------------------------------------------- budgets

/// What the budgets say of a request.
#[derive(Debug)]
pub enum Verdict {
    Allow,
    Reject { because: String },
    Degrade { to: ModelClass, because: String },
}

pub enum VerdictV {
    Allow,
    Reject { because: Seq<char> },
    Degrade { to: ModelClass, because: Seq<char> },
}

impl View for Verdict {
    type V = VerdictV;

    open spec fn view(&self) -> VerdictV {
        match self {
            Verdict::Allow => VerdictV::Allow,
            Verdict::Reject { because } => VerdictV::Reject { because: because@ },
            Verdict::Degrade { to, because } => VerdictV::Degrade { to: *to, because: because@ },
        }
    }
}

/// A resolved request on its way through the spending limits.
///
/// The check is "have I already spent it", not "will this request spend it", because
/// the cost is only known once a request has finished. The one that crosses the line
/// completes and the next is stopped, which bounds the overshoot at one request.
///
/// A degrade is followed at most once per class: the cheaper class's own budget still
/// applies, so this cannot be used to route around a limit, and a cycle of degrades
/// ends in a refusal rather than a loop.
pub struct BudgetWalk {
    pub resolution: Resolution,
    /// The classes that were degraded from.
    pub visited: Vec<ModelClass>,
}

pub struct WalkV {
    pub resolution: ResolutionV,
    pub visited: Seq<ModelClass>,
}

impl View for BudgetWalk {
    type V = WalkV;

    open spec fn view(&self) -> WalkV {
        WalkV { resolution: self.resolution@, visited: self.visited@ }
    }
}

/// The class a request will be billed under. Direct ids participate too: charging
/// uses the target model's class, so a class budget must also gate requests that
/// reach the class by exact id, or the limit could be spent around while still being
/// charged.
pub open spec fn billed_class(c: ConfigV, r: ResolutionV) -> Option<ModelClass> {
    match r {
        ResolutionV::Class(class) => Some(class),
        ResolutionV::Direct(id) => match registry::entry_of(c, id) {
            Ok(m) => m.class,
            Err(_) => None,
        },
    }
}

/// Every provider a request could land on, because a provider's budget has to stop a
/// request that might reach it.
pub open spec fn possible_providers(c: ConfigV, r: ResolutionV) -> Seq<Seq<char>> {
    match r {
        ResolutionV::Class(class) => {
            let members = registry::members(c, class);
            Seq::new(members.len(), |i: int| members[i].provider_id)
        },
        ResolutionV::Direct(id) => match registry::entry_of(c, id) {
            Ok(m) => Seq::empty().push(m.provider_id),
            Err(_) => Seq::empty(),
        },
    }
}

/// What follows a verdict.
pub enum BudgetStep {
    /// The request goes on as it stands.
    Pass,
    /// The request is refused.
    Refuse(Error),
    /// The budgets are asked again, for a cheaper class.
    Ask,
}

pub enum StepV {
    Pass,
    Refuse(ErrorV),
    Ask,
}

impl View for BudgetStep {
    type V = StepV;

    open spec fn view(&self) -> StepV {
        match self {
            BudgetStep::Pass => StepV::Pass,
            BudgetStep::Refuse(e) => StepV::Refuse(e@),
            BudgetStep::Ask => StepV::Ask,
        }
    }
}

impl WalkV {
    pub open spec fn starting(resolution: ResolutionV) -> WalkV {
        WalkV { resolution, visited: Seq::empty() }
    }

    /// The classes that were degraded from, this one with them.
    pub open spec fn left(self, c: ConfigV) -> Seq<ModelClass> {
        match billed_class(c, self.resolution) {
            Some(class) => self.visited.push(class),
            None => self.visited,
        }
    }

    /// What follows a verdict.
    pub open spec fn judged(self, c: ConfigV, v: VerdictV) -> (StepV, WalkV) {
        match v {
            VerdictV::Allow => (StepV::Pass, self),
            VerdictV::Reject { because } => (StepV::Refuse(ErrorV::OverBudget(because)), self),
            VerdictV::Degrade { to, because } => if self.left(c).contains(to) {
                (
                    StepV::Refuse(
                        ErrorV::OverBudget(because + ", and the class it degrades to is over its own limit"@),
                    ),
                    WalkV { visited: self.left(c), ..self },
                )
            } else {
                (StepV::Ask, WalkV { resolution: ResolutionV::Class(to), visited: self.left(c) })
            },
        }
    }
}

impl BudgetWalk {
    pub fn new(resolution: Resolution) -> (r: BudgetWalk)
        ensures
            r@ == WalkV::starting(resolution@),
    {
        let visited: Vec<ModelClass> = Vec::new();
        assert(visited@ =~= Seq::<ModelClass>::empty());
        BudgetWalk { resolution, visited }
    }

    /// The class the request will be billed under.
    pub fn class(&self, registry: &Registry) -> (r: Option<ModelClass>)
        ensures
            r == billed_class(registry@, self@.resolution),
    {
        match &self.resolution {
            Resolution::Class(class) => Some(*class),
            Resolution::Direct(id) => match registry.entry(id.as_str()) {
                Ok(m) => m.class,
                Err(_) => None,
            },
        }
    }

    /// Every provider the request could land on.
    pub fn provider_ids(&self, registry: &Registry) -> (r: Vec<String>)
        ensures
            views::of(r@) == possible_providers(registry@, self@.resolution),
    {
        let mut out: Vec<String> = Vec::new();
        match &self.resolution {
            Resolution::Class(class) => {
                let members = registry.class_members(*class);
                let ghost all = views::of(members@);
                for i in 0..members.len()
                    invariant
                        all == views::of(members@),
                        out@.len() == i,
                        forall|j: int| 0 <= j < i ==> (#[trigger] out@[j])@ == all[j].provider_id,
                {
                    assert(all[i as int] == members@[i as int]@);
                    out.push(members[i].provider_id.clone());
                }
                assert(views::of(out@) =~= possible_providers(registry@, self@.resolution));
            },
            Resolution::Direct(id) => {
                if let Ok(m) = registry.entry(id.as_str()) {
                    out.push(m.provider_id.clone());
                }
                assert(views::of(out@) =~= possible_providers(registry@, self@.resolution));
            },
        }
        out
    }

    /// Take the verdict of the budgets on the request as it stands.
    pub fn on_verdict(&mut self, registry: &Registry, verdict: Verdict) -> (r: BudgetStep)
        ensures
            (r@, final(self)@) == old(self)@.judged(registry@, verdict@),
    {
        match verdict {
            Verdict::Allow => BudgetStep::Pass,
            Verdict::Reject { because } => BudgetStep::Refuse(Error::OverBudget(because)),
            Verdict::Degrade { to, because } => {
                if let Some(current) = self.class(registry) {
                    self.visited.push(current);
                }
                let ghost seen = self.visited@;
                for i in 0..self.visited.len()
                    invariant
                        seen == self.visited@,
                        self@ == (WalkV { visited: seen, ..old(self)@ }),
                        seen == old(self)@.left(registry@),
                        verdict@ == (VerdictV::Degrade { to, because: because@ }),
                        forall|j: int| 0 <= j < i ==> seen[j] != to,
                {
                    if self.visited[i] == to {
                        assert(seen.contains(to));
                        // Following this would come back here, so refusing is the end.
                        return BudgetStep::Refuse(
                            Error::OverBudget(
                                concat(
                                    because.as_str(),
                                    ", and the class it degrades to is over its own limit",
                                ),
                            ),
                        );
                    }
                }
                assert(!seen.contains(to));
                self.resolution = Resolution::Class(to);
                BudgetStep::Ask
            },
        }
    }
}

/// How many classes are left to degrade to.
pub open spec fn classes_left(visited: Seq<ModelClass>) -> int {
    (if visited.contains(ModelClass::Opus) {
        0int
    } else {
        1
    }) + (if visited.contains(ModelClass::Sonnet) {
        0int
    } else {
        1
    }) + (if visited.contains(ModelClass::Haiku) {
        0int
    } else {
        1
    })
}

proof fn pushed_has(s: Seq<ModelClass>, x: ModelClass, y: ModelClass)
    ensures
        s.push(x).contains(y) == (s.contains(y) || x == y),
{
    if s.contains(y) {
        let k = choose|k: int| 0 <= k < s.len() && s[k] == y;
        assert(s.push(x)[k] == y);
    }
    if x == y {
        assert(s.push(x)[s.len() as int] == y);
    }
}

/// Degrading ends: from the second question on each one is for a class, and leaving
/// it uses it up, so no class is ever asked about twice and a walk asks at most four
/// times.
pub proof fn degrading_ends(w: WalkV, c: ConfigV, v: VerdictV)
    requires
        w.resolution matches ResolutionV::Class(class) ==> !w.visited.contains(class),
        w.judged(c, v).0 == StepV::Ask,
    ensures
        ({
            let next = w.judged(c, v).1;
            &&& next.resolution matches ResolutionV::Class(class) && !next.visited.contains(class)
            &&& w.resolution is Class ==> classes_left(next.visited) < classes_left(w.visited)
            &&& classes_left(next.visited) >= 1
        }),
{
    let next = w.judged(c, v).1;
    if let Some(class) = billed_class(c, w.resolution) {
        pushed_has(w.visited, class, ModelClass::Opus);
        pushed_has(w.visited, class, ModelClass::Sonnet);
        pushed_has(w.visited, class, ModelClass::Haiku);
    }
}

/// A limit cannot be routed around: a request passes only where the budgets allow
/// it as it then stands.
pub proof fn limits_hold(w: WalkV, c: ConfigV, v: VerdictV)
    ensures
        w.judged(c, v).0 == StepV::Pass <==> v == VerdictV::Allow,
        w.judged(c, v).0 == StepV::Pass ==> w.judged(c, v).1 == w,
{
}

// ------------------------------------------------------------------- attempts

/// What is sent in one attempt: the key and the body.
pub open spec fn prepared(
    c: CandidateV,
    req: RequestV,
    secret: Option<Seq<char>>,
    mode: EncodeMode,
) -> Result<(Option<Seq<char>>, Tree), ErrorV> {
    match server::key_of(c.provider, secret) {
        Ok(key) => match upstream::provider_body(
            c.provider,
            req,
            c.entry.upstream_model,
            c.entry.max_output_tokens,
            mode,
        ) {
            Ok(body) => Ok((key, body)),
            Err(e) => Err(e),
        },
        Err(e) => Err(e),
    }
}

/// Prepare one attempt: resolve the key and encode the upstream body.
///
/// `mode` is derived from the request kind: classifier queries are encoded in
/// fidelity mode so the verdict protocol survives providers whose quirks would
/// drop the stop sequence or the frozen temperature.
pub fn prepare(candidate: &Candidate, req: &ChatRequest, secret: Option<String>, mode: EncodeMode) -> (r: Result<
    (Option<String>, Json),
    Error,
>)
    ensures
        match r {
            Ok(p) => prepared(candidate@, req@, views::opt(secret), mode) == Ok::<(Option<Seq<char>>, Tree), ErrorV>(
                (views::opt(p.0), p.1@),
            ),
            Err(e) => prepared(candidate@, req@, views::opt(secret), mode) == Err::<(Option<Seq<char>>, Tree), ErrorV>(
                e@,
            ),
        },
{
    let key = match api_key(&candidate.provider, secret) {
        Ok(key) => key,
        Err(e) => {
            return Err(e);
        },
    };
    match encode_for_mode(
        &candidate.provider,
        req,
        candidate.entry.upstream_model.as_str(),
        candidate.entry.max_output_tokens,
        mode,
    ) {
        Ok(body) => Ok((key, body)),
        Err(e) => Err(e),
    }
}

/// Re-encode a (possibly repaired) IR request for one candidate.
pub fn reencode(candidate: &Candidate, req: &ChatRequest) -> (r: Option<Json>)
    ensures
        views::opt(r) == match upstream::provider_body(
            candidate@.provider,
            req@,
            candidate@.entry.upstream_model,
            candidate@.entry.max_output_tokens,
            EncodeMode::Normal,
        ) {
            Ok(body) => Some(body),
            Err(_) => None,
        },
{
    match encode_for_mode(
        &candidate.provider,
        req,
        candidate.entry.upstream_model.as_str(),
        candidate.entry.max_output_tokens,
        EncodeMode::Normal,
    ) {
        Ok(body) => Some(body),
        Err(_) => None,
    }
}

/// Whether a text carries a classifier's verdict, which stands between `<block>`
/// and a `</block>` behind it.
pub open spec fn has_verdict(s: Seq<char>) -> bool {
    let open = text::first_at(s, "<block>"@, 0);
    open >= 0 && text::occurs(s.skip(open + "<block>"@.len()), "</block>"@)
}

/// Whether a text carries a classifier's verdict.
pub fn carries_verdict(s: &str) -> (r: bool)
    ensures
        r == has_verdict(s@),
{
    proof {
        reveal_strlit("<block>");
    }
    match text::split_once(s, "<block>") {
        Some((_, rest)) => text::contains(rest, "</block>"),
        None => false,
    }
}

/// One client request on its way through its plan.
pub struct Attempts {
    pub kind: RequestKind,
    pub plan: Vec<Candidate>,
    /// How many candidates were tried.
    pub tried: usize,
    pub record: RecordBuilder,
    /// What the client is told when no candidate is left.
    pub last_error: Error,
    /// Whether an error was final.
    pub stopped: bool,
}

pub struct AttemptsV {
    pub kind: RequestKind,
    pub plan: Seq<CandidateV>,
    pub tried: int,
    pub record: RecordV,
    pub last_error: ErrorV,
    pub stopped: bool,
}

impl View for Attempts {
    type V = AttemptsV;

    open spec fn view(&self) -> AttemptsV {
        AttemptsV {
            kind: self.kind,
            plan: views::of(self.plan@),
            tried: self.tried as int,
            record: self.record@,
            last_error: self.last_error@,
            stopped: self.stopped,
        }
    }
}

/// The error of an answer to a classifier request without a verdict.
pub open spec fn no_verdict_error(id: Seq<char>) -> ErrorV {
    ErrorV::BadUpstreamPayload("classifier response from `"@ + id + "` carried no <block> verdict"@)
}

impl AttemptsV {
    pub open spec fn starting(record: RecordV, plan: Seq<CandidateV>, kind: RequestKind) -> AttemptsV {
        AttemptsV {
            kind,
            plan,
            tried: 0,
            record: RecordV { kind, ..record },
            last_error: ErrorV::NoCandidate(record.requested_model),
            stopped: false,
        }
    }

    /// Whether there is another candidate to try.
    pub open spec fn goes_on(self) -> bool {
        !self.stopped && self.tried < self.plan.len()
    }

    /// With the next candidate begun.
    pub open spec fn begun(self) -> AttemptsV {
        AttemptsV {
            tried: self.tried + 1,
            record: self.record.attempted().resolved(
                self.plan[self.tried].exposed_id,
                self.plan[self.tried].provider.name,
            ),
            ..self
        }
    }

    /// The candidate that was begun last.
    pub open spec fn current(self) -> CandidateV {
        self.plan[self.tried - 1]
    }

    /// After an attempt that failed: an error that no other candidate could mend is
    /// final.
    pub open spec fn failed(self, e: ErrorV) -> AttemptsV {
        AttemptsV { last_error: e, stopped: !e.retryable(), ..self }
    }

    /// After an attempt that could not even be sent, or was answered without a
    /// verdict.
    pub open spec fn passed_over(self, e: ErrorV) -> AttemptsV {
        AttemptsV { last_error: e, ..self }
    }

    /// Whether an answer counts: a classifier's only with a verdict.
    pub open spec fn accepts(self, answer: Seq<char>) -> bool {
        self.kind == RequestKind::Main || has_verdict(answer)
    }

    /// The record of the request when no candidate is left.
    pub open spec fn failure_record(self, latency_ms: u64) -> RecordV {
        self.record.failed(self.last_error.status(), self.last_error.message()).finished(latency_ms)
    }
}

impl Attempts {
    pub fn new(record: RecordBuilder, plan: Vec<Candidate>, kind: RequestKind) -> (r: Attempts)
        ensures
            r@ == AttemptsV::starting(record@, views::of(plan@), kind),
    {
        let requested = record.requested_model().to_owned();
        let mut record = record;
        record.kind(kind);
        Attempts {
            kind,
            plan,
            tried: 0,
            record,
            last_error: Error::NoCandidate(requested),
            stopped: false,
        }
    }

    /// Begin the next attempt: the candidate to try, or `None` when it is over.
    pub fn begin(&mut self) -> (r: Option<usize>)
        requires
            old(self)@.record.attempts < u32::MAX,
        ensures
            match r {
                Some(i) => old(self)@.goes_on() && i == old(self).tried && i < final(self).plan@.len() && final(self)@
                    == old(self)@.begun(),
                None => !old(self)@.goes_on() && final(self)@ == old(self)@,
            },
    {
        assert(views::of(self.plan@).len() == self.plan@.len());
        if self.stopped || self.tried >= self.plan.len() {
            return None;
        }
        let i = self.tried;
        assert(views::of(self.plan@)[i as int] == self.plan@[i as int]@);
        self.record.attempt();
        let c = &self.plan[i];
        self.record.resolved(c.exposed_id.as_str(), c.provider.name.as_str());
        self.tried = i + 1;
        Some(i)
    }

    /// The candidate could not be prepared: the failure counts against it, and the
    /// next one is tried.
    pub fn on_unprepared(&mut self, router: &mut Router, e: Error, routing: &RoutingConfig, now: u64)
        requires
            1 <= old(self).tried <= old(self).plan@.len(),
            old(router)@.has_room(old(self)@.current().exposed_id),
        ensures
            final(self)@ == old(self)@.passed_over(e@),
            final(router)@ == old(router)@.failed(
                old(self)@.current().exposed_id,
                e@,
                routing.circuit_breaker,
                now,
            ),
    {
        let ghost c = self.plan@[self.tried - 1]@;
        assert(self@.current() == c);
        router.report_failure(self.plan[self.tried - 1].exposed_id.as_str(), &e, routing, now);
        self.last_error = e;
    }

    /// An answer came, directly or, where `repaired`, to a repaired request. Says
    /// whether it is served.
    ///
    /// A classifier answer is only a success when it carries a verdict. HTTP 200
    /// without `<block>…</block>` is not an approval — the model failed to do its job,
    /// so the attempt is reported, the failure is recorded and the next candidate
    /// is tried. There is no "looks safe" fallback.
    ///
    /// A repaired retry is not a fresh probe: it gives the half-open permit back
    /// without recording health.
    pub fn on_answer(
        &mut self,
        router: &mut Router,
        answer: &ChatResponse,
        repaired: bool,
        latency_rank: u64,
        routing: &RoutingConfig,
        now: u64,
    ) -> (r: bool)
        requires
            1 <= old(self).tried <= old(self).plan@.len(),
            old(router)@.has_room(old(self)@.current().exposed_id),
        ensures
            ({
                let id = old(self)@.current().exposed_id;
                let counts = old(self)@.accepts(ir::texts_of(answer@.content, 0, Seq::empty()));
                &&& r == counts
                &&& final(self)@ == if counts {
                    old(self)@
                } else {
                    old(self)@.passed_over(no_verdict_error(id))
                }
                &&& final(router)@ == if repaired {
                    old(router)@.released(id)
                } else if counts {
                    old(router)@.succeeded(id, latency_rank, routing.circuit_breaker)
                } else {
                    old(router)@.failed(id, no_verdict_error(id), routing.circuit_breaker, now)
                }
            }),
    {
        let ghost c = self.plan@[self.tried - 1]@;
        assert(self@.current() == c);
        let id = self.plan[self.tried - 1].exposed_id.clone();
        if repaired {
            router.release_half_open_permit(id.as_str());
        }
        let counts = if self.kind.is_main() {
            true
        } else {
            let said = answer.text();
            carries_verdict(said.as_str())
        };
        if counts {
            if !repaired {
                router.report_success(id.as_str(), latency_rank, routing);
            }
            true
        } else {
            let e = Error::BadUpstreamPayload(
                concat3("classifier response from `", id.as_str(), "` carried no <block> verdict"),
            );
            if !repaired {
                router.report_failure(id.as_str(), &e, routing, now);
            }
            self.last_error = e;
            false
        }
    }

    /// A stream opened, directly or, where `repaired`, to a repaired request.
    ///
    /// Health is reported once, here: the handshake is the part a routing decision can
    /// act on (responsiveness and reachability), while total stream duration mostly
    /// measures how long the answer was. Reporting again when the stream ends would
    /// double-count every streaming request in the average.
    pub fn on_stream_open(&self, router: &mut Router, repaired: bool, latency_rank: u64, routing: &RoutingConfig)
        requires
            1 <= self.tried <= self.plan@.len(),
            old(router)@.has_room(self@.current().exposed_id),
        ensures
            final(router)@ == if repaired {
                old(router)@.released(self@.current().exposed_id)
            } else {
                old(router)@.succeeded(self@.current().exposed_id, latency_rank, routing.circuit_breaker)
            },
    {
        assert(self@.current() == self.plan@[self.tried - 1]@);
        let id = self.plan[self.tried - 1].exposed_id.as_str();
        if repaired {
            router.release_half_open_permit(id);
        } else {
            router.report_success(id, latency_rank, routing);
        }
    }

    /// The attempt failed, and repairing the request did not help. The failure counts
    /// against the candidate; one that no other candidate could mend is final.
    pub fn on_failure(&mut self, router: &mut Router, e: Error, routing: &RoutingConfig, now: u64)
        requires
            1 <= old(self).tried <= old(self).plan@.len(),
            old(router)@.has_room(old(self)@.current().exposed_id),
            !old(self).stopped,
        ensures
            final(self)@ == old(self)@.failed(e@),
            final(router)@ == old(router)@.failed(
                old(self)@.current().exposed_id,
                e@,
                routing.circuit_breaker,
                now,
            ),
    {
        assert(self@.current() == self.plan@[self.tried - 1]@);
        router.report_failure(self.plan[self.tried - 1].exposed_id.as_str(), &e, routing, now);
        self.stopped = !e.is_retryable();
        self.last_error = e;
    }

    /// Serve an answer: the record of the request, and the answer under the name of
    /// the model that gave it.
    pub fn serve(self, answer: ChatResponse, latency_ms: u64) -> (r: (RequestRecord, ChatResponse))
        requires
            1 <= self.tried <= self.plan@.len(),
        ensures
            r.0@ == (RecordV { usage: answer.usage, ..self@.record }).finished(latency_ms),
            r.1@ == (ResponseV { model: self@.current().exposed_id, ..answer@ }),
    {
        assert(self@.current() == self.plan@[self.tried - 1]@);
        let model = self.plan[self.tried - 1].exposed_id.clone();
        let mut record = self.record;
        record.usage(answer.usage);
        let mut answer = answer;
        // Report the model that actually answered, not the virtual id.
        answer.model = model;
        (record.finish(latency_ms), answer)
    }

    /// No candidate is left: the record of the request, and the error to tell.
    pub fn give_up(self, latency_ms: u64) -> (r: (RequestRecord, Error))
        ensures
            r.0@ == self@.failure_record(latency_ms),
            r.1@ == self@.last_error,
    {
        let mut record = self.record;
        record.fail(self.last_error.status(), self.last_error.to_string());
        (record.finish(latency_ms), self.last_error)
    }
}

// -------------------------------------------------------------------- repair

/// A rejected request on its way through the rectifiers, each of which may repair it
/// up to three times. A retry is deliberately not reported to the circuit breaker: it
/// is the same provider and same model, and the failure was a fixable request-shape
/// problem.
pub struct Repairs {
    pub rectifiers: Vec<AnyRectifier>,
    /// The rectifier whose turn it is.
    pub at: usize,
    /// How often it has repaired.
    pub rounds: u32,
    /// The body as it was last sent.
    pub body: Json,
    /// Why it was rejected.
    pub error: Error,
    /// Whether a repaired request was sent and failed.
    pub retried: bool,
}

pub struct RepairsV {
    pub rectifiers: Seq<AnyRectifier>,
    pub at: int,
    pub rounds: u32,
    pub body: Tree,
    pub error: ErrorV,
    pub retried: bool,
}

impl View for Repairs {
    type V = RepairsV;

    open spec fn view(&self) -> RepairsV {
        RepairsV {
            rectifiers: self.rectifiers@,
            at: self.at as int,
            rounds: self.rounds,
            body: self.body@,
            error: self.error@,
            retried: self.retried,
        }
    }
}

/// Whether a rectifier has a repair for a rejected body.
pub open spec fn can_repair(r: AnyRectifier, error: ErrorV, body: Tree) -> bool {
    r.applies(error) && r.repaired(body).applied
}

impl RepairsV {
    /// The rectifier, from the one whose turn it is on, that repairs next: the current
    /// one has three rounds, every other a fresh start.
    pub open spec fn repairer(self, i: int) -> Option<int>
        decreases self.rectifiers.len() - i,
    {
        if i < 0 || i >= self.rectifiers.len() {
            None
        } else if can_repair(self.rectifiers[i], self.error, self.body) && !(i == self.at && self.rounds >= 3) {
            Some(i)
        } else {
            self.repairer(i + 1)
        }
    }

    /// With a repair made by the `i`th rectifier.
    pub open spec fn repaired_by(self, i: int) -> RepairsV {
        RepairsV {
            at: i,
            rounds: (if i == self.at {
                self.rounds + 1
            } else {
                1
            }) as u32,
            body: self.rectifiers[i].repaired(self.body).body,
            ..self
        }
    }
}

impl Repairs {
    pub fn new(config: &RectifierConfig, body: Json, error: Error) -> (r: Repairs)
        ensures
            r@ == (RepairsV {
                rectifiers: rectifier::enabled(*config),
                at: 0,
                rounds: 0,
                body: body@,
                error: error@,
                retried: false,
            }),
    {
        Repairs { rectifiers: rectifier::from_config(config), at: 0, rounds: 0, body, error, retried: false }
    }

    /// Repair the request once more: says whether there is a body to send.
    pub fn repair(&mut self) -> (r: bool)
        ensures
            match old(self)@.repairer(old(self)@.at) {
                Some(i) => r && final(self)@ == old(self)@.repaired_by(i),
                None => !r && final(self)@ == old(self)@,
            },
    {
        let ghost before = self@;
        let mut i: usize = self.at;
        let n = self.rectifiers.len();
        while i < n
            invariant
                n == self.rectifiers@.len(),
                before == self@,
                before == old(self)@,
                before.at <= i,
                i <= n || i == before.at,
                before.repairer(before.at) == before.repairer(i as int),
            decreases n - i,
        {
            let turn = !(i == self.at && self.rounds >= 3);
            if turn && self.rectifiers[i].should_apply(&self.error, &self.body) {
                let mut modified = self.body.clone();
                let result = self.rectifiers[i].rectify(&mut modified);
                if result.applied {
                    self.body = modified;
                    self.rounds = if i == self.at {
                        self.rounds + 1
                    } else {
                        1
                    };
                    self.at = i;
                    return true;
                }
            }
            i = i + 1;
        }
        false
    }

    /// The repaired request failed too.
    pub fn on_failure(&mut self, e: Error)
        ensures
            final(self)@ == (RepairsV { error: e@, retried: true, ..old(self)@ }),
    {
        self.error = e;
        self.retried = true;
    }
}

/// How many repairs are left at most.
pub open spec fn repairs_left(r: RepairsV) -> int {
    3 * (r.rectifiers.len() - r.at) - r.rounds
}

pub proof fn repairer_is_ahead(r: RepairsV, i: int)
    requires
        0 <= i,
    ensures
        r.repairer(i) matches Some(k) ==> i <= k < r.rectifiers.len() && !(k == r.at && r.rounds >= 3),
    decreases r.rectifiers.len() - i,
{
    if i < r.rectifiers.len() && !(can_repair(r.rectifiers[i], r.error, r.body) && !(i == r.at && r.rounds >= 3)) {
        repairer_is_ahead(r, i + 1);
    }
}

/// Repairing ends: every repair leaves fewer, whatever the retries come to, and no
/// rectifier repairs more than three times.
pub proof fn repairing_ends(r: RepairsV, e: ErrorV)
    requires
        0 <= r.at,
        r.rounds <= 3,
        r.repairer(r.at) is Some,
    ensures
        ({
            let next = r.repaired_by(r.repairer(r.at)->0);
            &&& repairs_left(next) < repairs_left(r)
            &&& repairs_left(next) >= 0
            &&& next.rounds <= 3
            &&& repairs_left(RepairsV { error: e, retried: true, ..next }) == repairs_left(next)
        }),
{
    repairer_is_ahead(r, r.at);
}

// -------------------------------------------------------------------- images

/// How far the images of a request were gone through: the blocks so far, and how
/// many images were among them.
pub struct Described {
    pub blocks: Seq<BlockV>,
    pub images: int,
}

/// What stands for the `k`th image: its description, or the placeholder where there
/// is none.
pub open spec fn stand_in(descriptions: Seq<Option<Seq<char>>>, placeholder: Seq<char>, k: int) -> BlockV {
    if 0 <= k < descriptions.len() {
        match descriptions[k] {
            Some(d) => ir::text_block(d),
            None => ir::text_block(placeholder),
        }
    } else {
        ir::text_block(placeholder)
    }
}

/// The blocks from `i` on with what stands for their images, behind `d`.
pub open spec fn blocks_described(
    blocks: Seq<BlockV>,
    i: int,
    d: Described,
    descriptions: Seq<Option<Seq<char>>>,
    placeholder: Seq<char>,
) -> Described
    decreases blocks.len() - i,
{
    if i < 0 || i >= blocks.len() {
        d
    } else if blocks[i] is Image {
        blocks_described(
            blocks,
            i + 1,
            Described { blocks: d.blocks.push(stand_in(descriptions, placeholder, d.images)), images: d.images + 1 },
            descriptions,
            placeholder,
        )
    } else {
        blocks_described(
            blocks,
            i + 1,
            Described { blocks: d.blocks.push(blocks[i]), ..d },
            descriptions,
            placeholder,
        )
    }
}

/// The messages from `i` on with what stands for their images, behind `sofar`;
/// `images` came before.
pub open spec fn messages_described(
    messages: Seq<MessageV>,
    i: int,
    sofar: Seq<MessageV>,
    images: int,
    descriptions: Seq<Option<Seq<char>>>,
    placeholder: Seq<char>,
) -> Seq<MessageV>
    decreases messages.len() - i,
{
    if i < 0 || i >= messages.len() {
        sofar
    } else {
        let d = blocks_described(
            messages[i].content,
            0,
            Described { blocks: Seq::empty(), images },
            descriptions,
            placeholder,
        );
        messages_described(
            messages,
            i + 1,
            sofar.push(MessageV { role: messages[i].role, content: d.blocks }),
            d.images,
            descriptions,
            placeholder,
        )
    }
}

/// The images of the blocks from `i` on, behind `sofar`.
pub open spec fn block_images(blocks: Seq<BlockV>, i: int, sofar: Seq<SourceV>) -> Seq<SourceV>
    decreases blocks.len() - i,
{
    if i < 0 || i >= blocks.len() {
        sofar
    } else {
        match blocks[i] {
            BlockV::Image { source } => block_images(blocks, i + 1, sofar.push(source)),
            _ => block_images(blocks, i + 1, sofar),
        }
    }
}

/// The images of the messages from `i` on, behind `sofar`.
pub open spec fn message_images(messages: Seq<MessageV>, i: int, sofar: Seq<SourceV>) -> Seq<SourceV>
    decreases messages.len() - i,
{
    if i < 0 || i >= messages.len() {
        sofar
    } else {
        message_images(messages, i + 1, block_images(messages[i].content, 0, sofar))
    }
}

fn collect_blocks(blocks: &Vec<ContentBlock>, out: &mut Vec<MediaSource>)
    ensures
        views::of(final(out)@) == block_images(views::of(blocks@), 0, views::of(old(out)@)),
{
    let ghost all = views::of(blocks@);
    let ghost start = views::of(out@);
    for i in 0..blocks.len()
        invariant
            all == views::of(blocks@),
            block_images(all, 0, start) == block_images(all, i as int, views::of(out@)),
    {
        assert(all[i as int] == blocks@[i as int]@);
        if let ContentBlock::Image { source } = &blocks[i] {
            out.push(source.clone());
        }
    }
}

/// The images of a request, in order.
pub fn collect_images(req: &ChatRequest) -> (r: Vec<MediaSource>)
    ensures
        views::of(r@) == message_images(req@.messages, 0, Seq::empty()),
{
    let ghost all = req@.messages;
    let mut out: Vec<MediaSource> = Vec::new();
    for i in 0..req.messages.len()
        invariant
            all == views::of(req.messages@),
            message_images(all, 0, Seq::empty()) == message_images(all, i as int, views::of(out@)),
    {
        assert(all[i as int] == req.messages@[i as int]@);
        collect_blocks(&req.messages[i].content, &mut out);
    }
    out
}

/// What descriptions say.
pub open spec fn said(descriptions: Seq<Option<String>>) -> Seq<Option<Seq<char>>> {
    Seq::new(descriptions.len(), |i: int| views::opt(descriptions[i]))
}

fn standing_in(descriptions: &Vec<Option<String>>, placeholder: &str, k: usize) -> (r: ContentBlock)
    ensures
        r@ == stand_in(said(descriptions@), placeholder@, k as int),
{
    if k < descriptions.len() {
        match &descriptions[k] {
            Some(d) => ContentBlock::text(d.as_str()),
            None => ContentBlock::text(placeholder),
        }
    } else {
        ContentBlock::text(placeholder)
    }
}

/// Put descriptions in place of the images of a request, so that a model that cannot
/// see still receives their content.
///
/// Each image is described independently — one blind image must not sink the others.
/// Images that cannot be described get the placeholder, never a silent drop: a text
/// model that receives nothing where an image was has no way to know it is missing
/// something.
pub fn apply_descriptions(req: &mut ChatRequest, descriptions: &Vec<Option<String>>, placeholder: &str)
    ensures
        final(req)@ == (RequestV {
            messages: messages_described(
                old(req)@.messages,
                0,
                Seq::empty(),
                0,
                said(descriptions@),
                placeholder@,
            ),
            ..old(req)@
        }),
{
    let ghost all = req@.messages;
    let ghost ds = said(descriptions@);
    let n = descriptions.len();
    let mut messages: Vec<Message> = Vec::new();
    // Beyond the descriptions the exact place no longer matters.
    let mut images: usize = 0;
    let ghost mut count: int = 0;
    for i in 0..req.messages.len()
        invariant
            all == views::of(req.messages@),
            ds == said(descriptions@),
            n == descriptions@.len(),
            req@ == old(req)@,
            images <= n && (images == count || (images == n && count > n)),
            messages_described(all, 0, Seq::empty(), 0, ds, placeholder@) == messages_described(
                all,
                i as int,
                views::of(messages@),
                count,
                ds,
                placeholder@,
            ),
    {
        assert(all[i as int] == req.messages@[i as int]@);
        let content = &req.messages[i].content;
        let ghost blocks = all[i as int].content;
        let mut out: Vec<ContentBlock> = Vec::new();
        let ghost first = count;
        for j in 0..content.len()
            invariant
                blocks == views::of(content@),
                ds == said(descriptions@),
                n == descriptions@.len(),
                images <= n && (images == count || (images == n && count > n)),
                blocks_described(
                    blocks,
                    0,
                    Described { blocks: Seq::empty(), images: first },
                    ds,
                    placeholder@,
                ) == blocks_described(
                    blocks,
                    j as int,
                    Described { blocks: views::of(out@), images: count },
                    ds,
                    placeholder@,
                ),
        {
            assert(blocks[j as int] == content@[j as int]@);
            if let ContentBlock::Image { .. } = &content[j] {
                out.push(standing_in(descriptions, placeholder, images));
                if images < n {
                    images = images + 1;
                }
                proof {
                    count = count + 1;
                }
            } else {
                out.push(content[j].clone());
            }
        }
        messages.push(Message { role: req.messages[i].role, content: out });
    }
    req.messages = messages;
}

proof fn described_blocks_hold_no_image(
    blocks: Seq<BlockV>,
    i: int,
    d: Described,
    descriptions: Seq<Option<Seq<char>>>,
    placeholder: Seq<char>,
)
    requires
        0 <= i <= blocks.len(),
        d.blocks.len() == i,
        forall|k: int| 0 <= k < d.blocks.len() ==> !((#[trigger] d.blocks[k]) is Image),
    ensures
        ({
            let r = blocks_described(blocks, i, d, descriptions, placeholder).blocks;
            r.len() == blocks.len() && forall|k: int| 0 <= k < r.len() ==> !((#[trigger] r[k]) is Image)
        }),
    decreases blocks.len() - i,
{
    if i < blocks.len() {
        if blocks[i] is Image {
            described_blocks_hold_no_image(
                blocks,
                i + 1,
                Described { blocks: d.blocks.push(stand_in(descriptions, placeholder, d.images)), images: d.images + 1 },
                descriptions,
                placeholder,
            );
        } else {
            described_blocks_hold_no_image(
                blocks,
                i + 1,
                Described { blocks: d.blocks.push(blocks[i]), ..d },
                descriptions,
                placeholder,
            );
        }
    }
}

/// Whether a message holds no image and as many blocks as another.
pub open spec fn sightless(m: MessageV, like: MessageV) -> bool {
    &&& m.role == like.role
    &&& m.content.len() == like.content.len()
    &&& forall|k: int| 0 <= k < m.content.len() ==> !((#[trigger] m.content[k]) is Image)
}

/// No image is dropped and none stays: after a description every message is still
/// there, with as many blocks as before, and no block is an image.
pub proof fn descriptions_replace_every_image(
    messages: Seq<MessageV>,
    i: int,
    sofar: Seq<MessageV>,
    images: int,
    descriptions: Seq<Option<Seq<char>>>,
    placeholder: Seq<char>,
)
    requires
        0 <= i <= messages.len(),
        sofar.len() == i,
        forall|k: int| 0 <= k < i ==> sightless(#[trigger] sofar[k], messages[k]),
    ensures
        ({
            let r = messages_described(messages, i, sofar, images, descriptions, placeholder);
            r.len() == messages.len() && forall|k: int| 0 <= k < r.len() ==> sightless(#[trigger] r[k], messages[k])
        }),
    decreases messages.len() - i,
{
    if i < messages.len() {
        let start = Described { blocks: Seq::empty(), images };
        described_blocks_hold_no_image(messages[i].content, 0, start, descriptions, placeholder);
        let d = blocks_described(messages[i].content, 0, start, descriptions, placeholder);
        descriptions_replace_every_image(
            messages,
            i + 1,
            sofar.push(MessageV { role: messages[i].role, content: d.blocks }),
            d.images,
            descriptions,
            placeholder,
        );
    }
}

/// The first model from index `i` on that sees and is in use, with its provider.
pub open spec fn seeing_from(config: ConfigV, i: int) -> Option<CandidateV>
    decreases config.models.len() - i,
{
    if i < 0 || i >= config.models.len() {
        None
    } else {
        let m = config.models[i];
        match config.provider(m.provider_id) {
            Some(p) => if m.enabled && m.supports_vision && p.enabled {
                Some(router::attempt(m, p, false))
            } else {
                seeing_from(config, i + 1)
            },
            None => seeing_from(config, i + 1),
        }
    }
}

/// The model that describes images: the first that sees and is in use.
pub fn vision_target(config: &AppConfig) -> (r: Option<Candidate>)
    ensures
        views::opt(r) == seeing_from(config@, 0),
{
    let ghost all = views::of(config.models@);
    for i in 0..config.models.len()
        invariant
            all == views::of(config.models@),
            all == config@.models,
            seeing_from(config@, 0) == seeing_from(config@, i as int),
    {
        assert(all[i as int] == config.models@[i as int]@);
        let m = &config.models[i];
        if let Some(p) = config.provider(m.provider_id.as_str()) {
            if m.enabled && m.supports_vision && p.enabled {
                return Some(Candidate::new(m, p, false));
            }
        }
    }
    None
}

/// Whether the images of a request are described before it is sent: the target is
/// known not to see, and the fallback is on.
///
/// Unknown capability is deliberately left alone — the upstream decides, and the
/// rectifier reacts. With vision fallback off entirely, the request goes out as it
/// came.
pub fn describes_first(vision_enabled: bool, candidate: &Candidate, req: &ChatRequest) -> (r: bool)
    ensures
        r == (vision_enabled && !candidate@.entry.supports_vision && message_images(
            req@.messages,
            0,
            Seq::empty(),
        ).len() > 0),
{
    if !vision_enabled || candidate.entry.supports_vision {
        return false;
    }
    let images = collect_images(req);
    assert(views::of(images@).len() == images@.len());
    images.len() > 0
}

/// Whether the images of a rejected request are described and the request is sent
/// again: only when the upstream said "no images" and the request still carries them.
pub fn describes_after(vision_enabled: bool, error: &Error, req: &ChatRequest) -> (r: bool)
    ensures
        r == (vision_enabled && MediaFallbackRectifier.applies(error@) && message_images(
            req@.messages,
            0,
            Seq::empty(),
        ).len() > 0),
{
    if !vision_enabled || !MediaFallbackRectifier.should_apply(error, &Json::Null) {
        return false;
    }
    let images = collect_images(req);
    assert(views::of(images@).len() == images@.len());
    images.len() > 0
}

// ------------------------------------------------------------------- headers

type Headers = reqwest::header::HeaderMap<reqwest::header::HeaderValue>;

/// The headers with one set, where its value is one.
pub open spec fn set_if_valid(m: upstream::Texts, name: Seq<char>, value: Seq<char>) -> upstream::Texts {
    if headers::is_value(value) {
        m.insert(name, value)
    } else {
        m
    }
}

/// The headers that say who answered.
pub open spec fn routed_headers(m: upstream::Texts, c: CandidateV, kind: RequestKind) -> upstream::Texts {
    let a = set_if_valid(m, "x-zroutery-model"@, c.exposed_id);
    let b = set_if_valid(a, "x-zroutery-provider"@, c.provider.name);
    let d = if c.degraded {
        b.insert("x-zroutery-degraded"@, "1"@)
    } else {
        b
    };
    if kind == RequestKind::Main {
        d
    } else {
        d.insert("x-zroutery-classifier"@, "1"@)
    }
}

/// Say in the headers of an answer who gave it.
pub fn inject_routing_headers(headers: &mut Headers, candidate: &Candidate, kind: RequestKind)
    requires
        headers::has_room(headers::header_texts(*old(headers))),
    ensures
        headers::header_texts(*final(headers)) == routed_headers(
            headers::header_texts(*old(headers)),
            candidate@,
            kind,
        ),
{
    proof {
        headers::routing_names_are_names();
    }
    if is_header_value(candidate.exposed_id.as_str()) {
        insert_header(headers, "x-zroutery-model", candidate.exposed_id.as_str());
    }
    if is_header_value(candidate.provider.name.as_str()) {
        insert_header(headers, "x-zroutery-provider", candidate.provider.name.as_str());
    }
    if candidate.degraded {
        insert_header(headers, "x-zroutery-degraded", "1");
    }
    if !kind.is_main() {
        insert_header(headers, "x-zroutery-classifier", "1");
    }
}

/// Report the estimated spend of a buffered answer.
///
/// Streaming answers cannot carry this: the headers are long gone by the time the
/// usage arrives, so a stream's cost shows up in the Activity tab instead.
pub fn inject_cost_header(headers: &mut Headers, cost: Option<&str>)
    requires
        headers::has_room(headers::header_texts(*old(headers))),
    ensures
        headers::header_texts(*final(headers)) == match cost {
            Some(c) => set_if_valid(headers::header_texts(*old(headers)), "x-zroutery-cost"@, c@),
            None => headers::header_texts(*old(headers)),
        },
{
    proof {
        headers::routing_names_are_names();
    }
    if let Some(c) = cost {
        if is_header_value(c) {
            insert_header(headers, "x-zroutery-cost", c);
        }
    }
}

// ------------------------------------------------------------------- streams

/// A streaming answer on its way to the client: canonical events go in, frames of the
/// client's dialect come out, and the request is recorded exactly once.
pub struct SseRun {
    pub encoder: AnyEncoder,
    /// Frames that wait to be sent.
    pub pending: VecDeque<SseFrame>,
    /// The record of the request, until it is made.
    pub record: Option<RecordBuilder>,
    pub model_id: String,
    pub usage: Usage,
    /// Set for classifier streams, which accumulate their text so the verdict
    /// can be checked once the stream ends. Main streams never pay for this.
    pub classifier_text: Option<String>,
    pub finished: bool,
}

/// What a stream's run knows beside its frames.
pub struct RunV {
    pub record: Option<RecordV>,
    pub usage: Usage,
    pub classifier_text: Option<Seq<char>>,
}

impl SseRun {
    pub open spec fn facts(self) -> RunV {
        RunV {
            record: views::opt(self.record),
            usage: self.usage,
            classifier_text: views::opt(self.classifier_text),
        }
    }
}

impl RunV {
    pub open spec fn first_token(self, ms: u64) -> RunV {
        RunV {
            record: match self.record {
                Some(r) => Some(r.first_token(ms)),
                None => None,
            },
            ..self
        }
    }

    /// After an event that came `ms` milliseconds into the request.
    pub open spec fn saw(self, event: EventV, ms: u64) -> RunV {
        match event {
            EventV::ThinkingDelta { .. } => self.first_token(ms),
            EventV::TextDelta { text, .. } => RunV {
                classifier_text: match self.classifier_text {
                    Some(t) => Some(t + text),
                    None => None,
                },
                ..self.first_token(ms)
            },
            EventV::Start { usage, .. } => RunV { usage, ..self },
            EventV::Stop { usage, .. } => RunV { usage, ..self },
            _ => self,
        }
    }

    /// The record of the request when the stream ends, for any reason.
    pub open spec fn final_record(self, error: Option<ErrorV>, latency_ms: u64) -> Option<RecordV> {
        match self.record {
            Some(r) => {
                let used = RecordV { usage: self.usage, ..r };
                Some(
                    match error {
                        Some(e) => used.failed(e.status(), e.message()).finished(latency_ms),
                        None => used.finished(latency_ms),
                    },
                )
            },
            None => None,
        }
    }
}

impl SseRun {
    pub fn new(encoder: AnyEncoder, record: RecordBuilder, model_id: &str, kind: RequestKind) -> (r: SseRun)
        ensures
            r.encoder == encoder,
            r.pending@ == Seq::<SseFrame>::empty(),
            r.model_id@ == model_id@,
            !r.finished,
            r.facts() == (RunV {
                record: Some(record@),
                usage: ir::no_usage(),
                classifier_text: if kind == RequestKind::Main {
                    None
                } else {
                    Some(Seq::empty())
                },
            }),
    {
        let classifier_text = if kind.is_main() {
            None
        } else {
            let empty = String::new();
            assert(empty@ =~= Seq::empty());
            Some(empty)
        };
        SseRun {
            encoder,
            pending: VecDeque::new(),
            record: Some(record),
            model_id: model_id.to_owned(),
            usage: Usage::default(),
            classifier_text,
            finished: false,
        }
    }

    /// The next frame to send, as it goes over the wire.
    pub fn next_frame(&mut self) -> (r: Option<String>)
        ensures
            match r {
                Some(wire) => old(self).pending@.len() > 0 && wire@ == old(self).pending@[0]@.wire()
                    && final(self).pending@ == old(self).pending@.skip(1),
                None => old(self).pending@.len() == 0 && final(self).pending@ == old(self).pending@,
            },
            final(self).encoder == old(self).encoder,
            final(self).facts() == old(self).facts(),
            final(self).model_id == old(self).model_id,
            final(self).finished == old(self).finished,
    {
        let ghost before = self.pending@;
        match self.pending.pop_front() {
            Some(frame) => {
                assert(self.pending@ =~= before.skip(1));
                Some(frame.to_wire())
            },
            None => None,
        }
    }

    fn queue(&mut self, frames: Vec<SseFrame>)
        ensures
            views::of(final(self).pending@) == views::of(old(self).pending@) + views::of(frames@),
            final(self).encoder == old(self).encoder,
            final(self).facts() == old(self).facts(),
            final(self).model_id == old(self).model_id,
            final(self).finished == old(self).finished,
    {
        let ghost start = views::of(self.pending@);
        let ghost all = views::of(frames@);
        let mut rest = frames;
        let ghost mut n: int = 0;
        while rest.len() > 0
            invariant
                0 <= n <= all.len(),
                views::of(rest@) == all.skip(n),
                views::of(self.pending@) == start + all.take(n),
                self.encoder == old(self).encoder,
                self.facts() == old(self).facts(),
                self.model_id == old(self).model_id,
                self.finished == old(self).finished,
            decreases rest@.len(),
        {
            let ghost before = views::of(rest@);
            assert(before.len() == rest@.len());
            assert(before[0] == rest@[0]@);
            let f = rest.remove(0);
            assert(views::of(rest@) =~= before.skip(1));
            assert(all.skip(n).skip(1) =~= all.skip(n + 1));
            assert(start + all.take(n + 1) =~= (start + all.take(n)).push(all[n]));
            self.pending.push_back(f);
            proof {
                n = n + 1;
            }
        }
        assert(views::of(rest@).len() == 0);
        assert(all.take(n) =~= all);
    }

    fn note_token(&mut self, ms: u64)
        ensures
            final(self).facts() == old(self).facts().first_token(ms),
            final(self).pending == old(self).pending,
            final(self).encoder == old(self).encoder,
            final(self).model_id == old(self).model_id,
            final(self).finished == old(self).finished,
    {
        let mut none: Option<RecordBuilder> = None;
        std::mem::swap(&mut none, &mut self.record);
        if let Some(record) = none {
            let mut record = record;
            record.ttft(ms);
            self.record = Some(record);
        }
    }

    /// Take an event that came `elapsed_ms` milliseconds into the request.
    pub fn on_event(&mut self, event: &StreamEvent, elapsed_ms: u64)
        ensures
            final(self).facts() == old(self).facts().saw(event@, elapsed_ms),
            exists|frames: Vec<SseFrame>|
                #[trigger] protocol::wrote(old(self).encoder, final(self).encoder, event@, frames) && views::of(
                    final(self).pending@,
                ) == views::of(old(self).pending@) + views::of(frames@),
            final(self).model_id == old(self).model_id,
            final(self).finished == old(self).finished,
    {
        match event {
            StreamEvent::ThinkingDelta { .. } => {
                self.note_token(elapsed_ms);
            },
            StreamEvent::TextDelta { text, .. } => {
                self.note_token(elapsed_ms);
                // Classifier streams keep their text so the verdict can be checked
                // once the stream ends.
                let mut none: Option<String> = None;
                std::mem::swap(&mut none, &mut self.classifier_text);
                if let Some(sofar) = none {
                    self.classifier_text = Some(concat(sofar.as_str(), text.as_str()));
                }
            },
            StreamEvent::Start { usage, .. } => {
                self.usage = *usage;
            },
            StreamEvent::Stop { usage, .. } => {
                self.usage = *usage;
            },
            _ => {},
        }
        let frames = self.encoder.encode(event);
        assert(protocol::wrote(old(self).encoder, self.encoder, event@, frames));
        self.queue(frames);
    }

    /// Record the request exactly once, when the stream ends for any reason: `None`
    /// where it was recorded already.
    pub fn finalize(&mut self, error: Option<&Error>, router: &mut Router, routing: &RoutingConfig, now: u64, latency_ms:
        u64) -> (r: Option<RequestRecord>)
        requires
            old(router)@.has_room(old(self).model_id@),
        ensures
            views::opt(r) == old(self).facts().final_record(
                match error {
                    Some(e) => Some(e@),
                    None => None,
                },
                latency_ms,
            ),
            final(self).facts() == (RunV { record: None, ..old(self).facts() }),
            final(self).pending == old(self).pending,
            final(self).encoder == old(self).encoder,
            final(self).model_id == old(self).model_id,
            final(self).finished == old(self).finished,
            final(router)@ == match error {
                Some(e) => if old(self).record is Some {
                    old(router)@.failed(old(self).model_id@, e@, routing.circuit_breaker, now)
                } else {
                    old(router)@
                },
                None => old(router)@,
            },
    {
        let mut taken: Option<RecordBuilder> = None;
        std::mem::swap(&mut taken, &mut self.record);
        match taken {
            Some(record) => {
                let mut record = record;
                record.usage(self.usage);
                if let Some(e) = error {
                    record.fail(e.status(), e.to_string());
                    router.report_failure(self.model_id.as_str(), e, routing, now);
                }
                Some(record.finish(latency_ms))
            },
            None => None,
        }
    }

    /// The upstream failed in the middle: the client is told in its own dialect.
    pub fn on_error(&mut self, err: &Error, router: &mut Router, routing: &RoutingConfig, now: u64, latency_ms: u64) -> (r:
        Option<RequestRecord>)
        requires
            old(router)@.has_room(old(self).model_id@),
        ensures
            views::opt(r) == old(self).facts().final_record(Some(err@), latency_ms),
            final(self).facts() == (RunV { record: None, ..old(self).facts() }),
            final(self).model_id == old(self).model_id,
            final(self).finished,
            exists|frames: Vec<SseFrame>|
                #[trigger] protocol::failed(old(self).encoder, final(self).encoder, err@, frames) && views::of(
                    final(self).pending@,
                ) == views::of(old(self).pending@) + views::of(frames@),
            final(router)@ == if old(self).record is Some {
                old(router)@.failed(old(self).model_id@, err@, routing.circuit_breaker, now)
            } else {
                old(router)@
            },
    {
        self.finished = true;
        let made = self.finalize(Some(err), router, routing, now, latency_ms);
        let frames = self.encoder.error(err);
        assert(protocol::failed(old(self).encoder, self.encoder, err@, frames));
        self.queue(frames);
        made
    }

    /// The upstream's events have ended.
    pub fn on_end(&mut self, router: &mut Router, routing: &RoutingConfig, now: u64, latency_ms: u64) -> (r: Option<
        RequestRecord,
    >)
        requires
            old(router)@.has_room(old(self).model_id@),
        ensures
            views::opt(r) == old(self).facts().final_record(None, latency_ms),
            final(self).facts() == (RunV { record: None, ..old(self).facts() }),
            final(self).model_id == old(self).model_id,
            final(self).finished,
            exists|frames: Vec<SseFrame>|
                #[trigger] protocol::closed(old(self).encoder, final(self).encoder, frames) && views::of(
                    final(self).pending@,
                ) == views::of(old(self).pending@) + views::of(frames@),
            final(router)@ == old(router)@,
    {
        self.finished = true;
        let frames = self.encoder.finish();
        assert(protocol::closed(old(self).encoder, self.encoder, frames));
        self.queue(frames);
        self.finalize(None, router, routing, now, latency_ms)
    }

    /// Whether a classifier stream that ended did so without a verdict.
    pub fn lacks_verdict(&self) -> (r: bool)
        ensures
            r == (self.facts().classifier_text matches Some(t) && !has_verdict(t)),
    {
        match &self.classifier_text {
            Some(t) => !carries_verdict(t.as_str()),
            None => false,
        }
    }
}

/// A stream is recorded once: when the record was made, no later end makes another.
pub proof fn streams_are_recorded_once(run: RunV, error: Option<ErrorV>, latency_ms: u64)
    requires
        run.record is None,
    ensures
        run.final_record(error, latency_ms) is None,
{
}

/// The first token counts: an event that comes later never changes the time to the
/// first token.
pub proof fn first_token_stays(run: RunV, event: EventV, ms: u64)
    requires
        run.record is Some,
        run.record->0.ttft_ms is Some,
    ensures
        run.saw(event, ms).record is Some,
        run.saw(event, ms).record->0.ttft_ms == run.record->0.ttft_ms,
{
}

/// A request that failed for good, or went through its whole plan, tries no more; and
/// a plan of `n` candidates is never tried more than `n` times.
pub proof fn attempts_end(a: AttemptsV, e: ErrorV)
    requires
        0 <= a.tried <= a.plan.len(),
    ensures
        a.tried == a.plan.len() ==> !a.goes_on(),
        !e.retryable() ==> !a.failed(e).goes_on(),
        a.goes_on() ==> a.begun().tried <= a.begun().plan.len() && a.begun().tried > a.tried,
{
}

/// A request stopped by a budget is not retried, does not fail over and says nothing
/// of a model's health.
pub proof fn budgets_are_final(a: AttemptsV, st: RouterV, id: Seq<char>, because: Seq<char>, config: crate::circuit_breaker::CircuitBreakerConfig, now: u64)
    ensures
        !a.failed(ErrorV::OverBudget(because)).goes_on(),
        st.failed(id, ErrorV::OverBudget(because), config, now) == st,
{
}

} // verus!
