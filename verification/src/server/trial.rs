//! One attempt at a candidate, step by step: what is done next, and what follows from
//! what came of it.
//!
//! Images that the candidate cannot see are described before anything is sent. What is
//! rejected for its images is described and sent again, and only then do the
//! rectifiers have their turn. All of it is the same provider and the same model.

use crate::config::RectifierConfig;
use crate::error::{Error, ErrorV};
use crate::ir::{ChatRequest, RequestV};
use crate::json::{Json, Tree};
use crate::rectifier;
use crate::rectifier::media_fallback::MediaFallbackRectifier;
use crate::rectifier::Rectifier;
use crate::router::{Candidate, CandidateV};
use crate::server::pipeline;
use crate::server::pipeline::{apply_descriptions, describes_after, describes_first, prepare, reencode, Repairs, RepairsV};
use crate::upstream;
use crate::upstream::EncodeMode;
use crate::views;
use vstd::prelude::*;

verus! {

broadcast use crate::views::group_views;

/// The images of the request are to be described.
pub struct Describing {
    pub req: ChatRequest,
    /// The key, and why the request was rejected, where it was sent already.
    pub rejected: Option<(Option<String>, Error)>,
}

/// The key is to be looked up.
pub struct Preparing {
    pub req: ChatRequest,
}

/// The router is to be asked whether the request may be sent.
pub struct Probing {
    pub req: ChatRequest,
    pub key: Option<String>,
    pub body: Json,
}

/// What was made of the request before it is sent.
pub enum Tried {
    /// Nothing.
    AsItIs(Json),
    /// Its images were described, after the upstream had rejected it so.
    Described(Json, Error),
    /// A rectifier repaired it.
    Repaired(Repairs),
}

/// The body is to be sent.
pub struct Sending {
    pub req: ChatRequest,
    pub key: Option<String>,
    pub tried: Tried,
}

/// What is to be done next.
pub enum TrialStep {
    Describe(Describing),
    Prepare(Preparing),
    Probe(Probing),
    Send(Sending),
    /// Another request probes the candidate: the attempt is over without a trace.
    Skip,
    /// The request could not be made.
    Unprepared(Error),
    /// The upstream rejected it for good.
    Fail(Error),
}

pub struct DescribingV {
    pub req: RequestV,
    pub rejected: Option<(Option<Seq<char>>, ErrorV)>,
}

pub struct PreparingV {
    pub req: RequestV,
}

pub struct ProbingV {
    pub req: RequestV,
    pub key: Option<Seq<char>>,
    pub body: Tree,
}

pub enum TriedV {
    AsItIs(Tree),
    Described(Tree, ErrorV),
    Repaired(RepairsV),
}

pub struct SendingV {
    pub req: RequestV,
    pub key: Option<Seq<char>>,
    pub tried: TriedV,
}

pub enum TrialV {
    Describe(DescribingV),
    Prepare(PreparingV),
    Probe(ProbingV),
    Send(SendingV),
    Skip,
    Unprepared(ErrorV),
    Fail(ErrorV),
}

impl View for Describing {
    type V = DescribingV;

    open spec fn view(&self) -> DescribingV {
        DescribingV {
            req: self.req@,
            rejected: match self.rejected {
                Some((key, e)) => Some((views::opt(key), e@)),
                None => None,
            },
        }
    }
}

impl View for Preparing {
    type V = PreparingV;

    open spec fn view(&self) -> PreparingV {
        PreparingV { req: self.req@ }
    }
}

impl View for Probing {
    type V = ProbingV;

    open spec fn view(&self) -> ProbingV {
        ProbingV { req: self.req@, key: views::opt(self.key), body: self.body@ }
    }
}

impl View for Tried {
    type V = TriedV;

    open spec fn view(&self) -> TriedV {
        match self {
            Tried::AsItIs(body) => TriedV::AsItIs(body@),
            Tried::Described(body, e) => TriedV::Described(body@, e@),
            Tried::Repaired(r) => TriedV::Repaired(r@),
        }
    }
}

impl View for Sending {
    type V = SendingV;

    open spec fn view(&self) -> SendingV {
        SendingV { req: self.req@, key: views::opt(self.key), tried: self.tried@ }
    }
}

impl View for TrialStep {
    type V = TrialV;

    open spec fn view(&self) -> TrialV {
        match self {
            TrialStep::Describe(d) => TrialV::Describe(d@),
            TrialStep::Prepare(p) => TrialV::Prepare(p@),
            TrialStep::Probe(p) => TrialV::Probe(p@),
            TrialStep::Send(s) => TrialV::Send(s@),
            TrialStep::Skip => TrialV::Skip,
            TrialStep::Unprepared(e) => TrialV::Unprepared(e@),
            TrialStep::Fail(e) => TrialV::Fail(e@),
        }
    }
}

/// Whether a request carries images.
pub open spec fn carries_images(req: RequestV) -> bool {
    pipeline::message_images(req.messages, 0, Seq::empty()).len() > 0
}

/// The body of a request as it is for a candidate now.
pub open spec fn body_for(c: CandidateV, req: RequestV) -> Option<Tree> {
    match upstream::provider_body(
        c.provider,
        req,
        c.entry.upstream_model,
        c.entry.max_output_tokens,
        EncodeMode::Normal,
    ) {
        Ok(body) => Some(body),
        Err(_) => None,
    }
}

/// The first step. A candidate known not to see gets the images described.
pub open spec fn begun(vision_enabled: bool, c: CandidateV, req: RequestV) -> TrialV {
    if vision_enabled && !c.entry.supports_vision && carries_images(req) {
        TrialV::Describe(DescribingV { req, rejected: None })
    } else {
        TrialV::Prepare(PreparingV { req })
    }
}

/// With descriptions in place of its images.
pub open spec fn with_descriptions(
    req: RequestV,
    descriptions: Seq<Option<Seq<char>>>,
    placeholder: Seq<char>,
) -> RequestV {
    RequestV {
        messages: pipeline::messages_described(req.messages, 0, Seq::empty(), 0, descriptions, placeholder),
        ..req
    }
}

/// The next repair, or the end of the attempt.
pub open spec fn repaired(req: RequestV, key: Option<Seq<char>>, r: RepairsV) -> TrialV {
    match r.repairer(r.at) {
        Some(i) => TrialV::Send(SendingV { req, key, tried: TriedV::Repaired(r.repaired_by(i)) }),
        None => TrialV::Fail(r.error),
    }
}

/// The rectifiers' turn, on a request that was rejected with `e`.
pub open spec fn rectified(
    c: CandidateV,
    req: RequestV,
    key: Option<Seq<char>>,
    e: ErrorV,
    rectifiers: RectifierConfig,
) -> TrialV {
    match body_for(c, req) {
        Some(body) => repaired(
            req,
            key,
            RepairsV {
                rectifiers: rectifier::enabled(rectifiers),
                at: 0,
                rounds: 0,
                body,
                error: e,
                retried: false,
            },
        ),
        None => TrialV::Fail(e),
    }
}

impl DescribingV {
    /// After the images were described. A request that was rejected is sent again at
    /// once; where it cannot be made any more, the rejection stands.
    pub open spec fn described(
        self,
        c: CandidateV,
        descriptions: Seq<Option<Seq<char>>>,
        placeholder: Seq<char>,
    ) -> TrialV {
        let req = with_descriptions(self.req, descriptions, placeholder);
        match self.rejected {
            None => TrialV::Prepare(PreparingV { req }),
            Some((key, e)) => match body_for(c, req) {
                Some(body) => TrialV::Send(SendingV { req, key, tried: TriedV::Described(body, e) }),
                None => TrialV::Fail(e),
            },
        }
    }
}

impl PreparingV {
    /// After the key was looked up.
    pub open spec fn keyed(self, c: CandidateV, secret: Option<Seq<char>>, mode: EncodeMode) -> TrialV {
        match pipeline::prepared(c, self.req, secret, mode) {
            Ok((key, body)) => TrialV::Probe(ProbingV { req: self.req, key, body }),
            Err(e) => TrialV::Unprepared(e),
        }
    }
}

impl ProbingV {
    /// After the router was asked.
    pub open spec fn answered(self, allowed: bool) -> TrialV {
        if allowed {
            TrialV::Send(SendingV { req: self.req, key: self.key, tried: TriedV::AsItIs(self.body) })
        } else {
            TrialV::Skip
        }
    }
}

impl SendingV {
    pub open spec fn body(self) -> Tree {
        match self.tried {
            TriedV::AsItIs(body) => body,
            TriedV::Described(body, _) => body,
            TriedV::Repaired(r) => r.body,
        }
    }

    /// After the upstream rejected the body. What it says of a request whose images
    /// were described is not looked at: the rectifiers go by the first rejection.
    pub open spec fn rejected(
        self,
        c: CandidateV,
        e: ErrorV,
        vision_enabled: bool,
        rectifiers: RectifierConfig,
    ) -> TrialV {
        match self.tried {
            TriedV::AsItIs(_) => if vision_enabled && MediaFallbackRectifier.applies(e) && carries_images(self.req) {
                TrialV::Describe(DescribingV { req: self.req, rejected: Some((self.key, e)) })
            } else {
                rectified(c, self.req, self.key, e, rectifiers)
            },
            TriedV::Described(_, first) => rectified(c, self.req, self.key, first, rectifiers),
            TriedV::Repaired(r) => repaired(self.req, self.key, RepairsV { error: e, retried: true, ..r }),
        }
    }
}

/// Begin an attempt at a candidate.
pub fn begin_trial(vision_enabled: bool, candidate: &Candidate, req: ChatRequest) -> (r: TrialStep)
    ensures
        r@ == begun(vision_enabled, candidate@, req@),
{
    if describes_first(vision_enabled, candidate, &req) {
        TrialStep::Describe(Describing { req, rejected: None })
    } else {
        TrialStep::Prepare(Preparing { req })
    }
}

impl Describing {
    /// The images were described, each or not.
    pub fn on_described(self, candidate: &Candidate, descriptions: &Vec<Option<String>>, placeholder: &str) -> (r:
        TrialStep)
        ensures
            r@ == self@.described(candidate@, pipeline::said(descriptions@), placeholder@),
    {
        let mut req = self.req;
        apply_descriptions(&mut req, descriptions, placeholder);
        match self.rejected {
            None => TrialStep::Prepare(Preparing { req }),
            Some((key, e)) => match reencode(candidate, &req) {
                Some(body) => TrialStep::Send(Sending { req, key, tried: Tried::Described(body, e) }),
                None => TrialStep::Fail(e),
            },
        }
    }
}

impl Preparing {
    /// The secret was looked up.
    pub fn on_secret(self, candidate: &Candidate, secret: Option<String>, mode: EncodeMode) -> (r: TrialStep)
        ensures
            r@ == self@.keyed(candidate@, views::opt(secret), mode),
    {
        match prepare(candidate, &self.req, secret, mode) {
            Ok((key, body)) => TrialStep::Probe(Probing { req: self.req, key, body }),
            Err(e) => TrialStep::Unprepared(e),
        }
    }
}

impl Probing {
    /// The router said whether the request may be sent.
    pub fn on_probe(self, allowed: bool) -> (r: TrialStep)
        ensures
            r@ == self@.answered(allowed),
    {
        if allowed {
            TrialStep::Send(Sending { req: self.req, key: self.key, tried: Tried::AsItIs(self.body) })
        } else {
            TrialStep::Skip
        }
    }
}

/// The next repair, or the end of the attempt.
fn go_on(req: ChatRequest, key: Option<String>, repairs: Repairs) -> (r: TrialStep)
    ensures
        r@ == repaired(req@, views::opt(key), repairs@),
{
    let mut repairs = repairs;
    if repairs.repair() {
        TrialStep::Send(Sending { req, key, tried: Tried::Repaired(repairs) })
    } else {
        TrialStep::Fail(repairs.error)
    }
}

/// The rectifiers' turn.
fn rectify(candidate: &Candidate, req: ChatRequest, key: Option<String>, e: Error, rectifiers: &RectifierConfig) -> (r:
    TrialStep)
    ensures
        r@ == rectified(candidate@, req@, views::opt(key), e@, *rectifiers),
{
    match reencode(candidate, &req) {
        Some(body) => go_on(req, key, Repairs::new(rectifiers, body, e)),
        None => TrialStep::Fail(e),
    }
}

impl Sending {
    /// The body to send.
    pub fn body(&self) -> (r: &Json)
        ensures
            r@ == self@.body(),
    {
        match &self.tried {
            Tried::AsItIs(body) => body,
            Tried::Described(body, _) => body,
            Tried::Repaired(r) => &r.body,
        }
    }

    /// Whether it is not the body that was sent first.
    pub fn is_repaired(&self) -> (r: bool)
        ensures
            r == !(self@.tried is AsItIs),
    {
        match &self.tried {
            Tried::AsItIs(_) => false,
            _ => true,
        }
    }

    /// The upstream rejected it.
    pub fn on_failure(self, candidate: &Candidate, e: Error, vision_enabled: bool, rectifiers: &RectifierConfig) -> (r:
        TrialStep)
        ensures
            r@ == self@.rejected(candidate@, e@, vision_enabled, *rectifiers),
    {
        match self.tried {
            Tried::AsItIs(_) => {
                if describes_after(vision_enabled, &e, &self.req) {
                    TrialStep::Describe(Describing { req: self.req, rejected: Some((self.key, e)) })
                } else {
                    rectify(candidate, self.req, self.key, e, rectifiers)
                }
            },
            Tried::Described(_, first) => rectify(candidate, self.req, self.key, first, rectifiers),
            Tried::Repaired(repairs) => {
                let mut repairs = repairs;
                repairs.on_failure(e);
                go_on(self.req, self.key, repairs)
            },
        }
    }
}

// ---------------------------------------------------------------------- laws

/// How many steps an attempt has left at most.
pub open spec fn steps_left(t: TrialV, rectifiers: RectifierConfig) -> int {
    let n: int = 3 * rectifier::enabled(rectifiers).len() as int;
    match t {
        TrialV::Describe(d) => if d.rejected is None {
            n + 6
        } else {
            n + 2
        },
        TrialV::Prepare(_) => n + 5,
        TrialV::Probe(_) => n + 4,
        TrialV::Send(s) => match s.tried {
            TriedV::AsItIs(_) => n + 3,
            TriedV::Described(..) => n + 1,
            TriedV::Repaired(r) => pipeline::repairs_left(r) + 1,
        },
        _ => 0,
    }
}

/// A step that an attempt can come to: its repairs, where it has any, are those of the
/// configuration.
pub open spec fn sound(t: TrialV, rectifiers: RectifierConfig) -> bool {
    t matches TrialV::Send(s) ==> (s.tried matches TriedV::Repaired(r) ==> r.rectifiers == rectifier::enabled(rectifiers)
        && 0 <= r.at < r.rectifiers.len() && r.rounds <= 3)
}

proof fn repairs_shrink(req: RequestV, key: Option<Seq<char>>, r: RepairsV, rectifiers: RectifierConfig)
    requires
        r.rectifiers == rectifier::enabled(rectifiers),
        0 <= r.at,
        r.rounds <= 3,
    ensures
        sound(repaired(req, key, r), rectifiers),
        repaired(req, key, r) is Fail || steps_left(repaired(req, key, r), rectifiers) <= pipeline::repairs_left(r),
{
    if r.repairer(r.at) is Some {
        pipeline::repairing_ends(r, r.error);
        pipeline::repairer_is_ahead(r, r.at);
    }
}

/// An attempt ends: a rejected body leaves fewer steps, whatever the upstream says.
pub proof fn rejections_end(s: SendingV, c: CandidateV, e: ErrorV, vision_enabled: bool, rectifiers: RectifierConfig)
    requires
        sound(TrialV::Send(s), rectifiers),
    ensures
        sound(s.rejected(c, e, vision_enabled, rectifiers), rectifiers),
        0 <= steps_left(s.rejected(c, e, vision_enabled, rectifiers), rectifiers) < steps_left(
            TrialV::Send(s),
            rectifiers,
        ),
{
    let t = s.rejected(c, e, vision_enabled, rectifiers);
    let first = match s.tried {
        TriedV::Described(_, first) => first,
        _ => e,
    };
    match s.tried {
        TriedV::Repaired(r) => {
            repairs_shrink(s.req, s.key, RepairsV { error: e, retried: true, ..r }, rectifiers);
        },
        _ => {
            if let Some(body) = body_for(c, s.req) {
                let r = RepairsV {
                    rectifiers: rectifier::enabled(rectifiers),
                    at: 0,
                    rounds: 0,
                    body,
                    error: first,
                    retried: false,
                };
                repairs_shrink(s.req, s.key, r, rectifiers);
            }
        },
    }
    assert(steps_left(t, rectifiers) >= 0);
}

/// So does every other step.
pub proof fn steps_end(
    d: DescribingV,
    p: PreparingV,
    q: ProbingV,
    c: CandidateV,
    descriptions: Seq<Option<Seq<char>>>,
    placeholder: Seq<char>,
    secret: Option<Seq<char>>,
    mode: EncodeMode,
    allowed: bool,
    rectifiers: RectifierConfig,
)
    ensures
        0 <= steps_left(d.described(c, descriptions, placeholder), rectifiers) < steps_left(
            TrialV::Describe(d),
            rectifiers,
        ),
        0 <= steps_left(p.keyed(c, secret, mode), rectifiers) < steps_left(TrialV::Prepare(p), rectifiers),
        0 <= steps_left(q.answered(allowed), rectifiers) < steps_left(TrialV::Probe(q), rectifiers),
{
}

/// A candidate whose probe another request holds is sent nothing.
pub proof fn refused_probes_send_nothing(q: ProbingV)
    ensures
        q.answered(false) == TrialV::Skip,
        q.answered(true) matches TrialV::Send(s) && s.body() == q.body && s.key == q.key,
{
}

} // verus!
