//! Request rectifiers: attempt to repair a provider-rejected request before
//! failing over to another provider.
//!
//! Rectifier retries deliberately do not count against the circuit breaker:
//! they are the same provider and the same model, and the failure was caused by
//! a fixable request shape, not by provider health.

pub mod media_fallback;
pub mod thinking_budget;
pub mod thinking_signature;

use crate::config::RectifierConfig;
use crate::error::{Error, ErrorV};
use crate::json::{Json, Tree};
use crate::rectifier::media_fallback::MediaFallbackRectifier;
use crate::rectifier::thinking_budget::ThinkingBudgetRectifier;
use crate::rectifier::thinking_signature::ThinkingSignatureRectifier;
use crate::text;
use vstd::prelude::*;

verus! {

/// Result of applying a rectifier to a request body.
#[derive(Debug, PartialEq, Eq)]
pub struct RectifyResult {
    pub applied: bool,
    pub details: String,
}

/// What became of a body, whether anything was done, and what in words.
pub struct Repair {
    pub body: Tree,
    pub applied: bool,
    pub details: Seq<char>,
}

/// A stateless request transformer keyed by provider error signatures.
pub trait Rectifier {
    /// Whether an error matches the repair condition.
    spec fn applies(&self, error: ErrorV) -> bool;

    /// What becomes of a body.
    spec fn repaired(&self, body: Tree) -> Repair;

    spec fn label(&self) -> Seq<char>;

    /// Check whether this error matches the rectifier's repair condition.
    fn should_apply(&self, error: &Error, body: &Json) -> (r: bool)
        ensures
            r == self.applies(error@),
    ;

    /// Modify the request body in place.
    fn rectify(&self, body: &mut Json) -> (r: RectifyResult)
        ensures
            self.repaired(old(body)@) == (Repair {
                body: final(body)@,
                applied: r.applied,
                details: r.details@,
            }),
    ;

    /// Rectifier name for logs and the tried-set.
    fn name(&self) -> (r: &'static str)
        ensures
            r@ == self.label(),
    ;
}

/// Any of the rectifiers.
#[derive(Debug, Clone, Copy, PartialEq, Eq, Structural)]
pub enum AnyRectifier {
    ThinkingSignature(ThinkingSignatureRectifier),
    MediaFallback(MediaFallbackRectifier),
    ThinkingBudget(ThinkingBudgetRectifier),
}

impl Rectifier for AnyRectifier {
    open spec fn applies(&self, error: ErrorV) -> bool {
        match self {
            AnyRectifier::ThinkingSignature(r) => r.applies(error),
            AnyRectifier::MediaFallback(r) => r.applies(error),
            AnyRectifier::ThinkingBudget(r) => r.applies(error),
        }
    }

    open spec fn repaired(&self, body: Tree) -> Repair {
        match self {
            AnyRectifier::ThinkingSignature(r) => r.repaired(body),
            AnyRectifier::MediaFallback(r) => r.repaired(body),
            AnyRectifier::ThinkingBudget(r) => r.repaired(body),
        }
    }

    open spec fn label(&self) -> Seq<char> {
        match self {
            AnyRectifier::ThinkingSignature(r) => r.label(),
            AnyRectifier::MediaFallback(r) => r.label(),
            AnyRectifier::ThinkingBudget(r) => r.label(),
        }
    }

    fn should_apply(&self, error: &Error, body: &Json) -> (r: bool) {
        match self {
            AnyRectifier::ThinkingSignature(r) => r.should_apply(error, body),
            AnyRectifier::MediaFallback(r) => r.should_apply(error, body),
            AnyRectifier::ThinkingBudget(r) => r.should_apply(error, body),
        }
    }

    fn rectify(&self, body: &mut Json) -> (r: RectifyResult) {
        match self {
            AnyRectifier::ThinkingSignature(r) => r.rectify(body),
            AnyRectifier::MediaFallback(r) => r.rectify(body),
            AnyRectifier::ThinkingBudget(r) => r.rectify(body),
        }
    }

    fn name(&self) -> (r: &'static str) {
        match self {
            AnyRectifier::ThinkingSignature(r) => r.name(),
            AnyRectifier::MediaFallback(r) => r.name(),
            AnyRectifier::ThinkingBudget(r) => r.name(),
        }
    }
}

/// The rectifiers that a configuration enables, in the order they are tried.
pub open spec fn enabled(c: RectifierConfig) -> Seq<AnyRectifier> {
    if !c.enabled {
        Seq::empty()
    } else {
        let s = Seq::empty();
        let s = if c.thinking_signature {
            s.push(AnyRectifier::ThinkingSignature(ThinkingSignatureRectifier))
        } else {
            s
        };
        let s = if c.media_fallback { s.push(AnyRectifier::MediaFallback(MediaFallbackRectifier)) } else { s };
        if c.thinking_budget {
            s.push(AnyRectifier::ThinkingBudget(ThinkingBudgetRectifier))
        } else {
            s
        }
    }
}

/// Build the enabled rectifiers from routing configuration.
pub fn from_config(config: &RectifierConfig) -> (r: Vec<AnyRectifier>)
    ensures
        r@ == enabled(*config),
{
    let mut out: Vec<AnyRectifier> = Vec::new();
    if !config.enabled {
        return out;
    }
    if config.thinking_signature {
        out.push(AnyRectifier::ThinkingSignature(ThinkingSignatureRectifier));
    }
    if config.media_fallback {
        out.push(AnyRectifier::MediaFallback(MediaFallbackRectifier));
    }
    if config.thinking_budget {
        out.push(AnyRectifier::ThinkingBudget(ThinkingBudgetRectifier));
    }
    out
}

/// The message of an error, in lower case.
pub open spec fn lower_message(e: ErrorV) -> Seq<char> {
    text::lowercase(e.message())
}

pub(crate) fn error_text(error: &Error) -> (r: String)
    ensures
        r@ == lower_message(error@),
{
    text::to_lowercase(error.to_string().as_str())
}

} // verus!
