//! Rectifier for providers that reject a thinking/reasoning budget.
//!
//! The fix halves the requested budget (with a floor of 1024) so the request
//! fits inside the provider's allowance.

use crate::error::{Error, ErrorV};
use crate::json;
use crate::json::{Fields, Json, Lookup, Tree};
use crate::rectifier;
use crate::rectifier::{error_text, Rectifier, RectifyResult, Repair};
use crate::text;
use crate::text::{concat, contains, decimal};
use crate::views;
use vstd::prelude::*;

verus! {

#[derive(Debug, Clone, Copy, PartialEq, Eq, Structural)]
pub struct ThinkingBudgetRectifier;

const MIN_BUDGET: u64 = 1024;

/// Half the budget, but not under the floor.
pub open spec fn reduced(budget: u64) -> u64 {
    if budget / 2 < 1024 {
        1024
    } else {
        (budget / 2) as u64
    }
}

pub open spec fn unchanged(body: Tree, details: Seq<char>) -> Repair {
    Repair { body, applied: false, details }
}

/// What becomes of a body.
pub open spec fn with_reduced_budget(body: Tree) -> Repair {
    match body.at("thinking"@).fields() {
        None => unchanged(body, "no top-level thinking configuration"@),
        Some(m) => match body.at("thinking"@).at("budget_tokens"@).uint() {
            None => unchanged(body, "no budget_tokens to reduce"@),
            Some(budget) => if reduced(budget) == budget {
                unchanged(body, "budget is already at the minimum"@)
            } else {
                Repair {
                    body: body.with_field(
                        "thinking"@,
                        Tree::Obj(m).with_field("budget_tokens"@, Tree::UInt(reduced(budget))),
                    ),
                    applied: true,
                    details: "reduced thinking budget from "@ + text::digits(budget as nat) + " to "@
                        + text::digits(reduced(budget) as nat),
                }
            },
        },
    }
}

/// Reducing ends: a budget over the floor shrinks, and one at the floor is left alone.
pub proof fn reducing_ends(budget: u64)
    ensures
        reduced(budget) >= 1024,
        budget > 1024 ==> reduced(budget) < budget,
        reduced(budget) == budget <==> budget == 1024,
{
}

impl Rectifier for ThinkingBudgetRectifier {
    open spec fn applies(&self, error: ErrorV) -> bool {
        let msg = rectifier::lower_message(error);
        ||| (text::occurs(msg, "budget"@) && (text::occurs(msg, "thinking"@) || text::occurs(msg, "reasoning"@)))
        ||| text::occurs(msg, "maximum thinking budget"@)
        ||| text::occurs(msg, "thinking budget must"@)
    }

    open spec fn repaired(&self, body: Tree) -> Repair {
        with_reduced_budget(body)
    }

    open spec fn label(&self) -> Seq<char> {
        "thinking_budget"@
    }

    fn should_apply(&self, error: &Error, _body: &Json) -> (r: bool) {
        let msg = error_text(error);
        let msg = msg.as_str();
        (contains(msg, "budget") && (contains(msg, "thinking") || contains(msg, "reasoning"))) || contains(
            msg,
            "maximum thinking budget",
        ) || contains(msg, "thinking budget must")
    }

    fn rectify(&self, body: &mut Json) -> (r: RectifyResult) {
        let (budget, mut thinking) = {
            let t = body.at("thinking");
            if t.fields().is_none() {
                return RectifyResult {
                    applied: false,
                    details: "no top-level thinking configuration".to_owned(),
                };
            }
            let budget: u64 = match t.at("budget_tokens").uint() {
                Some(b) => b,
                None => {
                    return RectifyResult { applied: false, details: "no budget_tokens to reduce".to_owned() };
                },
            };
            match t.copied() {
                Some(j) => (budget, j),
                None => (budget, Json::Null),
            }
        };
        let half: u64 = budget / 2;
        let less: u64 = if half < MIN_BUDGET { MIN_BUDGET } else { half };
        if less == budget {
            return RectifyResult { applied: false, details: "budget is already at the minimum".to_owned() };
        }
        thinking.set_field("budget_tokens", Json::UInt(less));
        body.set_field("thinking", thinking);
        let mut details = concat("reduced thinking budget from ", decimal(budget).as_str());
        details.append(" to ");
        details.append(decimal(less).as_str());
        RectifyResult { applied: true, details }
    }

    fn name(&self) -> (r: &'static str) {
        "thinking_budget"
    }
}

} // verus!
