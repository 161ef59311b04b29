//! The whole pipeline for one query: run the forward-chaining search
//! over the premises and goal, and when a winning fact exists,
//! reconstruct its proof trace.

use crate::engine::{
    base_view, exprs_view, forward_chain, spec_forward_chain, spec_outcome, Verdict,
};
use crate::expr::Expr;
use crate::expr::SpecExpr;
use crate::trace::{build_trace, spec_trace, steps_view, ProofStep, SpecStep};
use vstd::prelude::*;
use vstd::string::StringExecFns;

verus! {

/// The outcome of one solve: the verdict, the winning fact id when the
/// verdict is not `InsufficientInformation`, and then its proof trace.
#[derive(Debug)]
pub struct Solution {
    pub verdict: Verdict,
    pub winner: Option<usize>,
    pub steps: Option<Vec<ProofStep>>,
}

/// The model of a solution.
pub struct SpecSolution {
    pub verdict: Verdict,
    pub winner: Option<int>,
    pub steps: Option<Seq<SpecStep>>,
}

impl View for Solution {
    type V = SpecSolution;

    open spec fn view(&self) -> SpecSolution {
        SpecSolution {
            verdict: self.verdict,
            winner: match self.winner {
                Some(w) => Some(w as int),
                None => None,
            },
            steps: match self.steps {
                Some(s) => Some(steps_view(s@)),
                None => None,
            },
        }
    }
}

/// The model of a whole solve: the forward-chaining search, and the
/// proof trace of the winning fact when one exists.
pub open spec fn spec_solve(premises: Seq<SpecExpr>, goal: SpecExpr) -> SpecSolution {
    let search = spec_forward_chain(premises, goal);
    match search.1 {
        Some((w, v)) => SpecSolution {
            verdict: v,
            winner: Some(w),
            steps: Some(spec_trace(search.0, w)),
        },
        None => SpecSolution {
            verdict: Verdict::InsufficientInformation,
            winner: None,
            steps: None,
        },
    }
}

/// Attempts to prove or disprove the deduction from the premises: the
/// verdict is `Valid` when the goal itself is derived, `Invalid` when
/// its canonical negation is derived, and `InsufficientInformation`
/// when the search is exhausted or capped; with a winning fact comes
/// its linear proof trace.
pub fn solve(premises: Vec<Expr>, deduction: Expr) -> (r: Solution)
    ensures
        r@ == spec_solve(exprs_view(premises@), deduction@),
{
    let (facts, verdict, win) = forward_chain(&premises, &deduction);
    proof {
        assert(spec_forward_chain(exprs_view(premises@), deduction@) == (base_view(facts@),
        spec_outcome(verdict, win)));
    }
    match win {
        Some(w) => {
            let steps = build_trace(&facts, w);
            Solution { verdict, winner: Some(w), steps: Some(steps) }
        },
        None => Solution { verdict, winner: None, steps: None },
    }
}

/// Determinism: identical premise lists (same order) and identical
/// goals always give the same verdict, the same winning id, and the
/// same proof trace.
pub proof fn lemma_solve_deterministic(
    prems1: Seq<SpecExpr>,
    goal1: SpecExpr,
    prems2: Seq<SpecExpr>,
    goal2: SpecExpr,
)
    requires
        prems1 == prems2,
        goal1 == goal2,
    ensures
        spec_solve(prems1, goal1) == spec_solve(prems2, goal2),
{
}

/// The verdict's printed label.
pub open spec fn spec_verdict_text(v: Verdict) -> Seq<char> {
    match v {
        Verdict::Valid => "Valid"@,
        Verdict::Invalid => "Invalid"@,
        Verdict::InsufficientInformation => "Insufficient Information"@,
    }
}

/// The verdict's printed label.
pub fn render_verdict(v: Verdict) -> (s: String)
    ensures
        s@ == spec_verdict_text(v),
{
    match v {
        Verdict::Valid => String::from_str("Valid"),
        Verdict::Invalid => String::from_str("Invalid"),
        Verdict::InsufficientInformation => String::from_str("Insufficient Information"),
    }
}

} // verus!
