//! The formula tree, its mathematical model, and canonical negation.

use vstd::prelude::*;
use vstd::string::StringExecFns;

verus! {

/// The mathematical model of a formula. Variable names are character
/// sequences; children are owned subtrees. Equality is structural and
/// order-sensitive for the binary operators.
pub enum SpecExpr {
    Var(Seq<char>),
    Not(Box<SpecExpr>),
    And(Box<SpecExpr>, Box<SpecExpr>),
    Or(Box<SpecExpr>, Box<SpecExpr>),
    Implies(Box<SpecExpr>, Box<SpecExpr>),
}

/// A propositional formula: a variable, a negation `~A`, a conjunction
/// `A * B`, a disjunction `A + B`, or an implication `A > B`.
#[derive(Debug)]
pub enum Expr {
    Var(String),
    Not(Box<Expr>),
    And(Box<Expr>, Box<Expr>),
    Or(Box<Expr>, Box<Expr>),
    Implies(Box<Expr>, Box<Expr>),
}

/// The model of a formula tree: the same shape, with each variable name
/// replaced by its character sequence.
pub open spec fn model_of(e: Expr) -> SpecExpr
    decreases e,
{
    match e {
        Expr::Var(s) => SpecExpr::Var(s@),
        Expr::Not(x) => SpecExpr::Not(Box::new(model_of(*x))),
        Expr::And(l, r) => SpecExpr::And(Box::new(model_of(*l)), Box::new(model_of(*r))),
        Expr::Or(l, r) => SpecExpr::Or(Box::new(model_of(*l)), Box::new(model_of(*r))),
        Expr::Implies(l, r) => SpecExpr::Implies(Box::new(model_of(*l)), Box::new(model_of(*r))),
    }
}

impl View for Expr {
    type V = SpecExpr;

    open spec fn view(&self) -> SpecExpr {
        model_of(*self)
    }
}

impl Clone for Expr {
    /// A deep copy whose model is exactly the model of the original.
    fn clone(&self) -> (r: Self)
        ensures
            r@ == self@,
        decreases *self,
    {
        match self {
            Expr::Var(s) => Expr::Var(s.clone()),
            Expr::Not(x) => Expr::Not(Box::new((**x).clone())),
            Expr::And(l, r) => Expr::And(Box::new((**l).clone()), Box::new((**r).clone())),
            Expr::Or(l, r) => Expr::Or(Box::new((**l).clone()), Box::new((**r).clone())),
            Expr::Implies(l, r) => Expr::Implies(Box::new((**l).clone()), Box::new((**r).clone())),
        }
    }
}

impl PartialEq for Expr {
    /// Structural equality: shapes and all leaf variable names must match.
    fn eq(&self, other: &Self) -> (r: bool)
        decreases *self,
    {
        match (self, other) {
            (Expr::Var(a), Expr::Var(b)) => *a == *b,
            (Expr::Not(a), Expr::Not(b)) => **a == **b,
            (Expr::And(a1, a2), Expr::And(b1, b2)) => **a1 == **b1 && **a2 == **b2,
            (Expr::Or(a1, a2), Expr::Or(b1, b2)) => **a1 == **b1 && **a2 == **b2,
            (Expr::Implies(a1, a2), Expr::Implies(b1, b2)) => **a1 == **b1 && **a2 == **b2,
            _ => false,
        }
    }
}

impl vstd::std_specs::cmp::PartialEqSpecImpl for Expr {
    open spec fn obeys_eq_spec() -> bool {
        true
    }

    open spec fn eq_spec(&self, other: &Self) -> bool {
        self@ == other@
    }
}

/// Canonical negation on the model: negating `Not(x)` strips exactly one
/// layer; negating anything else wraps it in one `Not`.
pub open spec fn spec_negate(e: SpecExpr) -> SpecExpr {
    match e {
        SpecExpr::Not(x) => *x,
        _ => SpecExpr::Not(Box::new(e)),
    }
}

/// Canonical negation: `~~A` becomes `A`, anything else becomes `~A`.
/// All rule matching goes through this function, never through a raw
/// `Not` constructor.
pub fn negate(e: &Expr) -> (r: Expr)
    ensures
        r@ == spec_negate(e@),
{
    match e {
        Expr::Not(inner) => (**inner).clone(),
        _ => Expr::Not(Box::new(e.clone())),
    }
}

/// The text of a formula in infix notation, with parentheses around
/// every binary operator application.
pub open spec fn spec_render_expr(e: SpecExpr) -> Seq<char>
    decreases e,
{
    match e {
        SpecExpr::Var(s) => s,
        SpecExpr::Not(x) => "~"@ + spec_render_expr(*x),
        SpecExpr::And(l, r) => "("@ + spec_render_expr(*l) + " * "@ + spec_render_expr(*r) + ")"@,
        SpecExpr::Or(l, r) => "("@ + spec_render_expr(*l) + " + "@ + spec_render_expr(*r) + ")"@,
        SpecExpr::Implies(l, r) => "("@ + spec_render_expr(*l) + " > "@ + spec_render_expr(*r)
            + ")"@,
    }
}

impl Expr {
    /// The formula in infix notation: `~` for negation and parenthesized
    /// `*`, `+`, `>` for the binary operators.
    pub fn render(&self) -> (r: String)
        ensures
            r@ == spec_render_expr(self@),
        decreases *self,
    {
        match self {
            Expr::Var(s) => s.clone(),
            Expr::Not(x) => {
                let mut s = String::from_str("~");
                s.append(x.render().as_str());
                s
            },
            Expr::And(l, r) => {
                let mut s = String::from_str("(");
                s.append(l.render().as_str());
                s.append(" * ");
                s.append(r.render().as_str());
                s.append(")");
                proof {
                    assert(s@ =~= spec_render_expr(self@));
                }
                s
            },
            Expr::Or(l, r) => {
                let mut s = String::from_str("(");
                s.append(l.render().as_str());
                s.append(" + ");
                s.append(r.render().as_str());
                s.append(")");
                proof {
                    assert(s@ =~= spec_render_expr(self@));
                }
                s
            },
            Expr::Implies(l, r) => {
                let mut s = String::from_str("(");
                s.append(l.render().as_str());
                s.append(" > ");
                s.append(r.render().as_str());
                s.append(")");
                proof {
                    assert(s@ =~= spec_render_expr(self@));
                }
                s
            },
        }
    }
}

/// Canonical negation is single-layer, not a full involution: a node that
/// is not a `Not` gains exactly one `Not`; `Not(x)` loses exactly its outer
/// `Not`; in particular `Not(Not(x))` becomes `Not(x)`, not `x`.
pub proof fn lemma_negate_single_layer(e: SpecExpr)
    ensures
        !(e is Not) ==> spec_negate(e) == SpecExpr::Not(Box::new(e)),
        spec_negate(SpecExpr::Not(Box::new(e))) == e,
        spec_negate(SpecExpr::Not(Box::new(SpecExpr::Not(Box::new(e))))) == SpecExpr::Not(
            Box::new(e),
        ),
{
}

} // verus!
