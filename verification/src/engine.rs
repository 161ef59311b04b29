//! The forward-chaining inference engine.
//!
//! The fact base is an append-only list of facts whose id equals their
//! position. The engine seeds it with the premises, then repeatedly
//! applies a fixed rule table to derive new facts until the goal or its
//! canonical negation appears, the base is exhausted, or the hard cap of
//! 10000 facts is reached. The functions `spec_*` below are the
//! mathematical model of the whole search; `forward_chain` is proved to
//! compute exactly that model.

use crate::expr::{spec_negate, Expr, SpecExpr};
use vstd::prelude::*;

verus! {

/// The names of the inference rules.
#[derive(Clone, Copy, PartialEq, Eq, Debug, Structural)]
pub enum Rule {
    Simplification,
    ModusPonens,
    ModusTollens,
    HypotheticalSyllogism,
    DisjunctiveSyllogism,
    Addition,
    Conjunction,
}

/// The three-way outcome of a solve.
#[derive(Clone, Copy, PartialEq, Eq, Debug, Structural)]
pub enum Verdict {
    Valid,
    Invalid,
    InsufficientInformation,
}

/// Parent ids as mathematical integers.
pub open spec fn ids_view(s: Seq<usize>) -> Seq<int> {
    s.map_values(|u: usize| u as int)
}

/// How a fact entered the fact base: as a premise, or derived from
/// earlier facts by a named rule.
#[derive(Debug)]
pub enum Source {
    Premise,
    Derived { rule: Rule, parents: Vec<usize> },
}

/// The model of a provenance record.
pub enum SpecSource {
    Premise,
    Derived { rule: Rule, parents: Seq<int> },
}

impl View for Source {
    type V = SpecSource;

    open spec fn view(&self) -> SpecSource {
        match self {
            Source::Premise => SpecSource::Premise,
            Source::Derived { rule, parents } => SpecSource::Derived {
                rule: *rule,
                parents: ids_view(parents@),
            },
        }
    }
}

/// A fact: a proven expression, its provenance, and its id, which always
/// equals its position in the fact base.
#[derive(Debug)]
pub struct Fact {
    pub expr: Expr,
    pub source: Source,
    pub id: usize,
}

/// The model of a fact.
pub struct SpecFact {
    pub expr: SpecExpr,
    pub source: SpecSource,
    pub id: int,
}

impl View for Fact {
    type V = SpecFact;

    open spec fn view(&self) -> SpecFact {
        SpecFact { expr: self.expr@, source: self.source@, id: self.id as int }
    }
}

/// A derived expression proposed by a rule, before deduplication.
#[derive(Debug)]
pub struct Candidate {
    pub expr: Expr,
    pub rule: Rule,
    pub parents: Vec<usize>,
}

/// The model of a candidate.
pub struct SpecCandidate {
    pub expr: SpecExpr,
    pub rule: Rule,
    pub parents: Seq<int>,
}

impl View for Candidate {
    type V = SpecCandidate;

    open spec fn view(&self) -> SpecCandidate {
        SpecCandidate { expr: self.expr@, rule: self.rule, parents: ids_view(self.parents@) }
    }
}

/// The model of a fact base.
pub open spec fn base_view(s: Seq<Fact>) -> Seq<SpecFact> {
    s.map_values(|f: Fact| f@)
}

/// The model of a candidate list.
pub open spec fn cands_view(s: Seq<Candidate>) -> Seq<SpecCandidate> {
    s.map_values(|c: Candidate| c@)
}

/// Some fact in the base has exactly this expression.
pub open spec fn spec_has_expr(facts: Seq<SpecFact>, e: SpecExpr) -> bool {
    exists|i: int| 0 <= i < facts.len() && facts[i].expr == e
}

/// Modus Ponens: from `A > B` and `A`, derive `B`.
pub open spec fn spec_mp(p1: SpecFact, p2: SpecFact) -> Seq<SpecCandidate> {
    match p1.expr {
        SpecExpr::Implies(a, b) => if *a == p2.expr {
            seq![
                SpecCandidate {
                    expr: *b,
                    rule: Rule::ModusPonens,
                    parents: seq![p1.id, p2.id],
                },
            ]
        } else {
            Seq::empty()
        },
        _ => Seq::empty(),
    }
}

/// Modus Tollens: from `A > B` and the canonical negation of `B`,
/// derive the canonical negation of `A`.
pub open spec fn spec_mt(p1: SpecFact, p2: SpecFact) -> Seq<SpecCandidate> {
    match p1.expr {
        SpecExpr::Implies(a, b) => if spec_negate(*b) == p2.expr {
            seq![
                SpecCandidate {
                    expr: spec_negate(*a),
                    rule: Rule::ModusTollens,
                    parents: seq![p1.id, p2.id],
                },
            ]
        } else {
            Seq::empty()
        },
        _ => Seq::empty(),
    }
}

/// Hypothetical Syllogism: from `A > B` and `B > C`, derive `A > C`.
pub open spec fn spec_hs(p1: SpecFact, p2: SpecFact) -> Seq<SpecCandidate> {
    match (p1.expr, p2.expr) {
        (SpecExpr::Implies(a, b), SpecExpr::Implies(c, d)) => if *b == *c {
            seq![
                SpecCandidate {
                    expr: SpecExpr::Implies(a, d),
                    rule: Rule::HypotheticalSyllogism,
                    parents: seq![p1.id, p2.id],
                },
            ]
        } else {
            Seq::empty()
        },
        _ => Seq::empty(),
    }
}

/// Disjunctive Syllogism: from `A + B` and the canonical negation of one
/// disjunct, derive the other disjunct.
pub open spec fn spec_ds(p1: SpecFact, p2: SpecFact) -> Seq<SpecCandidate> {
    match p1.expr {
        SpecExpr::Or(a, b) => if spec_negate(*a) == p2.expr {
            seq![
                SpecCandidate {
                    expr: *b,
                    rule: Rule::DisjunctiveSyllogism,
                    parents: seq![p1.id, p2.id],
                },
            ]
        } else if spec_negate(*b) == p2.expr {
            seq![
                SpecCandidate {
                    expr: *a,
                    rule: Rule::DisjunctiveSyllogism,
                    parents: seq![p1.id, p2.id],
                },
            ]
        } else {
            Seq::empty()
        },
        _ => Seq::empty(),
    }
}

/// Addition: when some implication's antecedent is `L + R` and the first
/// fact is `L` or `R`, derive `L + R` itself, so that Modus Ponens can
/// later fire on the implication.
pub open spec fn spec_add(p1: SpecFact, p2: SpecFact) -> Seq<SpecCandidate> {
    match p2.expr {
        SpecExpr::Implies(ant, _) => match *ant {
            SpecExpr::Or(l, r) => if *l == p1.expr || *r == p1.expr {
                seq![
                    SpecCandidate {
                        expr: SpecExpr::Or(l, r),
                        rule: Rule::Addition,
                        parents: seq![p1.id],
                    },
                ]
            } else {
                Seq::empty()
            },
            _ => Seq::empty(),
        },
        _ => Seq::empty(),
    }
}

/// The first implication at or after position `j` whose antecedent is a
/// conjunction equal to `c1` or `c2`, if any; the antecedent itself.
pub open spec fn spec_conj_find(
    all: Seq<SpecFact>,
    j: int,
    c1: SpecExpr,
    c2: SpecExpr,
) -> Option<SpecExpr>
    decreases all.len() - j,
{
    if !(0 <= j < all.len()) {
        None
    } else {
        match all[j].expr {
            SpecExpr::Implies(ant, _) => if (*ant is And) && (*ant == c1 || *ant == c2) {
                Some(*ant)
            } else {
                spec_conj_find(all, j + 1, c1, c2)
            },
            _ => spec_conj_find(all, j + 1, c1, c2),
        }
    }
}

/// Conjunction: from `A` and `B`, derive `A * B` (or `B * A`), but only
/// when some implication in the base already has that conjunction as its
/// antecedent; the first such antecedent is produced.
pub open spec fn spec_conj(p1: SpecFact, p2: SpecFact, all: Seq<SpecFact>) -> Seq<SpecCandidate> {
    let c1 = SpecExpr::And(Box::new(p1.expr), Box::new(p2.expr));
    let c2 = SpecExpr::And(Box::new(p2.expr), Box::new(p1.expr));
    match spec_conj_find(all, 0, c1, c2) {
        Some(ant) => seq![
            SpecCandidate { expr: ant, rule: Rule::Conjunction, parents: seq![p1.id, p2.id] },
        ],
        None => Seq::empty(),
    }
}

/// All candidates the two-fact rule table produces for the ordered pair
/// `(p1, p2)`, in rule-table order.
pub open spec fn spec_apply_rules(
    p1: SpecFact,
    p2: SpecFact,
    all: Seq<SpecFact>,
) -> Seq<SpecCandidate> {
    spec_mp(p1, p2) + spec_mt(p1, p2) + spec_hs(p1, p2) + spec_ds(p1, p2) + spec_add(p1, p2)
        + spec_conj(p1, p2, all)
}

/// Simplification: from `A * B`, derive both `A` and `B`.
pub open spec fn spec_simplification(cur: SpecFact) -> Seq<SpecCandidate> {
    match cur.expr {
        SpecExpr::And(a, b) => seq![
            SpecCandidate { expr: *a, rule: Rule::Simplification, parents: seq![cur.id] },
            SpecCandidate { expr: *b, rule: Rule::Simplification, parents: seq![cur.id] },
        ],
        _ => Seq::empty(),
    }
}

/// The pairwise candidates of the fact at `idx` against every other fact
/// of position below `j`, both orderings per partner, in position order.
pub open spec fn spec_pairs_upto(facts: Seq<SpecFact>, idx: int, j: int) -> Seq<SpecCandidate>
    decreases j,
{
    if j <= 0 {
        Seq::empty()
    } else {
        spec_pairs_upto(facts, idx, j - 1) + (if j - 1 == idx {
            Seq::empty()
        } else {
            spec_apply_rules(facts[idx], facts[j - 1], facts) + spec_apply_rules(
                facts[j - 1],
                facts[idx],
                facts,
            )
        })
    }
}

/// Every candidate one engine step proposes for the fact at `idx`:
/// simplification first, then the pairwise rules against all other facts.
pub open spec fn spec_step_candidates(facts: Seq<SpecFact>, idx: int) -> Seq<SpecCandidate> {
    spec_simplification(facts[idx]) + spec_pairs_upto(facts, idx, facts.len() as int)
}

/// Inserts candidates in order: a candidate whose expression is already
/// in the base is discarded; otherwise it is appended as a derived fact
/// with the next id and at once checked against the target and its
/// negation, stopping the whole insertion on a match.
pub open spec fn spec_insert(
    facts: Seq<SpecFact>,
    cands: Seq<SpecCandidate>,
    tg: SpecExpr,
    ntg: SpecExpr,
) -> (Seq<SpecFact>, Option<(int, Verdict)>)
    decreases cands.len(),
{
    if cands.len() == 0 {
        (facts, None)
    } else {
        let c = cands[0];
        if spec_has_expr(facts, c.expr) {
            spec_insert(facts, cands.drop_first(), tg, ntg)
        } else {
            let nf = SpecFact {
                expr: c.expr,
                source: SpecSource::Derived { rule: c.rule, parents: c.parents },
                id: facts.len() as int,
            };
            let f2 = facts.push(nf);
            if c.expr == tg {
                (f2, Some((facts.len() as int, Verdict::Valid)))
            } else if c.expr == ntg {
                (f2, Some((facts.len() as int, Verdict::Invalid)))
            } else {
                spec_insert(f2, cands.drop_first(), tg, ntg)
            }
        }
    }
}

/// The main loop from cursor position `idx`: while the cursor is inside
/// the base and the base holds fewer than 10000 facts, check the current
/// fact against the target and its negation, otherwise derive and insert
/// this step's candidates and advance. The result is the final base and,
/// unless the search was exhausted, the winning id and verdict.
pub open spec fn spec_run(
    facts: Seq<SpecFact>,
    idx: int,
    tg: SpecExpr,
    ntg: SpecExpr,
) -> (Seq<SpecFact>, Option<(int, Verdict)>)
    decreases 10000 - idx,
{
    if !(0 <= idx < facts.len() && facts.len() < 10000) {
        (facts, None)
    } else if facts[idx].expr == tg {
        (facts, Some((idx, Verdict::Valid)))
    } else if facts[idx].expr == ntg {
        (facts, Some((idx, Verdict::Invalid)))
    } else {
        let stepped = spec_insert(facts, spec_step_candidates(facts, idx), tg, ntg);
        match stepped.1 {
            Some(_) => stepped,
            None => spec_run(stepped.0, idx + 1, tg, ntg),
        }
    }
}

/// The premises as the initial fact base: ids in input order.
pub open spec fn spec_premise_base(premises: Seq<SpecExpr>) -> Seq<SpecFact> {
    Seq::new(
        premises.len(),
        |i: int| SpecFact { expr: premises[i], source: SpecSource::Premise, id: i },
    )
}

/// The whole search over the given premises and goal.
pub open spec fn spec_forward_chain(premises: Seq<SpecExpr>, goal: SpecExpr) -> (
    Seq<SpecFact>,
    Option<(int, Verdict)>,
) {
    spec_run(spec_premise_base(premises), 0, goal, spec_negate(goal))
}

/// Every fact's id is its position, and every derived fact cites only
/// strictly smaller ids: the dependency relation is acyclic by
/// construction.
pub open spec fn spec_wf_base(facts: Seq<SpecFact>) -> bool {
    forall|i: int|
        0 <= i < facts.len() ==> (#[trigger] facts[i]).id == i && (facts[i].source matches
        SpecSource::Derived { parents, .. } ==> forall|k: int|
            0 <= k < parents.len() ==> 0 <= #[trigger] parents[k] < i)
}

/// No two facts from position `n` up duplicate any earlier expression:
/// every derived fact's expression is new to the whole base.
pub open spec fn spec_derived_fresh(facts: Seq<SpecFact>, n: int) -> bool {
    forall|i: int, j: int|
        0 <= i < j < facts.len() && n <= j ==> (#[trigger] facts[i]).expr != (
        #[trigger] facts[j]).expr
}

/// No two facts anywhere in the base have structurally equal expressions.
pub open spec fn spec_all_distinct(facts: Seq<SpecFact>) -> bool {
    forall|i: int, j: int|
        0 <= i < j < facts.len() ==> (#[trigger] facts[i]).expr != (#[trigger] facts[j]).expr
}

fn ids1(a: usize) -> (v: Vec<usize>)
    ensures
        v@ == seq![a],
{
    let mut v: Vec<usize> = Vec::new();
    v.push(a);
    proof {
        assert(v@ =~= seq![a]);
    }
    v
}

fn ids2(a: usize, b: usize) -> (v: Vec<usize>)
    ensures
        v@ == seq![a, b],
{
    let mut v: Vec<usize> = Vec::new();
    v.push(a);
    v.push(b);
    proof {
        assert(v@ =~= seq![a, b]);
    }
    v
}

fn copy_ids(v: &Vec<usize>) -> (r: Vec<usize>)
    ensures
        r@ == v@,
{
    let mut r: Vec<usize> = Vec::new();
    let mut i: usize = 0;
    while i < v.len()
        invariant
            i <= v@.len(),
            r@ == v@.subrange(0, i as int),
        decreases v@.len() - i,
    {
        r.push(v[i]);
        proof {
            assert(r@ =~= v@.subrange(0, i as int + 1));
        }
        i += 1;
    }
    proof {
        assert(v@.subrange(0, v@.len() as int) =~= v@);
    }
    r
}

impl Clone for Source {
    /// A copy whose model is exactly the model of the original.
    fn clone(&self) -> (r: Self)
        ensures
            r@ == self@,
    {
        match self {
            Source::Premise => Source::Premise,
            Source::Derived { rule, parents } => Source::Derived {
                rule: *rule,
                parents: copy_ids(parents),
            },
        }
    }
}

impl Clone for Fact {
    /// A copy whose model is exactly the model of the original.
    fn clone(&self) -> (r: Self)
        ensures
            r@ == self@,
    {
        Fact { expr: self.expr.clone(), source: self.source.clone(), id: self.id }
    }
}

/// Whether some fact in the base has exactly this expression.
fn base_has_expr(facts: &Vec<Fact>, e: &Expr) -> (r: bool)
    ensures
        r == spec_has_expr(base_view(facts@), e@),
{
    let mut i: usize = 0;
    while i < facts.len()
        invariant
            i <= facts@.len(),
            forall|k: int| 0 <= k < i ==> base_view(facts@)[k].expr != e@,
        decreases facts@.len() - i,
    {
        if facts[i].expr == *e {
            proof {
                assert(base_view(facts@)[i as int].expr == e@);
            }
            return true;
        }
        i += 1;
    }
    false
}

/// Applies the two-fact rule table to the ordered pair `(p1, p2)` and
/// appends every produced candidate to `out`, in rule-table order.
pub fn apply_rules(p1: &Fact, p2: &Fact, all: &Vec<Fact>, out: &mut Vec<Candidate>)
    ensures
        cands_view(final(out)@) == cands_view(old(out)@) + spec_apply_rules(
            p1@,
            p2@,
            base_view(all@),
        ),
{
    let ghost o0 = cands_view(out@);

    // Modus Ponens: (A > B), A => B
    if let Expr::Implies(a, b) = &p1.expr {
        if **a == p2.expr {
            let c = Candidate {
                expr: (**b).clone(),
                rule: Rule::ModusPonens,
                parents: ids2(p1.id, p2.id),
            };
            proof {
                assert(c@.parents =~= seq![p1@.id, p2@.id]);
            }
            out.push(c);
        }
    }
    proof {
        assert(cands_view(out@) =~= o0 + spec_mp(p1@, p2@));
    }
    let ghost o1 = cands_view(out@);

    // Modus Tollens: (A > B), ~B => ~A
    if let Expr::Implies(a, b) = &p1.expr {
        if crate::expr::negate(&**b) == p2.expr {
            let c = Candidate {
                expr: crate::expr::negate(&**a),
                rule: Rule::ModusTollens,
                parents: ids2(p1.id, p2.id),
            };
            proof {
                assert(c@.parents =~= seq![p1@.id, p2@.id]);
            }
            out.push(c);
        }
    }
    proof {
        assert(cands_view(out@) =~= o1 + spec_mt(p1@, p2@));
    }
    let ghost o2 = cands_view(out@);

    // Hypothetical Syllogism: (A > B), (B > C) => (A > C)
    if let (Expr::Implies(a, b), Expr::Implies(c, d)) = (&p1.expr, &p2.expr) {
        if **b == **c {
            let cand = Candidate {
                expr: Expr::Implies(Box::new((**a).clone()), Box::new((**d).clone())),
                rule: Rule::HypotheticalSyllogism,
                parents: ids2(p1.id, p2.id),
            };
            proof {
                assert(cand@.parents =~= seq![p1@.id, p2@.id]);
            }
            out.push(cand);
        }
    }
    proof {
        assert(cands_view(out@) =~= o2 + spec_hs(p1@, p2@));
    }
    let ghost o3 = cands_view(out@);

    // Disjunctive Syllogism: (A + B), ~A => B and (A + B), ~B => A
    if let Expr::Or(a, b) = &p1.expr {
        if crate::expr::negate(&**a) == p2.expr {
            let c = Candidate {
                expr: (**b).clone(),
                rule: Rule::DisjunctiveSyllogism,
                parents: ids2(p1.id, p2.id),
            };
            proof {
                assert(c@.parents =~= seq![p1@.id, p2@.id]);
            }
            out.push(c);
        } else if crate::expr::negate(&**b) == p2.expr {
            let c = Candidate {
                expr: (**a).clone(),
                rule: Rule::DisjunctiveSyllogism,
                parents: ids2(p1.id, p2.id),
            };
            proof {
                assert(c@.parents =~= seq![p1@.id, p2@.id]);
            }
            out.push(c);
        }
    }
    proof {
        assert(cands_view(out@) =~= o3 + spec_ds(p1@, p2@));
    }
    let ghost o4 = cands_view(out@);

    // Addition: A => (L + R) when some implication has antecedent L + R
    // with L or R equal to A
    if let Expr::Implies(ant, _) = &p2.expr {
        if let Expr::Or(l, r) = &**ant {
            if **l == p1.expr || **r == p1.expr {
                let c = Candidate {
                    expr: (**ant).clone(),
                    rule: Rule::Addition,
                    parents: ids1(p1.id),
                };
                proof {
                    assert(c@.parents =~= seq![p1@.id]);
                    assert(spec_add(p1@, p2@).len() == 1);
                    assert(c@ == spec_add(p1@, p2@)[0]);
                }
                out.push(c);
            } else {
                proof {
                    reveal_with_fuel(crate::expr::model_of, 3);
                    assert(spec_add(p1@, p2@).len() == 0);
                }
            }
        } else {
            proof {
                reveal_with_fuel(crate::expr::model_of, 3);
                assert(spec_add(p1@, p2@).len() == 0);
            }
        }
    } else {
        proof {
            assert(spec_add(p1@, p2@).len() == 0);
        }
    }
    proof {
        assert(cands_view(out@) =~= o4 + spec_add(p1@, p2@));
    }
    let ghost o5 = cands_view(out@);

    // Conjunction: A, B => (A * B) only when it already stands as some
    // implication's antecedent; first match wins.
    let conj = Expr::And(Box::new(p1.expr.clone()), Box::new(p2.expr.clone()));
    let conj_rev = Expr::And(Box::new(p2.expr.clone()), Box::new(p1.expr.clone()));
    let ghost c1 = SpecExpr::And(Box::new(p1@.expr), Box::new(p2@.expr));
    let ghost c2 = SpecExpr::And(Box::new(p2@.expr), Box::new(p1@.expr));
    let mut j: usize = 0;
    while j < all.len()
        invariant
            j <= all@.len(),
            conj@ == c1,
            conj_rev@ == c2,
            c1 == SpecExpr::And(Box::new(p1@.expr), Box::new(p2@.expr)),
            c2 == SpecExpr::And(Box::new(p2@.expr), Box::new(p1@.expr)),
            o5 == cands_view(out@),
            o5 == cands_view(old(out)@) + spec_mp(p1@, p2@) + spec_mt(p1@, p2@) + spec_hs(
                p1@,
                p2@,
            ) + spec_ds(p1@, p2@) + spec_add(p1@, p2@),
            spec_conj_find(base_view(all@), 0, c1, c2) == spec_conj_find(
                base_view(all@),
                j as int,
                c1,
                c2,
            ),
        decreases all@.len() - j,
    {
        let f = &all[j];
        if let Expr::Implies(ant, _) = &f.expr {
            if let Expr::And(_, _) = &**ant {
                if **ant == conj || **ant == conj_rev {
                    let c = Candidate {
                        expr: (**ant).clone(),
                        rule: Rule::Conjunction,
                        parents: ids2(p1.id, p2.id),
                    };
                    proof {
                        assert(c@.parents =~= seq![p1@.id, p2@.id]);
                        assert(spec_conj_find(base_view(all@), j as int, c1, c2) == Some(
                            (**ant)@,
                        ));
                    }
                    out.push(c);
                    proof {
                        assert(cands_view(out@) =~= o5 + spec_conj(
                            p1@,
                            p2@,
                            base_view(all@),
                        ));
                        assert(cands_view(out@) =~= cands_view(old(out)@) + spec_apply_rules(
                            p1@,
                            p2@,
                            base_view(all@),
                        ));
                    }
                    return ;
                }
            }
        }
        proof {
            // No match at position j: the first-match search moves on.
            let bv = base_view(all@);
            assert(bv[j as int] == all@[j as int]@);
            assert(bv[j as int].expr == f@.expr);
            assert(spec_conj_find(bv, j as int, c1, c2) == spec_conj_find(
                bv,
                j as int + 1,
                c1,
                c2,
            ));
        }
        j += 1;
    }
    proof {
        assert(spec_conj_find(base_view(all@), all@.len() as int, c1, c2) is None);
        assert(cands_view(out@) =~= cands_view(old(out)@) + spec_apply_rules(
            p1@,
            p2@,
            base_view(all@),
        ));
    }
}

/// The models of a list of formulas.
pub open spec fn exprs_view(s: Seq<Expr>) -> Seq<SpecExpr> {
    s.map_values(|e: Expr| e@)
}

/// A verdict and optional winning id, folded into the model's outcome:
/// `None` exactly when the search was exhausted.
pub open spec fn spec_outcome(v: Verdict, w: Option<usize>) -> Option<(int, Verdict)> {
    match w {
        Some(i) => Some((i as int, v)),
        None => None,
    }
}

/// No two formulas in the list are structurally equal.
pub open spec fn spec_distinct(es: Seq<SpecExpr>) -> bool {
    forall|i: int, j: int| 0 <= i < j < es.len() ==> es[i] != es[j]
}

/// Every parent id of the candidate is one of the two given ids.
pub open spec fn spec_parents_in(c: SpecCandidate, id1: int, id2: int) -> bool {
    forall|k: int|
        0 <= k < c.parents.len() ==> #[trigger] c.parents[k] == id1 || c.parents[k] == id2
}

/// Every parent id of the candidate lies below `n`.
pub open spec fn spec_parents_bounded(c: SpecCandidate, n: int) -> bool {
    forall|k: int| 0 <= k < c.parents.len() ==> 0 <= #[trigger] c.parents[k] < n
}

/// Every candidate of the two-fact rule table cites only the two facts
/// it was produced from.
proof fn lemma_apply_rules_parents(p1: SpecFact, p2: SpecFact, all: Seq<SpecFact>)
    ensures
        forall|i: int|
            0 <= i < spec_apply_rules(p1, p2, all).len() ==> spec_parents_in(
                #[trigger] spec_apply_rules(p1, p2, all)[i],
                p1.id,
                p2.id,
            ),
{
    let s = spec_apply_rules(p1, p2, all);
    assert forall|i: int| 0 <= i < s.len() implies spec_parents_in(s[i], p1.id, p2.id) by {
        let a = spec_mp(p1, p2) + spec_mt(p1, p2) + spec_hs(p1, p2) + spec_ds(p1, p2) + spec_add(
            p1,
            p2,
        );
        if i < a.len() {
            assert(s[i] == a[i]);
        } else {
            assert(s[i] == spec_conj(p1, p2, all)[i - a.len()]);
        }
    }
}

/// The forward-chaining search. Seeds the fact base with the premises
/// (ids in input order), then repeatedly processes the fact under the
/// cursor: stop with `Valid` or `Invalid` when the goal or its canonical
/// negation appears, otherwise derive this step's candidates, insert the
/// novel ones, and advance, until the base is exhausted or the hard cap
/// of 10000 facts is reached, which yields `InsufficientInformation`.
///
/// The returned base is exactly the model's, every fact's id is its
/// position, every derived fact cites only strictly smaller ids, no
/// derived fact repeats any expression of the base, and when the
/// premises are pairwise distinct no two facts at all share an
/// expression.
pub fn forward_chain(premises: &Vec<Expr>, goal: &Expr) -> (r: (Vec<Fact>, Verdict, Option<usize>))
    ensures
        spec_forward_chain(exprs_view(premises@), goal@) == (base_view(r.0@), spec_outcome(
            r.1,
            r.2,
        )),
        spec_wf_base(base_view(r.0@)),
        spec_derived_fresh(base_view(r.0@), premises@.len() as int),
        spec_distinct(exprs_view(premises@)) ==> spec_all_distinct(base_view(r.0@)),
        premises@.len() <= r.0@.len(),
        forall|i: int|
            0 <= i < premises@.len() ==> #[trigger] base_view(r.0@)[i] == spec_premise_base(
                exprs_view(premises@),
            )[i],
        (match r.2 {
            Some(w) => w < r.0@.len() && r.1 != Verdict::InsufficientInformation && (r.1
                == Verdict::Valid ==> base_view(r.0@)[w as int].expr == goal@) && (r.1
                == Verdict::Invalid ==> base_view(r.0@)[w as int].expr == spec_negate(goal@)),
            None => r.1 == Verdict::InsufficientInformation,
        }),
{
    let ghost prem = exprs_view(premises@);
    let ghost p0 = spec_premise_base(prem);
    let ghost tg = goal@;
    let ghost ntg = spec_negate(goal@);

    let mut facts: Vec<Fact> = Vec::new();
    let mut i: usize = 0;
    while i < premises.len()
        invariant
            prem == exprs_view(premises@),
            p0 == spec_premise_base(prem),
            i <= premises@.len(),
            facts@.len() == i,
            base_view(facts@) == p0.subrange(0, i as int),
            spec_wf_base(base_view(facts@)),
            spec_derived_fresh(base_view(facts@), premises@.len() as int),
            spec_distinct(prem) ==> spec_all_distinct(base_view(facts@)),
        decreases premises@.len() - i,
    {
        facts.push(Fact { expr: premises[i].clone(), source: Source::Premise, id: i });
        proof {
            assert(base_view(facts@) =~= p0.subrange(0, i as int + 1));
            if spec_distinct(prem) {
                assert forall|x: int, y: int|
                    0 <= x < y < base_view(facts@).len() implies (#[trigger] base_view(
                    facts@,
                )[x]).expr != (#[trigger] base_view(facts@)[y]).expr by {
                    assert(base_view(facts@)[x].expr == prem[x]);
                    assert(base_view(facts@)[y].expr == prem[y]);
                }
            }
        }
        i += 1;
    }
    proof {
        assert(p0.subrange(0, premises@.len() as int) =~= p0);
    }

    let target = goal;
    let neg_target = crate::expr::negate(goal);
    let mut verdict = Verdict::InsufficientInformation;
    let mut win: Option<usize> = None;
    let mut idx: usize = 0;

    while win.is_none() && idx < facts.len() && facts.len() < 10000
        invariant
            prem == exprs_view(premises@),
            p0 == spec_premise_base(prem),
            tg == goal@,
            ntg == spec_negate(goal@),
            target@ == tg,
            neg_target@ == ntg,
            idx <= 10000,
            idx <= facts@.len(),
            spec_wf_base(base_view(facts@)),
            spec_derived_fresh(base_view(facts@), premises@.len() as int),
            spec_distinct(prem) ==> spec_all_distinct(base_view(facts@)),
            premises@.len() <= facts@.len(),
            forall|i: int|
                0 <= i < premises@.len() ==> #[trigger] base_view(facts@)[i] == p0[i],
            (match win {
                None => verdict == Verdict::InsufficientInformation && spec_run(p0, 0, tg, ntg)
                    == spec_run(base_view(facts@), idx as int, tg, ntg),
                Some(w) => spec_run(p0, 0, tg, ntg) == (base_view(facts@), Some(
                    (w as int, verdict),
                )) && w < facts@.len() && verdict != Verdict::InsufficientInformation && (verdict
                    == Verdict::Valid ==> base_view(facts@)[w as int].expr == tg) && (verdict
                    == Verdict::Invalid ==> base_view(facts@)[w as int].expr == ntg),
            }),
        decreases 10000 - idx,
    {
        let ghost b_enter = base_view(facts@);
        let cur = facts[idx].clone();
        proof {
            assert(cur@ == b_enter[idx as int]);
        }
        if cur.expr == *target {
            verdict = Verdict::Valid;
            win = Some(idx);
        } else if cur.expr == neg_target {
            verdict = Verdict::Invalid;
            win = Some(idx);
        } else {
            // Derive this step's candidates: simplification first, then
            // the pairwise rules against every other fact.
            let mut cands: Vec<Candidate> = Vec::new();
            if let Expr::And(a, b) = &cur.expr {
                let ca = Candidate {
                    expr: (**a).clone(),
                    rule: Rule::Simplification,
                    parents: ids1(cur.id),
                };
                proof {
                    assert(ca@.parents =~= seq![cur@.id]);
                }
                cands.push(ca);
                let cb = Candidate {
                    expr: (**b).clone(),
                    rule: Rule::Simplification,
                    parents: ids1(cur.id),
                };
                proof {
                    assert(cb@.parents =~= seq![cur@.id]);
                }
                cands.push(cb);
            }
            proof {
                assert(cands_view(cands@) =~= spec_simplification(b_enter[idx as int]));
                assert(spec_pairs_upto(b_enter, idx as int, 0) =~= Seq::<SpecCandidate>::empty());
                assert(cands_view(cands@) =~= spec_simplification(b_enter[idx as int])
                    + spec_pairs_upto(b_enter, idx as int, 0));
                assert forall|ci: int|
                    0 <= ci < cands_view(cands@).len() implies spec_parents_bounded(
                    #[trigger] cands_view(cands@)[ci],
                    b_enter.len() as int,
                ) by {
                    assert(cands_view(cands@)[ci].parents =~= seq![cur@.id]);
                }
            }
            let mut j: usize = 0;
            while j < facts.len()
                invariant
                    b_enter == base_view(facts@),
                    idx < facts@.len(),
                    j <= facts@.len(),
                    spec_wf_base(b_enter),
                    cur@ == b_enter[idx as int],
                    cands_view(cands@) == spec_simplification(b_enter[idx as int])
                        + spec_pairs_upto(b_enter, idx as int, j as int),
                    forall|ci: int|
                        0 <= ci < cands_view(cands@).len() ==> spec_parents_bounded(
                            #[trigger] cands_view(cands@)[ci],
                            b_enter.len() as int,
                        ),
                decreases facts@.len() - j,
            {
                let ghost cpre = cands_view(cands@);
                if j != idx {
                    apply_rules(&cur, &facts[j], &facts, &mut cands);
                    apply_rules(&facts[j], &cur, &facts, &mut cands);
                    proof {
                        let fj = b_enter[j as int];
                        assert(facts@[j as int]@ == fj);
                        assert(cands_view(cands@) =~= cpre + (spec_apply_rules(
                            cur@,
                            fj,
                            b_enter,
                        ) + spec_apply_rules(fj, cur@, b_enter)));
                        assert(cands_view(cands@) =~= spec_simplification(b_enter[idx as int])
                            + spec_pairs_upto(b_enter, idx as int, j as int + 1));
                        lemma_apply_rules_parents(cur@, fj, b_enter);
                        lemma_apply_rules_parents(fj, cur@, b_enter);
                        assert forall|ci: int|
                            0 <= ci < cands_view(cands@).len() implies spec_parents_bounded(
                            #[trigger] cands_view(cands@)[ci],
                            b_enter.len() as int,
                        ) by {
                            if ci >= cpre.len() {
                                let rest = spec_apply_rules(cur@, fj, b_enter) + spec_apply_rules(
                                    fj,
                                    cur@,
                                    b_enter,
                                );
                                assert(cands_view(cands@)[ci] == rest[ci - cpre.len()]);
                                assert(spec_parents_in(rest[ci - cpre.len()], cur@.id, fj.id));
                            }
                        }
                    }
                } else {
                    proof {
                        assert(cands_view(cands@) =~= spec_simplification(b_enter[idx as int])
                            + spec_pairs_upto(b_enter, idx as int, j as int + 1));
                    }
                }
                j += 1;
            }
            proof {
                assert(cands_view(cands@) == spec_step_candidates(b_enter, idx as int));
            }

            // Insert the candidates in order, discarding duplicates and
            // stopping as soon as the goal or its negation appears.
            let ghost cc = cands_view(cands@);
            proof {
                assert(cc.skip(0) =~= cc);
            }
            let mut k: usize = 0;
            while k < cands.len() && win.is_none()
                invariant
                    tg == goal@,
                    ntg == spec_negate(goal@),
                    target@ == tg,
                    neg_target@ == ntg,
                    prem == exprs_view(premises@),
                    k <= cands@.len(),
                    cc == cands_view(cands@),
                    b_enter.len() <= base_view(facts@).len(),
                    spec_wf_base(base_view(facts@)),
                    spec_derived_fresh(base_view(facts@), premises@.len() as int),
                    spec_distinct(prem) ==> spec_all_distinct(base_view(facts@)),
                    p0 == spec_premise_base(prem),
                    premises@.len() <= facts@.len(),
                    forall|i: int|
                        0 <= i < premises@.len() ==> #[trigger] base_view(facts@)[i] == p0[i],
                    forall|ci: int|
                        0 <= ci < cc.len() ==> spec_parents_bounded(
                            #[trigger] cc[ci],
                            b_enter.len() as int,
                        ),
                    (match win {
                        None => verdict == Verdict::InsufficientInformation && spec_insert(
                            b_enter,
                            cc,
                            tg,
                            ntg,
                        ) == spec_insert(base_view(facts@), cc.skip(k as int), tg, ntg),
                        Some(w) => spec_insert(b_enter, cc, tg, ntg) == (base_view(facts@), Some(
                            (w as int, verdict),
                        )) && w < facts@.len() && verdict != Verdict::InsufficientInformation && (
                        verdict == Verdict::Valid ==> base_view(facts@)[w as int].expr == tg) && (
                        verdict == Verdict::Invalid ==> base_view(facts@)[w as int].expr == ntg),
                    }),
                decreases cands@.len() - k,
            {
                let ghost b_k = base_view(facts@);
                let dup = base_has_expr(&facts, &cands[k].expr);
                proof {
                    assert(cc.skip(k as int)[0] == cc[k as int]);
                    assert(cc.skip(k as int).drop_first() =~= cc.skip(k as int + 1));
                    assert(cc[k as int] == cands@[k as int]@);
                }
                if !dup {
                    let nid = facts.len();
                    let c = &cands[k];
                    let nf = Fact {
                        expr: c.expr.clone(),
                        source: Source::Derived { rule: c.rule, parents: copy_ids(&c.parents) },
                        id: nid,
                    };
                    proof {
                        assert(nf@ == SpecFact {
                            expr: cc[k as int].expr,
                            source: SpecSource::Derived {
                                rule: cc[k as int].rule,
                                parents: cc[k as int].parents,
                            },
                            id: b_k.len() as int,
                        });
                    }
                    facts.push(nf);
                    proof {
                        assert(base_view(facts@) =~= b_k.push(
                            SpecFact {
                                expr: cc[k as int].expr,
                                source: SpecSource::Derived {
                                    rule: cc[k as int].rule,
                                    parents: cc[k as int].parents,
                                },
                                id: b_k.len() as int,
                            },
                        ));
                        assert(spec_wf_base(base_view(facts@)));
                        assert(spec_derived_fresh(
                            base_view(facts@),
                            premises@.len() as int,
                        )) by {
                            assert(!spec_has_expr(b_k, cc[k as int].expr));
                            assert forall|x: int, y: int|
                                0 <= x < y < base_view(facts@).len() && premises@.len() <= y
                                    implies (#[trigger] base_view(facts@)[x]).expr != (
                                #[trigger] base_view(facts@)[y]).expr by {
                                if y == b_k.len() {
                                    assert(base_view(facts@)[x] == b_k[x]);
                                }
                            }
                        }
                        if spec_distinct(prem) {
                            assert forall|x: int, y: int|
                                0 <= x < y < base_view(facts@).len() implies (
                            #[trigger] base_view(facts@)[x]).expr != (#[trigger] base_view(
                                facts@,
                            )[y]).expr by {
                                if y == b_k.len() {
                                    assert(base_view(facts@)[x] == b_k[x]);
                                }
                            }
                        }
                    }
                    if cands[k].expr == *target {
                        verdict = Verdict::Valid;
                        win = Some(nid);
                    } else if cands[k].expr == neg_target {
                        verdict = Verdict::Invalid;
                        win = Some(nid);
                    }
                }
                k += 1;
            }
            proof {
                if win is None {
                    assert(cc.skip(cands@.len() as int) =~= Seq::<SpecCandidate>::empty());
                    assert(spec_insert(b_enter, cc, tg, ntg) == (base_view(facts@), None::<(
                        int,
                        Verdict,
                    )>));
                    assert(spec_run(b_enter, idx as int, tg, ntg) == spec_run(
                        base_view(facts@),
                        idx as int + 1,
                        tg,
                        ntg,
                    ));
                } else {
                    assert(spec_run(b_enter, idx as int, tg, ntg) == spec_insert(
                        b_enter,
                        cc,
                        tg,
                        ntg,
                    ));
                }
            }
        }
        idx += 1;
    }
    proof {
        if win is None {
            assert(spec_run(base_view(facts@), idx as int, tg, ntg) == (base_view(facts@), None::<(
                int,
                Verdict,
            )>));
        }
    }
    (facts, verdict, win)
}

} // verus!
