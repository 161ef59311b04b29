//! Proof reconstruction: a depth-first, post-order walk over the
//! dependency links of the winning fact, producing a linear, deduplicated
//! step list in which every fact's dependencies appear before it.

use crate::engine::{
    base_view, ids_view, spec_wf_base, Fact, Rule, Source, SpecFact, SpecSource,
};
use crate::expr::{spec_render_expr, Expr, SpecExpr};
use crate::text::{dec_string, spec_dec_str};
use vstd::prelude::*;
use vstd::string::StringExecFns;

verus! {

/// The ids of a dependency walk from `id`, appended to `acc`:
/// dependencies first (each visited at most once), then `id` itself.
pub open spec fn spec_collect(facts: Seq<SpecFact>, id: int, acc: Seq<int>) -> Seq<int>
    decreases id, 1int, 0int,
{
    if acc.contains(id) {
        acc
    } else {
        let acc2 = if 0 <= id < facts.len() {
            match facts[id].source {
                SpecSource::Derived { parents, .. } => spec_collect_list(facts, id, parents, acc),
                SpecSource::Premise => acc,
            }
        } else {
            acc
        };
        acc2.push(id)
    }
}

/// The walk over a list of parent ids, left to right, each strictly
/// below `id`.
pub open spec fn spec_collect_list(
    facts: Seq<SpecFact>,
    id: int,
    ps: Seq<int>,
    acc: Seq<int>,
) -> Seq<int>
    decreases id, 0int, ps.len(),
{
    if ps.len() == 0 {
        acc
    } else {
        let acc2 = if 0 <= ps[0] < id {
            spec_collect(facts, ps[0], acc)
        } else {
            acc
        };
        spec_collect_list(facts, id, ps.drop_first(), acc2)
    }
}

/// Every listed id is a position in the base.
pub open spec fn spec_list_in_range(facts: Seq<SpecFact>, l: Seq<int>) -> bool {
    forall|k: int| 0 <= k < l.len() ==> 0 <= #[trigger] l[k] < facts.len()
}

/// No id is listed twice.
pub open spec fn spec_list_no_dup(l: Seq<int>) -> bool {
    forall|k1: int, k2: int| 0 <= k1 < k2 < l.len() ==> l[k1] != l[k2]
}

/// The parent ids a fact cites: empty for a premise or an id outside
/// the base.
pub open spec fn spec_step_parents(facts: Seq<SpecFact>, id: int) -> Seq<int> {
    if 0 <= id < facts.len() {
        match facts[id].source {
            SpecSource::Derived { parents, .. } => parents,
            SpecSource::Premise => Seq::empty(),
        }
    } else {
        Seq::empty()
    }
}

/// Every listed derived fact has all its parents listed earlier.
pub open spec fn spec_parents_before(facts: Seq<SpecFact>, l: Seq<int>) -> bool {
    forall|k: int, m: int|
        0 <= k < l.len() && 0 <= m < spec_step_parents(facts, l[k]).len() ==> l.subrange(
            0,
            k,
        ).contains(#[trigger] spec_step_parents(facts, l[k])[m])
}

/// A well-formed step list: listed ids exist, appear once, and follow
/// all their dependencies.
pub open spec fn spec_list_closed(facts: Seq<SpecFact>, l: Seq<int>) -> bool {
    spec_list_in_range(facts, l) && spec_list_no_dup(l) && spec_parents_before(facts, l)
}

/// Whether the id is already listed.
fn ids_contains(list: &Vec<usize>, x: usize) -> (r: bool)
    ensures
        r == ids_view(list@).contains(x as int),
{
    let mut i: usize = 0;
    while i < list.len()
        invariant
            i <= list@.len(),
            forall|k: int| 0 <= k < i ==> ids_view(list@)[k] != x as int,
        decreases list@.len() - i,
    {
        if list[i] == x {
            proof {
                assert(ids_view(list@)[i as int] == x as int);
            }
            return true;
        }
        i += 1;
    }
    false
}

/// The position of a listed id.
fn index_of_id(list: &Vec<usize>, x: usize) -> (r: usize)
    requires
        ids_view(list@).contains(x as int),
    ensures
        r < list@.len(),
        list@[r as int] == x,
{
    let mut i: usize = 0;
    while i < list.len()
        invariant
            i <= list@.len(),
            forall|k: int| 0 <= k < i ==> ids_view(list@)[k] != x as int,
            ids_view(list@).contains(x as int),
        decreases list@.len() - i,
    {
        if list[i] == x {
            return i;
        }
        i += 1;
    }
    proof {
        let k = choose|k: int| 0 <= k < ids_view(list@).len() && ids_view(list@)[k] == x as int;
        assert(false);
    }
    0
}

/// Collects, depth first and post order, every fact the fact `id`
/// depends on, then `id` itself; an id already listed is not revisited.
/// The result extends `list` exactly as the model `spec_collect` says,
/// stays well formed, and newly listed ids never exceed `id`.
pub fn collect_deps(facts: &Vec<Fact>, id: usize, list: &mut Vec<usize>)
    requires
        spec_wf_base(base_view(facts@)),
        id < facts@.len(),
        spec_list_closed(base_view(facts@), ids_view(old(list)@)),
    ensures
        ids_view(final(list)@) == spec_collect(base_view(facts@), id as int, ids_view(old(list)@)),
        spec_list_closed(base_view(facts@), ids_view(final(list)@)),
        old(list)@.len() <= final(list)@.len(),
        forall|k: int|
            0 <= k < old(list)@.len() ==> #[trigger] ids_view(final(list)@)[k] == ids_view(
                old(list)@,
            )[k],
        ids_view(final(list)@).contains(id as int),
        forall|k: int|
            old(list)@.len() <= k < final(list)@.len() ==> #[trigger] ids_view(final(list)@)[k]
                <= id as int,
    decreases id,
{
    let ghost bv = base_view(facts@);
    let ghost a0 = ids_view(list@);
    if ids_contains(list, id) {
        return ;
    }
    let f = &facts[id];
    let ghost all_ps = spec_step_parents(bv, id as int);
    proof {
        assert(f@ == bv[id as int]);
    }
    if let Source::Derived { parents, .. } = &f.source {
        let ghost psv = ids_view(parents@);
        proof {
            assert(bv[id as int].source matches SpecSource::Derived { parents: p, .. } ==> p
                == psv);
            assert(psv.skip(0) =~= psv);
        }
        let mut m: usize = 0;
        while m < parents.len()
            invariant
                bv == base_view(facts@),
                a0 == ids_view(old(list)@),
                spec_wf_base(bv),
                id < facts@.len(),
                m <= parents@.len(),
                psv == ids_view(parents@),
                bv[id as int].source == (SpecSource::Derived {
                    rule: bv[id as int].source->Derived_rule,
                    parents: psv,
                }),
                forall|k: int| 0 <= k < psv.len() ==> 0 <= #[trigger] psv[k] < id as int,
                spec_list_closed(bv, ids_view(list@)),
                a0.len() <= list@.len(),
                forall|k: int| 0 <= k < a0.len() ==> #[trigger] ids_view(list@)[k] == a0[k],
                !ids_view(list@).contains(id as int),
                !a0.contains(id as int),
                forall|k: int|
                    a0.len() <= k < list@.len() ==> #[trigger] ids_view(list@)[k] < id as int,
                forall|m2: int|
                    0 <= m2 < m ==> ids_view(list@).contains(#[trigger] psv[m2]),
                spec_collect_list(bv, id as int, psv, a0) == spec_collect_list(
                    bv,
                    id as int,
                    psv.skip(m as int),
                    ids_view(list@),
                ),
            decreases parents@.len() - m,
        {
            let p = parents[m];
            proof {
                assert(psv[m as int] == p as int);
                assert(0 <= psv[m as int] < id as int);
            }
            let ghost pre = ids_view(list@);
            collect_deps(facts, p, list);
            proof {
                assert(psv.skip(m as int)[0] == psv[m as int]);
                assert(psv.skip(m as int).drop_first() =~= psv.skip(m as int + 1));
                assert(spec_collect_list(bv, id as int, psv.skip(m as int), pre)
                    == spec_collect_list(bv, id as int, psv.skip(m as int + 1), ids_view(list@)));
                assert forall|k: int|
                    a0.len() <= k < list@.len() implies #[trigger] ids_view(list@)[k]
                    < id as int by {
                    if k < pre.len() {
                        assert(ids_view(list@)[k] == pre[k]);
                    } else {
                        assert(ids_view(list@)[k] <= p as int);
                    }
                }
                assert forall|k: int|
                    0 <= k < list@.len() implies #[trigger] ids_view(list@)[k] != id as int by {
                    if k < pre.len() {
                        assert(ids_view(list@)[k] == pre[k]);
                    } else if k < a0.len() {
                        assert(ids_view(list@)[k] == pre[k]);
                    } else {
                        assert(ids_view(list@)[k] < id as int);
                    }
                }
                assert forall|m2: int|
                    0 <= m2 < m + 1 implies ids_view(list@).contains(#[trigger] psv[m2]) by {
                    if m2 < m {
                        let w = choose|w: int| 0 <= w < pre.len() && pre[w] == psv[m2];
                        assert(ids_view(list@)[w] == psv[m2]);
                    } else {
                        assert(ids_view(list@).contains(p as int));
                    }
                }
            }
            m += 1;
        }
        proof {
            assert(psv.skip(parents@.len() as int) =~= Seq::<int>::empty());
            assert(all_ps == psv);
            assert forall|m2: int|
                0 <= m2 < all_ps.len() implies ids_view(list@).contains(
                #[trigger] all_ps[m2],
            ) by {
                assert(ids_view(list@).contains(psv[m2]));
            }
        }
    } else {
        proof {
            assert(all_ps.len() == 0);
        }
    }
    let ghost before = ids_view(list@);
    list.push(id);
    proof {
        assert(ids_view(list@) =~= before.push(id as int));
        assert(ids_view(list@)[before.len() as int] == id as int);
        assert(ids_view(list@).contains(id as int));
        assert(ids_view(list@).subrange(0, before.len() as int) =~= before);
        assert forall|k: int|
            0 <= k < ids_view(list@).len() implies 0 <= #[trigger] ids_view(list@)[k]
            < bv.len() by {
            if k < before.len() {
                assert(ids_view(list@)[k] == before[k]);
            }
        }
        assert forall|k: int, m2: int|
            0 <= k < ids_view(list@).len() && 0 <= m2 < spec_step_parents(
                bv,
                ids_view(list@)[k],
            ).len() implies ids_view(list@).subrange(0, k).contains(
            #[trigger] spec_step_parents(bv, ids_view(list@)[k])[m2],
        ) by {
            if k < before.len() {
                assert(ids_view(list@)[k] == before[k]);
                assert(ids_view(list@).subrange(0, k) =~= before.subrange(0, k));
                assert(before.subrange(0, k).contains(spec_step_parents(bv, before[k])[m2]));
            } else {
                assert(ids_view(list@)[k] == id as int);
                assert(ids_view(list@).subrange(0, k) =~= before);
                assert(before.contains(all_ps[m2]));
            }
        }
    }
}

/// One rendered proof step: the formula, and either a premise marker or
/// the rule used with the 1-based numbers of the steps it used.
#[derive(Debug)]
pub struct ProofStep {
    pub expr: Expr,
    pub rule: Option<Rule>,
    pub refs: Vec<usize>,
}

/// The model of a proof step.
pub struct SpecStep {
    pub expr: SpecExpr,
    pub rule: Option<Rule>,
    pub refs: Seq<int>,
}

impl View for ProofStep {
    type V = SpecStep;

    open spec fn view(&self) -> SpecStep {
        SpecStep { expr: self.expr@, rule: self.rule, refs: ids_view(self.refs@) }
    }
}

/// The model of a step list.
pub open spec fn steps_view(s: Seq<ProofStep>) -> Seq<SpecStep> {
    s.map_values(|st: ProofStep| st@)
}

/// The position of `x` in the list (unique when the list has no
/// duplicates).
pub open spec fn spec_pos_in(l: Seq<int>, x: int) -> int {
    choose|k: int| 0 <= k < l.len() && l[k] == x
}

/// Parent ids remapped to 1-based step numbers.
pub open spec fn spec_refs(l: Seq<int>, ps: Seq<int>) -> Seq<int> {
    ps.map_values(|p: int| spec_pos_in(l, p) + 1)
}

/// The steps rendered from a collected id list: for each listed fact its
/// expression, and for a derived fact its rule and its parents' step
/// numbers.
pub open spec fn spec_steps(facts: Seq<SpecFact>, l: Seq<int>) -> Seq<SpecStep> {
    Seq::new(
        l.len(),
        |k: int|
            SpecStep {
                expr: facts[l[k]].expr,
                rule: match facts[l[k]].source {
                    SpecSource::Premise => None,
                    SpecSource::Derived { rule, .. } => Some(rule),
                },
                refs: match facts[l[k]].source {
                    SpecSource::Premise => Seq::empty(),
                    SpecSource::Derived { parents, .. } => spec_refs(l, parents),
                },
            },
    )
}

/// The whole proof trace for the winning fact.
pub open spec fn spec_trace(facts: Seq<SpecFact>, win: int) -> Seq<SpecStep> {
    spec_steps(facts, spec_collect(facts, win, Seq::empty()))
}

/// Builds the proof trace for the fact `target_id`: collects its
/// dependencies in order and renders each as a step, remapping parent
/// ids to their 1-based position in the step list.
pub fn build_trace(facts: &Vec<Fact>, target_id: usize) -> (steps: Vec<ProofStep>)
    requires
        spec_wf_base(base_view(facts@)),
        target_id < facts@.len(),
    ensures
        steps_view(steps@) == spec_trace(base_view(facts@), target_id as int),
{
    let ghost bv = base_view(facts@);
    let mut list: Vec<usize> = Vec::new();
    proof {
        assert(ids_view(list@) =~= Seq::<int>::empty());
    }
    collect_deps(facts, target_id, &mut list);
    let ghost lv = ids_view(list@);
    let ghost target = spec_steps(bv, lv);

    let mut steps: Vec<ProofStep> = Vec::new();
    let mut k: usize = 0;
    while k < list.len()
        invariant
            bv == base_view(facts@),
            lv == ids_view(list@),
            spec_list_closed(bv, lv),
            target == spec_steps(bv, lv),
            k <= list@.len(),
            steps@.len() == k,
            forall|i: int| 0 <= i < k ==> #[trigger] steps_view(steps@)[i] == target[i],
        decreases list@.len() - k,
    {
        let fid = list[k];
        proof {
            assert(lv[k as int] == fid as int);
            assert(0 <= lv[k as int] < bv.len());
        }
        let f = &facts[fid];
        proof {
            assert(f@ == bv[fid as int]);
        }
        let step = match &f.source {
            Source::Premise => {
                let refs0: Vec<usize> = Vec::new();
                proof {
                    assert(ids_view(refs0@) =~= Seq::<int>::empty());
                }
                ProofStep { expr: f.expr.clone(), rule: None, refs: refs0 }
            },
            Source::Derived { rule, parents } => {
                let ghost psv = ids_view(parents@);
                let mut refs: Vec<usize> = Vec::new();
                let mut m: usize = 0;
                proof {
                    assert(lv.subrange(0, k as int).len() <= lv.len());
                }
                while m < parents.len()
                    invariant
                        bv == base_view(facts@),
                        lv == ids_view(list@),
                        spec_list_closed(bv, lv),
                        k < lv.len(),
                        lv[k as int] == fid as int,
                        0 <= fid < facts@.len(),
                        bv[fid as int].source == (SpecSource::Derived {
                            rule: bv[fid as int].source->Derived_rule,
                            parents: psv,
                        }),
                        psv == ids_view(parents@),
                        m <= parents@.len(),
                        refs@.len() == m,
                        forall|i: int|
                            0 <= i < m ==> #[trigger] ids_view(refs@)[i] == spec_pos_in(
                                lv,
                                psv[i],
                            ) + 1,
                    decreases parents@.len() - m,
                {
                    let p = parents[m];
                    proof {
                        assert(psv[m as int] == p as int);
                        assert(spec_step_parents(bv, lv[k as int]) == psv);
                        assert(lv.subrange(0, k as int).contains(
                            spec_step_parents(bv, lv[k as int])[m as int],
                        ));
                        assert(lv.subrange(0, k as int).contains(psv[m as int]));
                        let w = choose|w: int|
                            0 <= w < lv.subrange(0, k as int).len() && lv.subrange(0, k as int)[w]
                                == p as int;
                        assert(lv[w] == p as int);
                        assert(ids_view(list@).contains(p as int));
                    }
                    let pos = index_of_id(&list, p);
                    let nlist = list.len();
                    proof {
                        assert(pos < nlist);
                    }
                    let ghost prerefs = ids_view(refs@);
                    refs.push(pos + 1);
                    proof {
                        assert(lv[pos as int] == p as int);
                        let q = spec_pos_in(lv, p as int);
                        assert(0 <= q < lv.len() && lv[q] == p as int);
                        assert(q == pos as int);
                        assert forall|i: int|
                            0 <= i < m + 1 implies #[trigger] ids_view(refs@)[i] == spec_pos_in(
                            lv,
                            psv[i],
                        ) + 1 by {
                            if i < m {
                                assert(refs@[i] == refs@.subrange(0, m as int)[i]);
                                assert(ids_view(refs@)[i] == prerefs[i]);
                            } else {
                                assert(refs@[i] == (pos + 1) as usize);
                            }
                        }
                    }
                    m += 1;
                }
                proof {
                    assert(ids_view(refs@) =~= spec_refs(lv, psv));
                }
                ProofStep { expr: f.expr.clone(), rule: Some(*rule), refs }
            },
        };
        let ghost stepm = step@;
        let ghost presteps = steps_view(steps@);
        proof {
            assert(stepm == target[k as int]);
        }
        steps.push(step);
        proof {
            assert forall|i: int|
                0 <= i < k + 1 implies #[trigger] steps_view(steps@)[i] == target[i] by {
                if i < k {
                    assert(steps@[i] == steps@.subrange(0, k as int)[i]);
                    assert(steps_view(steps@)[i] == presteps[i]);
                } else {
                    assert(steps_view(steps@)[i] == stepm);
                }
            }
        }
        k += 1;
    }
    proof {
        assert(steps_view(steps@) =~= target);
    }
    steps
}

/// The printed name of an inference rule.
pub open spec fn spec_rule_name(r: Rule) -> Seq<char> {
    match r {
        Rule::Simplification => "Simplification"@,
        Rule::ModusPonens => "Modus Ponens"@,
        Rule::ModusTollens => "Modus Tollens"@,
        Rule::HypotheticalSyllogism => "Hypothetical Syllogism"@,
        Rule::DisjunctiveSyllogism => "Disjunctive Syllogism"@,
        Rule::Addition => "Addition"@,
        Rule::Conjunction => "Conjunction"@,
    }
}

/// The printed name of an inference rule.
pub fn rule_name(r: Rule) -> (s: String)
    ensures
        s@ == spec_rule_name(r),
{
    match r {
        Rule::Simplification => String::from_str("Simplification"),
        Rule::ModusPonens => String::from_str("Modus Ponens"),
        Rule::ModusTollens => String::from_str("Modus Tollens"),
        Rule::HypotheticalSyllogism => String::from_str("Hypothetical Syllogism"),
        Rule::DisjunctiveSyllogism => String::from_str("Disjunctive Syllogism"),
        Rule::Addition => String::from_str("Addition"),
        Rule::Conjunction => String::from_str("Conjunction"),
    }
}

/// The `", Step b, Step c"` tail of a reference list.
pub open spec fn spec_refs_rest(refs: Seq<int>) -> Seq<char>
    decreases refs.len(),
{
    if refs.len() == 0 {
        Seq::empty()
    } else {
        ", Step "@ + spec_dec_str(refs[0]) + spec_refs_rest(refs.drop_first())
    }
}

/// The `"Step a, Step b"` list of the steps a derived step relies on.
pub open spec fn spec_refs_text(refs: Seq<int>) -> Seq<char> {
    if refs.len() == 0 {
        Seq::empty()
    } else {
        "Step "@ + spec_dec_str(refs[0]) + spec_refs_rest(refs.drop_first())
    }
}

/// One rendered line of the proof trace, with its 1-based number `n`:
/// `Step n: <formula> [Premise]`, or
/// `Step n: <formula> [Derived from Step a, Step b using <rule>]`.
pub open spec fn spec_step_line(st: SpecStep, n: int) -> Seq<char> {
    "Step "@ + spec_dec_str(n) + ": "@ + spec_render_expr(st.expr) + (match st.rule {
        None => " [Premise]"@,
        Some(r) => " [Derived from "@ + spec_refs_text(st.refs) + " using "@ + spec_rule_name(r)
            + "]"@,
    })
}

/// Renders the comma-separated step references of a derived step.
fn refs_text(refs: &Vec<usize>) -> (s: String)
    ensures
        s@ == spec_refs_text(ids_view(refs@)),
{
    let ghost rv = ids_view(refs@);
    let mut s = String::new();
    if refs.len() == 0 {
        proof {
            assert(s@ =~= spec_refs_text(rv));
        }
        return s;
    }
    s.append("Step ");
    let d0 = dec_string(refs[0]);
    s.append(d0.as_str());
    proof {
        assert(rv[0] == refs@[0] as int);
        assert(s@ =~= "Step "@ + spec_dec_str(rv[0]));
    }
    let mut i: usize = 1;
    while i < refs.len()
        invariant
            rv == ids_view(refs@),
            1 <= i <= refs@.len(),
            refs@.len() > 0,
            spec_refs_text(rv) == s@ + spec_refs_rest(rv.skip(i as int)),
        decreases refs@.len() - i,
    {
        proof {
            assert(rv.skip(i as int)[0] == rv[i as int]);
            assert(rv.skip(i as int).drop_first() =~= rv.skip(i as int + 1));
        }
        s.append(", Step ");
        let d = dec_string(refs[i]);
        s.append(d.as_str());
        proof {
            assert(spec_refs_text(rv) =~= s@ + spec_refs_rest(rv.skip(i as int + 1)));
        }
        i += 1;
    }
    proof {
        assert(rv.skip(refs@.len() as int) =~= Seq::<int>::empty());
        assert(s@ =~= spec_refs_text(rv));
    }
    s
}

/// Renders one proof step with its 1-based number.
pub fn render_step(step: &ProofStep, n: usize) -> (s: String)
    ensures
        s@ == spec_step_line(step@, n as int),
{
    let mut s = String::from_str("Step ");
    let d = dec_string(n);
    s.append(d.as_str());
    s.append(": ");
    let e = step.expr.render();
    s.append(e.as_str());
    match &step.rule {
        None => {
            s.append(" [Premise]");
        },
        Some(r) => {
            s.append(" [Derived from ");
            let refs = refs_text(&step.refs);
            s.append(refs.as_str());
            s.append(" using ");
            let rn = rule_name(*r);
            s.append(rn.as_str());
            s.append("]");
        },
    }
    proof {
        assert(s@ =~= spec_step_line(step@, n as int));
    }
    s
}

/// Renders the whole proof trace, one line per step, numbered from 1.
pub fn render_trace(steps: &Vec<ProofStep>) -> (lines: Vec<String>)
    ensures
        lines@.len() == steps@.len(),
        forall|k: int|
            0 <= k < steps@.len() ==> (#[trigger] lines@[k])@ == spec_step_line(
                steps_view(steps@)[k],
                k + 1,
            ),
{
    let mut lines: Vec<String> = Vec::new();
    let mut k: usize = 0;
    while k < steps.len()
        invariant
            k <= steps@.len(),
            lines@.len() == k,
            forall|i: int|
                0 <= i < k ==> (#[trigger] lines@[i])@ == spec_step_line(
                    steps_view(steps@)[i],
                    i + 1,
                ),
        decreases steps@.len() - k,
    {
        let line = render_step(&steps[k], k + 1);
        proof {
            assert(steps@[k as int]@ == steps_view(steps@)[k as int]);
        }
        lines.push(line);
        k += 1;
    }
    lines
}

} // verus!
