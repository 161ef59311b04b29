use prop_infer::engine::{apply_rules, Candidate, Fact, Rule, Source, Verdict};
use prop_infer::expr::Expr;
use prop_infer::parser::Parser;
use prop_infer::solve::{render_verdict, solve, Solution};
use prop_infer::trace::{collect_deps, render_trace};

fn parse(s: &str) -> Expr {
    Parser::new(s).parse_expr().unwrap()
}

fn run(premises: &[&str], goal: &str) -> Solution {
    let prems: Vec<Expr> = premises.iter().map(|s| parse(s)).collect();
    solve(prems, parse(goal))
}

fn trace_lines(sol: &Solution) -> Vec<String> {
    render_trace(sol.steps.as_ref().unwrap())
}

#[test]
fn modus_ponens_scenario() {
    let sol = run(&["p>q", "p"], "q");
    assert_eq!(sol.verdict, Verdict::Valid);
    assert_eq!(
        trace_lines(&sol),
        vec![
            "Step 1: (p > q) [Premise]",
            "Step 2: p [Premise]",
            "Step 3: q [Derived from Step 1, Step 2 using Modus Ponens]",
        ]
    );
}

#[test]
fn modus_tollens_scenario() {
    let sol = run(&["p>q", "~q"], "~p");
    assert_eq!(sol.verdict, Verdict::Valid);
    assert_eq!(
        trace_lines(&sol),
        vec![
            "Step 1: (p > q) [Premise]",
            "Step 2: ~q [Premise]",
            "Step 3: ~p [Derived from Step 1, Step 2 using Modus Tollens]",
        ]
    );
}

#[test]
fn disjunctive_syllogism_scenario() {
    let sol = run(&["p+q", "~p"], "q");
    assert_eq!(sol.verdict, Verdict::Valid);
    assert_eq!(
        trace_lines(&sol),
        vec![
            "Step 1: (p + q) [Premise]",
            "Step 2: ~p [Premise]",
            "Step 3: q [Derived from Step 1, Step 2 using Disjunctive Syllogism]",
        ]
    );
}

#[test]
fn hypothetical_syllogism_scenario() {
    let sol = run(&["p>q", "q>r"], "p>r");
    assert_eq!(sol.verdict, Verdict::Valid);
    assert_eq!(
        trace_lines(&sol),
        vec![
            "Step 1: (p > q) [Premise]",
            "Step 2: (q > r) [Premise]",
            "Step 3: (p > r) [Derived from Step 1, Step 2 using Hypothetical Syllogism]",
        ]
    );
}

#[test]
fn unrelated_goal_is_insufficient() {
    let sol = run(&["p"], "q");
    assert_eq!(sol.verdict, Verdict::InsufficientInformation);
    assert!(sol.winner.is_none());
    assert!(sol.steps.is_none());
}

#[test]
fn contradiction_does_not_entail_arbitrary_goal() {
    // The rule set deliberately has no explosion rule.
    let sol = run(&["p", "~p"], "q");
    assert_eq!(sol.verdict, Verdict::InsufficientInformation);
    assert!(sol.winner.is_none());
}

#[test]
fn negated_goal_gives_invalid() {
    let sol = run(&["p>q", "~q"], "p");
    assert_eq!(sol.verdict, Verdict::Invalid);
    assert!(sol.winner.is_some());
    let lines = trace_lines(&sol);
    assert_eq!(
        lines.last().unwrap(),
        "Step 3: ~p [Derived from Step 1, Step 2 using Modus Tollens]"
    );
}

#[test]
fn simplification_rule_fires() {
    let sol = run(&["p*q"], "q");
    assert_eq!(sol.verdict, Verdict::Valid);
    assert_eq!(
        trace_lines(&sol),
        vec![
            "Step 1: (p * q) [Premise]",
            "Step 2: q [Derived from Step 1 using Simplification]",
        ]
    );
}

#[test]
fn duplicate_candidates_are_discarded() {
    // Simplification proposes p, which duplicates the second premise and
    // is dropped; only q enters the base.
    let sol = run(&["p*q", "p"], "q");
    assert_eq!(sol.verdict, Verdict::Valid);
    assert_eq!(
        trace_lines(&sol),
        vec![
            "Step 1: (p * q) [Premise]",
            "Step 2: q [Derived from Step 1 using Simplification]",
        ]
    );
}

#[test]
fn addition_rule_manufactures_the_disjunction() {
    let sol = run(&["p", "(p+q)>r"], "r");
    assert_eq!(sol.verdict, Verdict::Valid);
    assert_eq!(
        trace_lines(&sol),
        vec![
            "Step 1: ((p + q) > r) [Premise]",
            "Step 2: p [Premise]",
            "Step 3: (p + q) [Derived from Step 2 using Addition]",
            "Step 4: r [Derived from Step 1, Step 3 using Modus Ponens]",
        ]
    );
}

#[test]
fn conjunction_rule_fires_only_with_matching_implication() {
    let sol = run(&["p", "q", "(p*q)>r"], "r");
    assert_eq!(sol.verdict, Verdict::Valid);
    assert_eq!(
        trace_lines(&sol),
        vec![
            "Step 1: ((p * q) > r) [Premise]",
            "Step 2: p [Premise]",
            "Step 3: q [Premise]",
            "Step 4: (p * q) [Derived from Step 2, Step 3 using Conjunction]",
            "Step 5: r [Derived from Step 1, Step 4 using Modus Ponens]",
        ]
    );
}

#[test]
fn conjunction_without_matching_implication_stays_silent() {
    let sol = run(&["p", "q"], "p*q");
    assert_eq!(sol.verdict, Verdict::InsufficientInformation);
}

#[test]
fn goal_that_is_a_premise_is_valid_immediately() {
    let sol = run(&["p", "q"], "p");
    assert_eq!(sol.verdict, Verdict::Valid);
    assert_eq!(sol.winner, Some(0));
    assert_eq!(trace_lines(&sol), vec!["Step 1: p [Premise]"]);
}

#[test]
fn repeated_runs_are_deterministic() {
    let a = run(&["p>q", "q>r", "p"], "r");
    let b = run(&["p>q", "q>r", "p"], "r");
    assert_eq!(a.verdict, b.verdict);
    assert_eq!(a.winner, b.winner);
    assert_eq!(trace_lines(&a), trace_lines(&b));
}

#[test]
fn verdict_labels() {
    assert_eq!(render_verdict(Verdict::Valid), "Valid");
    assert_eq!(render_verdict(Verdict::Invalid), "Invalid");
    assert_eq!(
        render_verdict(Verdict::InsufficientInformation),
        "Insufficient Information"
    );
}

#[test]
fn chained_reasoning_reaches_the_goal() {
    let sol = run(&["p>q", "q>r", "p"], "r");
    assert_eq!(sol.verdict, Verdict::Valid);
    let lines = trace_lines(&sol);
    assert_eq!(lines.last().unwrap().split(": ").nth(1).unwrap().split(' ').next().unwrap(), "r");
}

#[test]
fn duplicate_premises_are_both_seeded() {
    // Premises enter unconditionally with ids in input order; only
    // derived facts are deduplicated.
    let sol = run(&["p", "p"], "q");
    assert_eq!(sol.verdict, Verdict::InsufficientInformation);
}

#[test]
fn apply_rules_produces_modus_ponens_candidate() {
    let p1 = Fact { expr: parse("p>q"), source: Source::Premise, id: 0 };
    let p2 = Fact { expr: parse("p"), source: Source::Premise, id: 1 };
    let all = vec![p1.clone(), p2.clone()];
    let mut out: Vec<Candidate> = Vec::new();
    apply_rules(&p1, &p2, &all, &mut out);
    assert_eq!(out.len(), 1);
    assert_eq!(out[0].expr, parse("q"));
    assert_eq!(out[0].rule, Rule::ModusPonens);
    assert_eq!(out[0].parents, vec![0, 1]);
}

#[test]
fn apply_rules_without_match_produces_nothing() {
    let p1 = Fact { expr: parse("p"), source: Source::Premise, id: 0 };
    let p2 = Fact { expr: parse("q"), source: Source::Premise, id: 1 };
    let all = vec![p1.clone(), p2.clone()];
    let mut out: Vec<Candidate> = Vec::new();
    apply_rules(&p1, &p2, &all, &mut out);
    apply_rules(&p2, &p1, &all, &mut out);
    assert!(out.is_empty());
}

#[test]
fn collect_deps_orders_dependencies_first() {
    let facts = vec![
        Fact { expr: parse("p>q"), source: Source::Premise, id: 0 },
        Fact { expr: parse("p"), source: Source::Premise, id: 1 },
        Fact {
            expr: parse("q"),
            source: Source::Derived { rule: Rule::ModusPonens, parents: vec![0, 1] },
            id: 2,
        },
    ];
    let mut list: Vec<usize> = Vec::new();
    collect_deps(&facts, 2, &mut list);
    assert_eq!(list, vec![0, 1, 2]);
}

#[test]
fn collect_deps_visits_shared_dependencies_once() {
    let facts = vec![
        Fact { expr: parse("a*b"), source: Source::Premise, id: 0 },
        Fact {
            expr: parse("a"),
            source: Source::Derived { rule: Rule::Simplification, parents: vec![0] },
            id: 1,
        },
        Fact {
            expr: parse("b"),
            source: Source::Derived { rule: Rule::Simplification, parents: vec![0] },
            id: 2,
        },
        Fact {
            expr: parse("a*b"),
            source: Source::Derived { rule: Rule::Conjunction, parents: vec![1, 2] },
            id: 3,
        },
    ];
    let mut list: Vec<usize> = Vec::new();
    collect_deps(&facts, 3, &mut list);
    assert_eq!(list, vec![0, 1, 2, 3]);
}

#[test]
fn no_premises_is_insufficient() {
    let sol = solve(Vec::new(), parse("p"));
    assert_eq!(sol.verdict, Verdict::InsufficientInformation);
    assert!(sol.winner.is_none());
    assert!(sol.steps.is_none());
}

#[test]
fn premise_matching_negated_goal_is_invalid_immediately() {
    let sol = run(&["~p"], "p");
    assert_eq!(sol.verdict, Verdict::Invalid);
    assert_eq!(sol.winner, Some(0));
    assert_eq!(trace_lines(&sol), vec!["Step 1: ~p [Premise]"]);
}
