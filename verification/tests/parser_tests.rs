use prop_infer::expr::{negate, Expr};
use prop_infer::parser::Parser;

fn parse(s: &str) -> Expr {
    Parser::new(s).parse_expr().unwrap()
}

fn v(name: &str) -> Expr {
    Expr::Var(name.to_string())
}

fn not(e: Expr) -> Expr {
    Expr::Not(Box::new(e))
}

fn and(l: Expr, r: Expr) -> Expr {
    Expr::And(Box::new(l), Box::new(r))
}

fn or(l: Expr, r: Expr) -> Expr {
    Expr::Or(Box::new(l), Box::new(r))
}

fn implies(l: Expr, r: Expr) -> Expr {
    Expr::Implies(Box::new(l), Box::new(r))
}

#[test]
fn parses_single_variable() {
    assert_eq!(parse("p"), v("p"));
}

#[test]
fn parses_multi_character_variable() {
    assert_eq!(parse("ab1"), v("ab1"));
}

#[test]
fn parses_implication() {
    assert_eq!(parse("p>q"), implies(v("p"), v("q")));
}

#[test]
fn implication_is_right_associative() {
    assert_eq!(parse("p>q>r"), implies(v("p"), implies(v("q"), v("r"))));
}

#[test]
fn disjunction_is_left_associative() {
    assert_eq!(parse("a+b+c"), or(or(v("a"), v("b")), v("c")));
}

#[test]
fn conjunction_binds_tighter_than_disjunction() {
    assert_eq!(parse("a*b+c"), or(and(v("a"), v("b")), v("c")));
}

#[test]
fn negation_binds_tightest() {
    assert_eq!(parse("~a*b"), and(not(v("a")), v("b")));
}

#[test]
fn full_precedence_chain() {
    assert_eq!(
        parse("a > b + c * ~d"),
        implies(v("a"), or(v("b"), and(v("c"), not(v("d")))))
    );
}

#[test]
fn parentheses_override_precedence() {
    assert_eq!(parse("a*(b+c)"), and(v("a"), or(v("b"), v("c"))));
}

#[test]
fn whitespace_is_discarded() {
    assert_eq!(parse("  p  >  q  "), implies(v("p"), v("q")));
}

#[test]
fn double_negation_parses_as_two_nots() {
    assert_eq!(parse("~~p"), not(not(v("p"))));
}

#[test]
fn empty_input_is_an_error() {
    assert!(Parser::new("").parse_expr().is_err());
}

#[test]
fn unmatched_open_paren_is_an_error() {
    assert!(Parser::new("(a").parse_expr().is_err());
}

#[test]
fn dangling_operator_is_an_error() {
    assert!(Parser::new("p>").parse_expr().is_err());
}

#[test]
fn unexpected_character_is_an_error() {
    assert!(Parser::new(")").parse_expr().is_err());
}

#[test]
fn bare_negation_is_an_error() {
    assert!(Parser::new("~").parse_expr().is_err());
}

#[test]
fn trailing_input_is_ignored() {
    // The grammar accepts a prefix match; the remainder stays unconsumed.
    assert_eq!(parse("a)b"), v("a"));
}

#[test]
fn negate_wraps_a_variable_once() {
    assert_eq!(negate(&v("p")), not(v("p")));
}

#[test]
fn negate_wraps_a_binary_node_once() {
    let e = implies(v("p"), v("q"));
    assert_eq!(negate(&e), not(e.clone()));
}

#[test]
fn negate_strips_one_not() {
    assert_eq!(negate(&not(v("p"))), v("p"));
}

#[test]
fn negate_of_double_not_leaves_single_not() {
    assert_eq!(negate(&not(not(v("p")))), not(v("p")));
}

#[test]
fn renders_with_infix_notation() {
    assert_eq!(parse("~(a+b)*c").render(), "(~(a + b) * c)");
    assert_eq!(parse("p>q").render(), "(p > q)");
    assert_eq!(parse("~~x").render(), "~~x");
}
