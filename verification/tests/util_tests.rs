use prop_infer::numbers::{factorial, fibonacci};
use prop_infer::relations::{antisymmetric, equivalence, reflexive, symmetric, transitive};
use prop_infer::text::dec_string;

#[test]
fn factorial_base_cases() {
    assert_eq!(factorial(0), 1);
    assert_eq!(factorial(1), 1);
}

#[test]
fn factorial_small_values() {
    assert_eq!(factorial(5), 120);
    assert_eq!(factorial(10), 3628800);
}

#[test]
fn factorial_largest_u64() {
    assert_eq!(factorial(20), 2432902008176640000);
}

#[test]
fn fibonacci_base_cases() {
    assert_eq!(fibonacci(0), 0);
    assert_eq!(fibonacci(1), 1);
    assert_eq!(fibonacci(2), 1);
}

#[test]
fn fibonacci_small_values() {
    assert_eq!(fibonacci(10), 55);
    assert_eq!(fibonacci(20), 6765);
}

#[test]
fn fibonacci_largest_u64_in_range() {
    assert_eq!(fibonacci(92), 7540113804746346429);
}

#[test]
fn decimal_rendering() {
    assert_eq!(dec_string(0), "0");
    assert_eq!(dec_string(7), "7");
    assert_eq!(dec_string(10), "10");
    assert_eq!(dec_string(12345), "12345");
    assert_eq!(dec_string(10000), "10000");
}

#[test]
fn partial_order_like_relation() {
    // (1,2) present without (2,1): reflexive over the listed elements,
    // not symmetric, antisymmetric.
    let set: Vec<u64> = vec![1, 2, 3, 4];
    let rel: Vec<(u64, u64)> = vec![(1, 2), (1, 1), (2, 2), (3, 3), (4, 4)];
    assert!(reflexive(&set, &rel));
    assert!(!symmetric(&set, &rel));
    assert!(transitive(&set, &rel));
    assert!(antisymmetric(&set, &rel));
    assert!(!equivalence(&set, &rel));
}

#[test]
fn identity_relation_is_an_equivalence() {
    let set: Vec<u64> = vec![10, 20];
    let rel: Vec<(u64, u64)> = vec![(10, 10), (20, 20)];
    assert!(reflexive(&set, &rel));
    assert!(symmetric(&set, &rel));
    assert!(transitive(&set, &rel));
    assert!(antisymmetric(&set, &rel));
    assert!(equivalence(&set, &rel));
}

#[test]
fn missing_self_pair_breaks_reflexivity() {
    let set: Vec<u64> = vec![1, 2, 3, 4, 5];
    let rel: Vec<(u64, u64)> = vec![(1, 1), (2, 2), (3, 3), (4, 4)];
    assert!(!reflexive(&set, &rel));
    assert!(!equivalence(&set, &rel));
}

#[test]
fn symmetric_but_not_transitive() {
    let set: Vec<u64> = vec![1, 2, 3];
    let rel: Vec<(u64, u64)> = vec![(1, 2), (2, 1), (2, 3), (3, 2)];
    assert!(symmetric(&set, &rel));
    // (1,2) and (2,3) present without (1,3).
    assert!(!transitive(&set, &rel));
    assert!(!antisymmetric(&set, &rel));
}

#[test]
fn empty_set_has_every_property() {
    let set: Vec<u64> = vec![];
    let rel: Vec<(u64, u64)> = vec![];
    assert!(reflexive(&set, &rel));
    assert!(symmetric(&set, &rel));
    assert!(transitive(&set, &rel));
    assert!(antisymmetric(&set, &rel));
    assert!(equivalence(&set, &rel));
}
