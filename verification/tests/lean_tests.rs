use axiomatic::fol::{Equality, Term};
use axiomatic::lean::{find_ast_path, is_boolean_equality, map_rule_to_lean, map_rule_to_lean_typed, term_to_lean, term_to_lean_with_domain};

#[test]
fn test_term_to_lean_operators() {
    let x = Term::var("x");
    let y = Term::var("y");
    let plus = Term::func("+", vec![x.clone(), y.clone()]);
    assert_eq!(term_to_lean(&plus), "(x + y)");

    let dot = Term::func("·", vec![x.clone(), y.clone()]);
    assert_eq!(term_to_lean(&dot), "(x * y)");
}

#[test]
fn test_term_to_lean_shapes() {
    let a = Term::constant("a");
    let t = Term::func("&", vec![a.clone(), Term::constant("1")]);
    assert_eq!(term_to_lean_with_domain(&t, true), "(a && true)");
    assert_eq!(term_to_lean_with_domain(&t, false), "(a && 1)");
    let n = Term::func("¬", vec![a.clone()]);
    assert_eq!(term_to_lean(&n), "(!a)");
    let i = Term::func("Int", vec![a.clone(), Term::constant("b")]);
    assert_eq!(term_to_lean(&i), "(Integral a b)");
    assert_eq!(term_to_lean(&Term::func("c", vec![])), "c");
}

#[test]
fn test_rule_names_and_boolean_detection() {
    assert_eq!(map_rule_to_lean("add_zero"), "Nat.add_zero");
    assert_eq!(map_rule_to_lean_typed("add_zero", "Int"), "Int.add_zero");
    assert_eq!(map_rule_to_lean_typed("neg_neg", "Int"), "Int.neg_neg");
    assert_eq!(map_rule_to_lean("d_sum"), "d_sum");
    assert_eq!(map_rule_to_lean("de_morgan_or"), "Bool.not_or");
    let b = Equality::new(Term::func("&", vec![Term::constant("a"), Term::constant("1")]), Term::constant("a"));
    assert!(is_boolean_equality(&b));
    let n = Equality::new(Term::func("+", vec![Term::constant("a"), Term::constant("1")]), Term::constant("a"));
    assert!(!is_boolean_equality(&n));
}

#[test]
fn test_ast_path() {
    let a = Term::func("+", vec![Term::constant("x"), Term::func("*", vec![Term::constant("y"), Term::constant("0")])]);
    let b = Term::func("+", vec![Term::constant("x"), Term::func("*", vec![Term::constant("y"), Term::constant("1")])]);
    assert_eq!(find_ast_path(&a, &b), vec![1, 1]);
    assert!(find_ast_path(&a, &a).is_empty());
}
