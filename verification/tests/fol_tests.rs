use axiomatic::fol::{Equality, Term};
use axiomatic::unify::{apply_rewrite, unify};

#[test]
fn test_unification_and_occurs_check() {
    let x = Term::var("x");
    let y = Term::var("y");
    let a = Term::constant("a");

    let f_x_y = Term::func("f", vec![x.clone(), y.clone()]);
    let f_a_a = Term::func("f", vec![a.clone(), a.clone()]);

    let mgu = unify(&f_x_y, &f_a_a).expect("Must unify successfully");
    assert_eq!(mgu.get("x").unwrap(), &a);
    assert_eq!(mgu.get("y").unwrap(), &a);
}

#[test]
fn test_algebraic_rewrite() {
    let x = Term::var("x");
    let zero = Term::constant("0");
    let rule = Equality::new(Term::func("+", vec![x.clone(), zero]), x.clone());

    let a = Term::constant("a");
    let b = Term::constant("b");
    let target = Term::func(
        "+",
        vec![Term::func("+", vec![a.clone(), Term::constant("0")]), b.clone()],
    );

    let rewritten = apply_rewrite(&target, &rule);
    assert!(!rewritten.is_empty());
    assert_eq!(rewritten[0], Term::func("+", vec![a, b]));
}

#[test]
fn test_occurs_check_refuses_cyclic_binding() {
    let x = Term::var("x");
    let fx = Term::func("f", vec![x.clone()]);
    assert!(unify(&x, &fx).is_none());
    assert!(unify(&Term::constant("a"), &Term::constant("b")).is_none());
    let s = unify(&x, &Term::constant("a")).unwrap();
    assert_eq!(fx.substitute(&s), Term::func("f", vec![Term::constant("a")]));
}

#[test]
fn test_term_queries() {
    let t = Term::func("+", vec![Term::var("x"), Term::func("*", vec![Term::constant("a"), Term::constant("1")])]);
    assert!(t.occurs("x"));
    assert!(!t.occurs("a"));
    assert!(t.contains_symbol("a"));
    assert_eq!(t.size(), 5);
    assert_eq!(t.extract_symbols(), vec!["a".to_string(), "x".to_string()]);
    assert_eq!(t.to_string(), "(?x + (a * 1))");
    let r = t.replace_variable("a", &Term::constant("b"));
    assert_eq!(r.to_string(), "(?x + (b * 1))");
    let e = Equality::new(Term::constant("p"), Term::func("g", vec![Term::constant("q"), Term::constant("r")]));
    assert_eq!(e.flip().to_string(), "g(q, r) = p");
    assert_eq!(e.extract_variables(), vec!["p".to_string(), "q".to_string(), "r".to_string()]);
    assert_eq!(Term::from_i64(-7).as_i64(), Some(-7));
    assert_eq!(Term::constant("x").as_i64(), None);
}

#[test]
fn test_rewrite_everywhere_in_order() {
    let x = Term::var("x");
    let rule = Equality::new(Term::func("+", vec![x.clone(), Term::constant("0")]), x.clone());
    let inner = Term::func("+", vec![Term::constant("a"), Term::constant("0")]);
    let target = Term::func("+", vec![inner.clone(), Term::constant("0")]);
    let out = apply_rewrite(&target, &rule);
    assert_eq!(out.len(), 2);
    assert_eq!(out[0], inner);
    assert_eq!(out[1].to_string(), "(a + 0)");
}
