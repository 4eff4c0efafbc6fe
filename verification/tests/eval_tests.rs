use axiomatic::eval::{eval_full_arithmetic, eval_step_arithmetic, find_counterexample, find_polynomial_roots, gcd, ComplexRational, ComplexInt, Rational, eval_bool_term};
use axiomatic::fol::{Equality, Term};
use axiomatic::parser::parse_conjecture;

#[test]
fn test_eval_simple_addition() {
    let t = Term::func("+", vec![Term::from_i64(2), Term::from_i64(3)]);
    let res = eval_full_arithmetic(&t);
    assert_eq!(res.as_i64(), Some(5));
}

#[test]
fn test_eval_nested_arithmetic() {
    let t = Term::func(
        "+",
        vec![
            Term::func(
                "*",
                vec![
                    Term::func("*", vec![Term::from_i64(2), Term::from_i64(2)]),
                    Term::from_i64(2),
                ],
            ),
            Term::from_i64(2),
        ],
    );
    let res = eval_full_arithmetic(&t);
    assert_eq!(res.as_i64(), Some(10));
}

#[test]
fn test_eval_partial_ground() {
    let x = Term::constant("x");
    let t = Term::func(
        "+",
        vec![x.clone(), Term::func("*", vec![Term::from_i64(3), Term::from_i64(4)])],
    );
    let res = eval_full_arithmetic(&t);
    assert_eq!(res, Term::func("+", vec![x, Term::from_i64(12)]));
}

#[test]
fn test_eval_complex_i_squared() {
    let t = Term::func("*", vec![Term::constant("i"), Term::constant("i")]);
    let res = eval_full_arithmetic(&t);
    assert_eq!(res.as_i64(), Some(-1));
}

#[test]
fn test_eval_complex_root_satisfaction() {
    let Ok(eq) = parse_conjecture(
        "((((-1 + (2 * i)) * (-1 + (2 * i))) * (-1 + (2 * i))) + (-1 + (2 * i))) = 10",
    ) else {
        panic!("Failed to parse equation");
    };
    let res_lhs = eval_full_arithmetic(&eq.lhs);
    let res_rhs = eval_full_arithmetic(&eq.rhs);
    assert_eq!(res_lhs, res_rhs);
    assert_eq!(res_lhs.as_i64(), Some(10));
}

#[test]
fn test_eval_complex_conjugate_root() {
    let Ok(eq) = parse_conjecture(
        "((((-1 - (2 * i)) * (-1 - (2 * i))) * (-1 - (2 * i))) + (-1 - (2 * i))) = 10",
    ) else {
        panic!("Failed to parse equation");
    };
    let res_lhs = eval_full_arithmetic(&eq.lhs);
    let res_rhs = eval_full_arithmetic(&eq.rhs);
    assert_eq!(res_lhs, res_rhs);
    assert_eq!(res_lhs.as_i64(), Some(10));
}

#[test]
fn test_find_polynomial_roots_cubic() {
    let Ok(eq) = parse_conjecture("(((X * X) * X) + X) = 10") else {
        panic!("Failed to parse equation");
    };
    let roots = find_polynomial_roots(&eq, "X", 4);
    assert_eq!(roots.len(), 3);
    assert!(roots.iter().any(|r| r.to_string() == "2"));
    assert!(roots.iter().any(|r| r.to_string().contains("i")));
}

#[test]
fn test_eval_rational_addition() {
    let Ok(eq) = parse_conjecture("(1 / 2) + (1 / 3) = (5 / 6)") else {
        panic!("Failed to parse rational addition");
    };
    let l = eval_full_arithmetic(&eq.lhs);
    let r = eval_full_arithmetic(&eq.rhs);
    assert_eq!(l, r);
}

#[test]
fn test_eval_rational_division() {
    let Ok(eq) = parse_conjecture("(3 / 4) / (1 / 2) = (3 / 2)") else {
        panic!("Failed to parse rational division");
    };
    let l = eval_full_arithmetic(&eq.lhs);
    let r = eval_full_arithmetic(&eq.rhs);
    assert_eq!(l, r);
}

#[test]
fn test_find_polynomial_roots_rational() {
    let Ok(eq) = parse_conjecture("(2 * X) - 3 = 0") else {
        panic!("Failed to parse linear equation");
    };
    let roots = find_polynomial_roots(&eq, "X", 4);
    assert!(!roots.is_empty(), "Must discover rational root");
    assert!(roots.iter().any(|r| r.to_string() == "(3 / 2)"));
}

#[test]
fn test_counterexample_detects_false_identities() {
    let Ok(false_eq1) = parse_conjecture("((x + y) * (x + y)) = ((x * x) + (y * y))") else {
        panic!("Failed to parse false equation");
    };
    let ce1 = find_counterexample(&false_eq1);
    if let Some(unwrapped1) = ce1 {
        assert_ne!(unwrapped1.lhs_val, unwrapped1.rhs_val);
    } else {
        panic!("Expected counterexample for freshman's dream");
    }

    let Ok(false_eq2) = parse_conjecture("(x + 1) = x") else {
        panic!("Failed to parse false equation");
    };
    let ce2 = find_counterexample(&false_eq2);
    assert!(ce2.is_some(), "Must refute x + 1 = x");

    let Ok(true_eq) = parse_conjecture("(x + 0) = (0 + x)") else {
        panic!("Failed to parse true equation");
    };
    let ce_true = find_counterexample(&true_eq);
    assert!(ce_true.is_none(), "True identity must have no counterexample");
}

#[test]
fn test_counterexample_boolean_logic() {
    let Ok(false_bool) = parse_conjecture("(a & 0) = 1") else {
        panic!("Failed to parse boolean equation");
    };
    let ce = find_counterexample(&false_bool);
    assert!(ce.is_some(), "Must refute false boolean equation");
}

#[test]
fn test_gcd_values() {
    assert_eq!(gcd(12, 18), 6);
    assert_eq!(gcd(-12, 18), 6);
    assert_eq!(gcd(0, 0), 1);
    assert_eq!(gcd(0, -7), 7);
}

#[test]
fn test_rational_reduction_and_sign() {
    let r = Rational::new(6, -4).unwrap();
    assert_eq!(r, Rational { num: -3, den: 2 });
    assert!(Rational::new(1, 0).is_none());
    let half = Rational::new(1, 2).unwrap();
    let third = Rational::new(1, 3).unwrap();
    assert_eq!(half.add(third), Rational::new(5, 6));
    assert_eq!(half.sub(third), Rational::new(1, 6));
    assert_eq!(half.mul(third), Rational::new(1, 6));
    assert_eq!(half.div(third), Rational::new(3, 2));
    assert!(half.div(Rational::from_i64(0)).is_none());
    assert!(Rational::from_i64(i64::MAX).mul(Rational::from_i64(2)).is_none());
    assert_eq!(half.neg(), Rational { num: -1, den: 2 });
    assert_eq!(half.to_term().to_string(), "(1 / 2)");
    assert_eq!(Rational::from_i64(-4).to_term().to_string(), "-4");
}

#[test]
fn test_complex_arithmetic_and_terms() {
    let i = ComplexRational::new(Rational::from_i64(0), Rational::from_i64(1));
    let sq = i.mul(i).unwrap();
    assert_eq!(sq, ComplexRational::from_i64(-1));
    assert_eq!(i.to_term().to_string(), "i");
    let z = ComplexRational::new(Rational::from_i64(2), Rational::from_i64(-3));
    assert_eq!(z.to_term().to_string(), "(2 + (-3 * i))");
    let q = z.div(z).unwrap();
    assert_eq!(q, ComplexRational::from_i64(1));
    assert!(z.div(ComplexRational::from_i64(0)).is_none());
    let neg_i = ComplexRational::new(Rational::from_i64(0), Rational::from_i64(-1));
    assert_eq!(neg_i.to_term().to_string(), "-i");
    let t = parse_conjecture("(1 + i) * (1 - i) = 2").unwrap();
    assert_eq!(ComplexRational::from_term(&t.lhs), Some(ComplexRational::from_i64(2)));
    assert_eq!(ComplexInt::from_term(&t.lhs), Some(ComplexInt::new(2, 0)));
    assert_eq!(ComplexInt::from_term(&Term::func("/", vec![Term::from_i64(1), Term::from_i64(2)])), None);
    assert_eq!(ComplexInt::new(0, 2).to_term().to_string(), "(2 * i)");
    assert_eq!(ComplexRational::from_term(&Term::constant("x")), None);
}

#[test]
fn test_eval_step_folds_root_then_arguments() {
    let t = Term::func(
        "+",
        vec![
            Term::func("*", vec![Term::from_i64(2), Term::from_i64(3)]),
            Term::from_i64(4),
        ],
    );
    let steps = eval_step_arithmetic(&t);
    assert_eq!(steps.len(), 2);
    assert_eq!(steps[0].to_string(), "10");
    assert_eq!(steps[1].to_string(), "(6 + 4)");
    assert!(eval_step_arithmetic(&Term::constant("x")).is_empty());
    let neg = eval_step_arithmetic(&Term::constant("-3"));
    assert_eq!(neg.len(), 1);
    assert_eq!(neg[0].to_string(), "-3");
}

#[test]
fn test_eval_bool_values() {
    let t = parse_conjecture("!(1 & 0) = (0 | 1)").unwrap();
    assert_eq!(eval_bool_term(&t.lhs), Some(true));
    assert_eq!(eval_bool_term(&t.rhs), Some(true));
    assert_eq!(eval_bool_term(&Term::constant("a")), None);
}

#[test]
fn test_counterexample_of_ground_equalities() {
    let eq = Equality::new(Term::from_i64(2), Term::from_i64(3));
    let ce = find_counterexample(&eq).expect("2 = 3 is false");
    assert!(ce.assignments.is_empty());
    assert_eq!(ce.lhs_val, "2");
    assert_eq!(ce.rhs_val, "3");
    let ok = Equality::new(Term::func("+", vec![Term::from_i64(1), Term::from_i64(2)]), Term::from_i64(3));
    assert!(find_counterexample(&ok).is_none());
    let b = parse_conjecture("(1 & 0) = 1").unwrap();
    let ce = find_counterexample(&b).expect("false boolean identity");
    assert_eq!(ce.lhs_val, "false");
    assert_eq!(ce.rhs_val, "true");
}

#[test]
fn test_counterexample_assignment_order() {
    let eq = parse_conjecture("(x + 1) = x").unwrap();
    let ce = find_counterexample(&eq).unwrap();
    assert_eq!(ce.assignments.len(), 1);
    assert_eq!(ce.assignments[0].0, "x");
    assert_eq!(ce.assignments[0].1.to_string(), "0");
    assert_eq!(ce.lhs_val, "1");
    assert_eq!(ce.rhs_val, "0");
}

#[test]
fn test_polynomial_roots_of_linear_and_negative_range() {
    let eq = parse_conjecture("(X + 2) = 0").unwrap();
    let roots = find_polynomial_roots(&eq, "X", 3);
    assert_eq!(roots.len(), 1);
    assert_eq!(roots[0].to_string(), "-2");
    assert!(find_polynomial_roots(&eq, "X", -1).is_empty());
}
