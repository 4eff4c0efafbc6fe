use axiomatic::fol::{Equality, Term};
use axiomatic::kernel::{AxiomLibrary, FormalVerifier, MathDomain, ProofState, Tactic};

#[test]
fn test_prove_commutativity_identity() {
    let axioms = AxiomLibrary::standard_algebra();

    let a = Term::constant("a");
    let zero = Term::constant("0");
    let goal_eq = Equality::new(
        Term::func("+", vec![a.clone(), zero.clone()]),
        Term::func("+", vec![zero.clone(), a.clone()]),
    );

    let initial_state = ProofState::new(goal_eq);
    assert!(!initial_state.is_solved);

    let step1 = FormalVerifier::apply_tactic(
        &initial_state,
        &Tactic::RewriteLhs("add_zero".to_string()),
        &axioms,
    )
    .expect("Step 1 valid");

    let step2 = FormalVerifier::apply_tactic(
        &step1,
        &Tactic::RewriteRhs("zero_add".to_string()),
        &axioms,
    )
    .expect("Step 2 valid");

    assert!(step2.is_solved, "Proof must be certified complete upon reaching reflexivity");
    assert_eq!(step2.proof_history.len(), 2);
}

#[test]
fn test_proof_minimization_prunes_redundancy() -> Result<(), Box<dyn std::error::Error>> {
    let axioms = AxiomLibrary::standard_algebra();
    let a = Term::constant("a");
    let zero = Term::constant("0");
    let goal_eq = Equality::new(Term::func("+", vec![a.clone(), zero.clone()]), a.clone());

    let initial_state = ProofState::new(goal_eq);
    let step1 = FormalVerifier::apply_tactic(&initial_state, &Tactic::Symmetry, &axioms)?;
    let step2 = FormalVerifier::apply_tactic(&step1, &Tactic::Symmetry, &axioms)?;
    let mut step3 = FormalVerifier::apply_tactic(
        &step2,
        &Tactic::RewriteLhs("add_zero".to_string()),
        &axioms,
    )?;
    assert!(step3.is_solved);
    assert_eq!(step3.proof_history.len(), 3);

    step3.minimize(&axioms);
    assert!(step3.is_solved);
    assert_eq!(step3.proof_history.len(), 1);
    assert_eq!(step3.proof_history[0].0, Tactic::RewriteLhs("add_zero".to_string()));
    Ok(())
}

#[test]
fn test_tactic_errors() {
    let axioms = AxiomLibrary::standard_algebra();
    let goal = Equality::new(Term::constant("a"), Term::constant("b"));
    let s = ProofState::new(goal);
    assert_eq!(
        FormalVerifier::apply_tactic(&s, &Tactic::Reflexivity, &axioms).unwrap_err(),
        "Reflexivity failed: LHS does not match RHS"
    );
    assert_eq!(
        FormalVerifier::apply_tactic(&s, &Tactic::RewriteLhs("nope".to_string()), &axioms).unwrap_err(),
        "Unknown rewrite rule"
    );
    assert_eq!(
        FormalVerifier::apply_tactic(&s, &Tactic::RewriteLhs("add_zero".to_string()), &axioms).unwrap_err(),
        "Rewrite rule did not match LHS"
    );
    assert_eq!(
        FormalVerifier::apply_tactic(&s, &Tactic::EvalArithmeticRhs, &axioms).unwrap_err(),
        "No arithmetic operations to evaluate on RHS"
    );
    assert_eq!(
        FormalVerifier::apply_tactic(&s, &Tactic::ApplyAxiom("x".to_string()), &axioms).unwrap_err(),
        "Direct axiom application unsupported in minimal verifier"
    );
    assert_eq!(
        FormalVerifier::apply_tactic(&s, &Tactic::ZeroProductSplit, &axioms).unwrap_err(),
        "ZeroProductSplit requires (A * B) = 0"
    );
}

#[test]
fn test_symmetry_and_descriptions() {
    let axioms = AxiomLibrary::empty();
    let s = ProofState::new(Equality::new(Term::constant("a"), Term::constant("b")));
    let t = FormalVerifier::apply_tactic(&s, &Tactic::Symmetry, &axioms).unwrap();
    assert_eq!(t.open_goals[0].equality.to_string(), "b = a");
    assert_eq!(t.proof_history[0].1, "Applied symm: b = a");
    assert_eq!(t.depth, 1);
    let back = FormalVerifier::apply_tactic(&t, &Tactic::Symmetry, &axioms).unwrap();
    assert_eq!(back.open_goals[0].equality, s.open_goals[0].equality);
}

#[test]
fn test_transpose_and_split() {
    let axioms = AxiomLibrary::empty();
    let s = ProofState::new(Equality::new(Term::constant("x"), Term::constant("y")));
    let t = FormalVerifier::apply_tactic(&s, &Tactic::TransposeToZero, &axioms).unwrap();
    assert_eq!(t.open_goals[0].equality.to_string(), "-(x, y) = 0");
    assert_eq!(
        FormalVerifier::apply_tactic(&t, &Tactic::TransposeToZero, &axioms).unwrap_err(),
        "Equation already has zero RHS"
    );
    let prod = ProofState::new(Equality::new(
        Term::func("*", vec![Term::constant("a"), Term::constant("b")]),
        Term::constant("0"),
    ));
    let split = FormalVerifier::apply_tactic(&prod, &Tactic::ZeroProductSplit, &axioms).unwrap();
    assert_eq!(split.open_goals.len(), 2);
    assert_eq!(split.open_goals[0].id, 1);
    assert_eq!(split.open_goals[1].id, 1001);
    assert_eq!(split.proof_history[0].1, "Split zero product: (a = 0) and (b = 0)");
}

#[test]
fn test_expand_reaches_reflexivity_and_confluence() {
    let axioms = AxiomLibrary::standard_algebra();
    let done = ProofState::new(Equality::new(Term::constant("a"), Term::constant("a")));
    let succ = FormalVerifier::expand_valid_transitions(&done, &axioms);
    assert_eq!(succ.last().unwrap().0, Tactic::Reflexivity);
    assert!(succ.last().unwrap().1.is_solved);

    let a = Term::constant("a");
    let zero = Term::constant("0");
    let goal = Equality::new(
        Term::func("+", vec![a.clone(), zero.clone()]),
        Term::func("+", vec![zero.clone(), a.clone()]),
    );
    let s = ProofState::new(goal);
    let succ = FormalVerifier::expand_valid_transitions(&s, &axioms);
    assert!(succ[0].1.is_solved);
    assert_eq!(succ[0].1.proof_history.len(), 2);
    assert_eq!(succ[0].1.depth, 2);
}

#[test]
fn test_libraries() {
    assert_eq!(AxiomLibrary::standard_algebra().rules.len(), 20);
    assert_eq!(AxiomLibrary::complex_numbers().rules.len(), 23);
    assert_eq!(AxiomLibrary::boolean_logic().rules[0].0, "and_true");
    let uni = AxiomLibrary::unified_multidomain();
    let mut names: Vec<String> = uni.rules.iter().map(|(n, _)| n.clone()).collect();
    let total = names.len();
    names.sort();
    names.dedup();
    assert_eq!(names.len(), total);
    assert_eq!(AxiomLibrary::for_domain(MathDomain::Probability).rules.len(), 10);
    assert_eq!(MathDomain::SetTheory.name(), "Set Theory");
    assert_eq!(Tactic::RewriteLhs("r".to_string()).to_string(), "rw_lhs [r]");
}
