use axiomatic::curriculum::DifficultyLevel;
use axiomatic::database::LemmaDatabase;
use axiomatic::embedding::term_stats;
use axiomatic::fol::{Equality, Term};
use axiomatic::kernel::{AxiomLibrary, ProofState, Tactic};
use axiomatic::lean_export::{export_equality_to_lean4, export_to_lean4};
use axiomatic::parser::parse_conjecture;
use axiomatic::policy::SymbolicNeuralPolicy;
use axiomatic::prompt::format_proof_prompt;
use axiomatic::vectordb::{classify_domain, contains_str, detect_domain};

#[test]
fn test_record_and_augment_axioms() {
    let mut db = LemmaDatabase::new();
    let eq = Equality::new(
        Term::func("+", vec![Term::var("x"), Term::constant("0")]),
        Term::var("x"),
    );
    db.record_theorem("lemma_add_zero", eq.clone(), ProofState::new(eq));

    let mut lib = AxiomLibrary::empty();
    db.augment_axioms(&mut lib);
    assert_eq!(lib.rules.len(), 1);
    assert_eq!(lib.rules[0].0, "lemma_add_zero");
}

#[test]
fn test_record_fields() {
    let mut db = LemmaDatabase::new();
    let eq = Equality::new(Term::constant("a"), Term::constant("a"));
    let mut st = ProofState::new(eq.clone());
    st.proof_history.push((Tactic::Reflexivity, "Solved #1: a = a via rfl".to_string()));
    db.record_theorem("refl_a", eq, st);
    assert_eq!(db.theorems.len(), 1);
    assert_eq!(db.theorems[0].proof_length, 1);
    assert!(!db.theorems[0].lean_certified);
    assert!(!db.theorems[0].timestamp.is_empty());
}

#[test]
fn test_export_to_lean4_format() {
    let x = Term::var("x");
    let zero = Term::constant("0");
    let goal = Equality::new(Term::func("+", vec![x.clone(), zero.clone()]), x.clone());
    let mut state = ProofState::new(goal.clone());
    state.proof_history.push((
        Tactic::RewriteLhs("add_zero".to_string()),
        "Rewrote LHS via [add_zero]: x = x".to_string(),
    ));
    state.proof_history.push((Tactic::Reflexivity, "Solved #1: x = x via rfl".to_string()));

    let lean = export_to_lean4("thm_add_zero", &state);
    assert!(lean.contains("theorem thm_add_zero (x : Nat) : (x + 0) = x := by"));
    assert!(!lean.contains("sorry"));
    assert!(lean.contains("Nat.add_zero"));
}

#[test]
fn test_export_to_lean4_boolean() {
    let a = Term::var("a");
    let one = Term::constant("1");
    let goal = Equality::new(Term::func("&", vec![a.clone(), one.clone()]), a.clone());
    let mut state = ProofState::new(goal.clone());
    state.proof_history.push((
        Tactic::RewriteLhs("and_true".to_string()),
        "Rewrote LHS via [and_true]: a = a".to_string(),
    ));
    state.proof_history.push((Tactic::Reflexivity, "Solved #1: a = a via rfl".to_string()));

    let lean = export_to_lean4("thm_and_true", &state);
    assert!(lean.contains("theorem thm_and_true (a : Bool) : (a && true) = a := by"));
    assert!(lean.contains("Bool.and_true"));
    assert!(lean.contains("try decide"));
}

#[test]
fn test_export_to_lean4_complex_root() {
    let eq = parse_conjecture(
        "((((-1 + (2 * i)) * (-1 + (2 * i))) * (-1 + (2 * i))) + (-1 + (2 * i))) = 10",
    )
    .unwrap();
    let mut state = ProofState::new(eq);
    state.proof_history.push((Tactic::EvalArithmeticLhs, "Evaluated arithmetic on LHS: 10 = 10".to_string()));
    state.proof_history.push((Tactic::Reflexivity, "Solved: 10 = 10 via rfl".to_string()));

    let lean = export_to_lean4("thm_complex_root", &state);
    assert!(lean.contains("structure ComplexI"));
    assert!(lean.contains("= (10 : ComplexI)"));
}

#[test]
fn test_export_paths_and_preambles() {
    let goal = parse_conjecture("D((x * 1)) = 1").unwrap();
    let mut state = ProofState::new(goal.clone());
    state.proof_history.push((Tactic::RewriteLhs("mul_one".to_string()), "Rewrote LHS via [mul_one]: D(x) = 1".to_string()));
    state.proof_history.push((Tactic::Symmetry, "Applied symm: 1 = D(x)".to_string()));
    let lean = export_equality_to_lean4("thm_d", &goal, &state);
    assert!(!lean.contains("opaque D : Int -> Int"));
    assert!(lean.contains("theorem thm_d (x : Nat) : (D (x * 1)) = 1 := by"));
    assert!(lean.contains("  try (first | (conv => lhs; arg 1; rw [Nat.mul_one]) | (conv => lhs; rw [Nat.mul_one]) | (rw [Nat.mul_one]))\n"));
    let calc = Equality::new(Term::func("+", vec![Term::constant("sin"), Term::constant("y")]), Term::constant("y"));
    let c = export_equality_to_lean4("thm_c", &calc, &ProofState::new(calc.clone()));
    assert!(c.contains("opaque D : Int -> Int"));
    assert!(c.contains("theorem thm_c (y : Int) : (sin + y) = y := by"));
    assert!(lean.contains("  try symm\n"));
    assert!(lean.ends_with("  try rfl\n  try omega\n"));
    let ground = Equality::new(Term::constant("1"), Term::constant("1"));
    let empty = ProofState::new(ground.clone());
    let g = export_equality_to_lean4("thm_one", &ground, &empty);
    assert!(g.contains("theorem thm_one : 1 = 1 := by"));
}

#[test]
fn test_prompt_text() {
    let goal = Equality::new(Term::constant("a"), Term::constant("b"));
    let mut state = ProofState::new(goal);
    let p = format_proof_prompt(&state);
    assert_eq!(
        p,
        "You are an Autonomous Neurosymbolic Prover. Current Proof State:\n  [GOAL] #1: a = b\nPropose the best formal rewrite tactic or lemma application to simplify and prove the goal.\n"
    );
    state.proof_history.push((Tactic::Symmetry, "Applied symm: b = a".to_string()));
    let p = format_proof_prompt(&state);
    assert!(p.contains("Applied Steps so far:\n  1. symm (Applied symm: b = a)\n"));
}

#[test]
fn test_domain_detection() {
    assert_eq!(detect_domain("DIFF_rule", "x"), "Symbolic Calculus");
    assert_eq!(detect_domain("lemma", "a & b"), "Boolean Logic");
    assert_eq!(detect_domain("Union_Law", "A"), "Set Theory & Induction");
    assert_eq!(detect_domain("Matrix", "A"), "Linear Algebra");
    assert_eq!(detect_domain("lemma", "x + 0 = x"), "Abstract Algebra");
    assert_eq!(classify_domain("DIFF"), "Abstract Algebra");
    assert!(contains_str("hello", "ell"));
    assert!(!contains_str("hello", "elo"));
    assert!(contains_str("abc", ""));
}

#[test]
fn test_small_items() {
    assert_eq!(DifficultyLevel::Level3Distributivity.name(), "Level 3: Multi-term Distributivity");
    assert!(DifficultyLevel::Level1Identities < DifficultyLevel::Level5ComplexPolynomials);
    let t = parse_conjecture("((a + b) * c) = c").unwrap();
    assert_eq!(term_stats(&t.lhs), (3, 5));
    assert_eq!(SymbolicNeuralPolicy::term_complexity(&t.lhs), 5);
    let _p = SymbolicNeuralPolicy::new();
}
