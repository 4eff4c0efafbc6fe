use axiomatic::decomposer::{default_target_conjecture, GoalDecomposer};
use axiomatic::fol::{Equality, Term};
use axiomatic::induction::InductionEngine;
use axiomatic::inventor::TheoryInventor;
use axiomatic::kernel::{AxiomLibrary, MathDomain, ProofState, Tactic};

#[test]
fn test_non_triviality_filter() {
    let trivial = Equality::new(Term::constant("x"), Term::constant("x"));
    assert!(!TheoryInventor::is_non_trivial(&trivial));

    let non_trivial = TheoryInventor::invent_for_domain(MathDomain::AbstractAlgebra, 0);
    assert!(TheoryInventor::is_non_trivial(&non_trivial));

    let bool_thm = TheoryInventor::invent_for_domain(MathDomain::BooleanLogic, 1);
    assert!(TheoryInventor::is_non_trivial(&bool_thm));

    let calc_thm = TheoryInventor::invent_for_domain(MathDomain::SymbolicCalculus, 0);
    assert!(TheoryInventor::is_non_trivial(&calc_thm));
}

#[test]
fn test_peano_induction_split() {
    let n = Term::constant("n");
    let zero = Term::constant("0");
    let goal_eq = Equality::new(Term::func("+", vec![n.clone(), zero.clone()]), n.clone());

    let initial_state = ProofState::new(goal_eq);
    let inductive_state =
        InductionEngine::apply_induction(&initial_state, "n").expect("Induction should succeed");

    assert_eq!(inductive_state.open_goals.len(), 2);
    assert_eq!(inductive_state.open_goals[0].equality.to_string(), "(0 + 0) = 0");
    assert_eq!(
        inductive_state.open_goals[1].equality.to_string(),
        "(succ(n_k) + 0) = succ(n_k)"
    );
}

#[test]
fn test_goal_decomposer_extracts_subterms() {
    let x = Term::constant("x");
    let y = Term::constant("y");
    let zero = Term::constant("0");
    let one = Term::constant("1");

    let eq = Equality::new(
        Term::func(
            "+",
            vec![
                Term::func("+", vec![x.clone(), zero.clone()]),
                Term::func("*", vec![y.clone(), one.clone()]),
            ],
        ),
        Term::func("+", vec![y.clone(), x.clone()]),
    );

    let subterms = GoalDecomposer::extract_subterms(&eq.lhs);
    assert!(!subterms.is_empty());
    assert!(subterms.iter().any(|t| t.to_string().contains("+")));

    let subproblems = GoalDecomposer::generate_subproblems(&eq, 10);
    assert_eq!(subproblems.len(), 10);
}

#[test]
fn test_subterms_sorted_and_distinct() {
    let a = Term::constant("a");
    let t = Term::func("*", vec![Term::func("+", vec![a.clone(), a.clone()]), Term::func("+", vec![a.clone(), a.clone()])]);
    let subs = GoalDecomposer::extract_subterms(&t);
    let shown: Vec<String> = subs.iter().map(|s| s.to_string()).collect();
    assert_eq!(shown, vec!["((a + a) * (a + a))".to_string(), "(a + a)".to_string()]);
}

#[test]
fn test_subproblems_base_and_fill() {
    let eq = Equality::new(Term::func("+", vec![Term::constant("a"), Term::constant("0")]), Term::constant("a"));
    let base = GoalDecomposer::generate_subproblems(&eq, 0);
    assert!(base.is_empty());
    let all = GoalDecomposer::generate_subproblems(&eq, 7);
    assert_eq!(all.len(), 7);
    assert_eq!(all[0].to_string(), "((a + 0) + 0) = (a + 0)");
    assert_eq!(all[5].to_string(), "(a + 0) = a");
    assert_eq!(all[6].to_string(), "a = (a + 0)");
    let more = GoalDecomposer::generate_subproblems(&eq, 12);
    assert_eq!(more.len(), 12);
    for e in &more[7..] {
        let s = e.to_string();
        assert!(s.contains(" + 0) = ") || s.ends_with(" * 1)"));
    }
}

#[test]
fn test_inventions_by_domain() {
    let b = TheoryInventor::invent_for_domain(MathDomain::BooleanLogic, 0);
    assert_eq!(b.to_string(), "((p & q) | (p & !q)) = (p & 1)");
    let c = TheoryInventor::invent_for_domain(MathDomain::SymbolicCalculus, 5);
    assert_eq!(c.to_string(), "D((x * 1)) = (1 + 0)");
    let s = TheoryInventor::invent_for_domain(MathDomain::SetTheory, 2);
    assert_eq!(s.to_string(), "union(inter(C, U), inter(X, 0)) = C");
    let a = TheoryInventor::invent_algebraic_with(0, 0, 0, 0);
    assert_eq!(a.to_string(), "(((x + y) + -y) * (1 + 0)) = (0 + x)");
    let a2 = TheoryInventor::invent_algebraic_with(0, 1, 1, 1);
    assert_eq!(a2.to_string(), "(((y + z) + -z) * (1 + 0)) = (0 + y)");
    let r = TheoryInventor::invent_candidate_conjecture(0).to_string();
    assert!(r == "(((x + y) + -y) * (1 + 0)) = (0 + x)" || r == "(((y + y) + -y) * (1 + 0)) = (0 + y)"
        || r == "(((x + z) + -z) * (1 + 0)) = (0 + x)" || r == "(((y + z) + -z) * (1 + 0)) = (0 + y)");
    let u = TheoryInventor::invent_for_domain(MathDomain::Unified, 1);
    assert_eq!(u.to_string(), TheoryInventor::invent_for_domain(MathDomain::BooleanLogic, 1).to_string());
}

#[test]
fn test_induction_errors_and_plan() {
    let s = ProofState::new(Equality::new(Term::constant("a"), Term::constant("b")));
    let err = InductionEngine::apply_induction(&s, "n").unwrap_err();
    assert_eq!(err, "Variable 'n' does not occur in goal");
    let goal = Equality::new(Term::func("+", vec![Term::constant("n"), Term::constant("0")]), Term::constant("n"));
    let axioms = AxiomLibrary::standard_algebra();
    let plan = InductionEngine::plan_induction(&goal, "n", &axioms).unwrap();
    assert_eq!(plan.base_eq.to_string(), "(0 + 0) = 0");
    assert_eq!(plan.ih_eq.to_string(), "(k + 0) = k");
    assert_eq!(plan.step_eq.to_string(), "((k + 1) + 0) = (k + 1)");
    assert_eq!(plan.step_axioms.rules.len(), 21);
    assert_eq!(plan.step_axioms.rules[20].0, "ih");
    assert!(InductionEngine::plan_induction(&goal, "m", &axioms).is_err());
    let base_eq = plan.base_eq.clone();
    let r = InductionEngine::complete_induction(&goal, "n", plan, None, None);
    assert_eq!(r.unwrap_err(), "Induction Engine could not prove Base Case: (0 + 0) = 0");
    let plan = InductionEngine::plan_induction(&goal, "n", &axioms).unwrap();
    let mut base_proof = ProofState::new(base_eq);
    base_proof.proof_history.push((Tactic::RewriteLhs("add_zero".to_string()), "Rewrote LHS via [add_zero]: 0 = 0".to_string()));
    let step_proof = ProofState::new(plan.step_eq.clone());
    let proof = InductionEngine::complete_induction(&goal, "n", plan, Some(base_proof), Some(step_proof)).unwrap();
    let lean = proof.export_to_lean4();
    assert!(lean.contains("theorem peano_induction_theorem (n : Nat) : (n + 0) = n := by"));
    assert!(lean.contains("induction n with"));
    assert!(lean.contains("| zero =>\n    rw [Nat.add_zero]\n    try rfl\n"));
    assert!(lean.contains("| succ k ih =>\n    rfl\n"));
}

#[test]
fn test_default_target() {
    assert_eq!(default_target_conjecture().to_string(), "((x + 0) + (y * 1)) = ((1 * y) + (0 + x))");
}
