use axiomatic::fol::{Equality, Term};
use axiomatic::induction::InductionEngine;
use axiomatic::kernel::{AxiomLibrary, FormalVerifier, ProofState};

/// A breadth-first proof search over the kernel's transitions, standing in for the tree search.
fn search(goal: &Equality, axioms: &AxiomLibrary, max_depth: usize) -> Option<ProofState> {
    let mut layer = vec![ProofState::new(goal.clone())];
    for _ in 0..max_depth {
        let mut next = Vec::new();
        for s in &layer {
            for (_, n) in FormalVerifier::expand_valid_transitions(s, axioms) {
                if n.is_solved {
                    return Some(n);
                }
                next.push(n);
            }
        }
        layer = next;
    }
    None
}

#[test]
fn test_induction_engine_synthesize_peano() {
    let n = Term::constant("n");
    let zero = Term::constant("0");
    let goal_eq = Equality::new(Term::func("+", vec![n.clone(), zero.clone()]), n.clone());
    let axioms = AxiomLibrary::standard_algebra();

    let plan = InductionEngine::plan_induction(&goal_eq, "n", &axioms).unwrap();
    let base = search(&plan.base_eq, &axioms, 3);
    let step = search(&plan.step_eq, &plan.step_axioms, 3);
    let Ok(ind_proof) = InductionEngine::complete_induction(&goal_eq, "n", plan, base, step) else {
        panic!("Induction synthesis should succeed");
    };

    assert!(ind_proof.base_case_proof.is_solved);
    assert!(ind_proof.inductive_step_proof.is_solved);

    let lean_code = ind_proof.export_to_lean4();
    assert!(lean_code.contains("induction n with"));
    assert!(lean_code.contains("| zero =>"));
    assert!(lean_code.contains("| succ k ih =>"));
}

#[test]
fn test_induction_plan_goals_and_failures() {
    let goal = Equality::new(Term::func("+", vec![Term::constant("n"), Term::constant("0")]), Term::constant("n"));
    let axioms = AxiomLibrary::standard_algebra();
    let plan = InductionEngine::plan_induction(&goal, "n", &axioms).unwrap();
    assert_eq!(plan.base_eq.to_string(), "(0 + 0) = 0");
    assert_eq!(plan.ih_eq.to_string(), "(k + 0) = k");
    assert_eq!(plan.step_eq.to_string(), "((k + 1) + 0) = (k + 1)");
    assert_eq!(plan.step_axioms.rules.len(), axioms.rules.len() + 1);
    assert_eq!(plan.step_axioms.rules.last().unwrap().0, "ih");
    let err = InductionEngine::plan_induction(&goal, "m", &axioms).unwrap_err();
    assert_eq!(err, "Variable 'm' does not occur in conjecture");
    let plan = InductionEngine::plan_induction(&goal, "n", &axioms).unwrap();
    let err = InductionEngine::complete_induction(&goal, "n", plan, None, None).unwrap_err();
    assert_eq!(err, "Induction Engine could not prove Base Case: (0 + 0) = 0");
}
