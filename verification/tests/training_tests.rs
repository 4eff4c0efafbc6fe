use axiomatic::curriculum::{CurriculumController, DifficultyLevel};
use axiomatic::fol::{Equality, Term};
use axiomatic::kernel::{AxiomLibrary, FormalVerifier, ProofState, Tactic};
use axiomatic::reward::state_ast_size;
use axiomatic::model::tactic_to_index;
use axiomatic::trainer::{generate_synthetic_algebra_conjecture, synthetic_conjecture_with};

#[test]
fn test_curriculum_graduation() {
    let mut curr = CurriculumController::new();
    assert_eq!(curr.current_level, DifficultyLevel::Level1Identities);

    for _ in 0..8 {
        curr.record_attempt(true);
    }

    assert_eq!(curr.current_level, DifficultyLevel::Level2CommutativeAssociative);
}

#[test]
fn test_curriculum_reports_promotion_on_eighth_attempt() {
    let mut curr = CurriculumController::default();
    for _ in 0..7 {
        assert_eq!(curr.record_attempt(true), None);
    }
    assert_eq!(curr.record_attempt(true), Some(DifficultyLevel::Level2CommutativeAssociative));
    assert_eq!(curr.window_attempts, 0);
    assert_eq!(curr.window_solved, 0);
    assert_eq!(curr.consecutive_successes, 8);
}

#[test]
fn test_curriculum_demotion_and_floor() {
    let mut curr = CurriculumController::new();
    curr.current_level = DifficultyLevel::Level3Distributivity;
    for _ in 0..8 {
        curr.record_attempt(false);
    }
    assert_eq!(curr.current_level, DifficultyLevel::Level2CommutativeAssociative);
    assert_eq!(curr.consecutive_successes, 0);
    let mut low = CurriculumController::new();
    let mut last = None;
    for _ in 0..8 {
        last = low.record_attempt(false);
    }
    assert_eq!(last, None);
    assert_eq!(low.current_level, DifficultyLevel::Level1Identities);
}

#[test]
fn test_curriculum_middle_rate_keeps_level() {
    // 4 of 8 solved is 50%: neither promotion (80%) nor demotion (below 30%).
    let mut curr = CurriculumController::new();
    curr.current_level = DifficultyLevel::Level4GroupInverses;
    for i in 0..8 {
        curr.record_attempt(i % 2 == 0);
    }
    assert_eq!(curr.current_level, DifficultyLevel::Level4GroupInverses);
    // At the hardest tier a fully solved window leaves the tier where it is.
    let mut top = CurriculumController::new();
    top.current_level = DifficultyLevel::Level5ComplexPolynomials;
    for _ in 0..8 {
        top.record_attempt(true);
    }
    assert_eq!(top.current_level, DifficultyLevel::Level5ComplexPolynomials);
}

#[test]
fn test_curriculum_threshold_boundaries() {
    // 7 of 8 is 87.5% (promotes at 80), 2 of 8 is 25% (demotes below 30), 3 of 8 is 37.5%.
    let mut c = CurriculumController::new();
    for i in 0..8 {
        c.record_attempt(i != 0);
    }
    assert_eq!(c.current_level, DifficultyLevel::Level2CommutativeAssociative);
    for i in 0..8 {
        c.record_attempt(i < 2);
    }
    assert_eq!(c.current_level, DifficultyLevel::Level1Identities);
    let mut d = CurriculumController::new();
    d.current_level = DifficultyLevel::Level3Distributivity;
    for i in 0..8 {
        d.record_attempt(i < 3);
    }
    assert_eq!(d.current_level, DifficultyLevel::Level3Distributivity);
}

#[test]
fn test_generate_conjecture_per_level() {
    let mut c = CurriculumController::new();
    assert_eq!(c.generate_conjecture(0).to_string(), "(x + 0) = (0 + x)");
    assert_eq!(c.generate_conjecture(2).to_string(), "(y + 0) = y");
    c.current_level = DifficultyLevel::Level2CommutativeAssociative;
    assert_eq!(c.generate_conjecture(4).to_string(), "(x + (y + z)) = ((z + y) + x)");
    c.current_level = DifficultyLevel::Level4GroupInverses;
    assert_eq!(c.generate_conjecture(1).to_string(), "(x + (y + -y)) = (x + 0)");
    c.current_level = DifficultyLevel::Level5ComplexPolynomials;
    assert_eq!(c.generate_conjecture(7).to_string(), "(((x + 0) * 1) + ((y + 0) * 1)) = (y + x)");
}

#[test]
fn test_synthetic_conjecture_shapes() {
    assert_eq!(synthetic_conjecture_with(0, 3, 4).to_string(), "(a + 0) = (0 + a)");
    assert_eq!(synthetic_conjecture_with(5, 1, 0).to_string(), "(y * 1) = (1 * y)");
    assert_eq!(synthetic_conjecture_with(2, 0, 2).to_string(), "((x + 0) + (z * 1)) = ((1 * z) + (0 + x))");
    assert_eq!(synthetic_conjecture_with(7, 4, 1).to_string(), "(b + y) = (y + b)");
}

#[test]
fn test_generate_synthetic_algebra_conjecture_draws_known_symbols() {
    for d in 0..8usize {
        let eq = generate_synthetic_algebra_conjecture(d);
        let mut found = false;
        for i1 in 0..5 {
            for i2 in 0..5 {
                if synthetic_conjecture_with(d, i1, i2) == eq {
                    found = true;
                }
            }
        }
        assert!(found);
    }
}

#[test]
fn test_tactic_to_index_slots() {
    let axioms = AxiomLibrary::standard_algebra();
    let pos = axioms.rules.iter().position(|(n, _)| n == "add_zero").unwrap();
    assert_eq!(tactic_to_index(&Tactic::Reflexivity, &axioms), 0);
    assert_eq!(tactic_to_index(&Tactic::Symmetry, &axioms), 1);
    assert_eq!(tactic_to_index(&Tactic::RewriteLhs("add_zero".to_string()), &axioms), 2 + pos % 12);
    assert_eq!(tactic_to_index(&Tactic::RewriteRhs("add_zero".to_string()), &axioms), 14 + pos % 12);
    assert_eq!(tactic_to_index(&Tactic::RewriteLhs("missing".to_string()), &axioms), 2);
    assert_eq!(tactic_to_index(&Tactic::Transitivity(Term::constant("a")), &axioms), 0);
    let mut lib = AxiomLibrary::empty();
    for k in 0..14 {
        lib.add_rule(&format!("r{}", k), Equality::new(Term::constant("a"), Term::constant("b")));
    }
    assert_eq!(tactic_to_index(&Tactic::RewriteLhs("r13".to_string()), &lib), 2 + 1);
    assert_eq!(tactic_to_index(&Tactic::RewriteRhs("r12".to_string()), &lib), 14);
}

#[test]
fn test_state_ast_size_counts_open_goals() {
    let s0 = ProofState::new(Equality::new(
        Term::func("+", vec![Term::var("x"), Term::constant("0")]),
        Term::var("x"),
    ));
    assert_eq!(state_ast_size(&s0), 4);
    let axioms = AxiomLibrary::standard_algebra();
    let s1 = FormalVerifier::apply_tactic(&s0, &Tactic::RewriteLhs("add_zero".to_string()), &axioms).unwrap();
    assert!(s1.is_solved);
    assert_eq!(state_ast_size(&s1), 0);
}
