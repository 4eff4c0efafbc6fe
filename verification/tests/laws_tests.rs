use axiomatic::database::LemmaDatabase;
use axiomatic::decomposer::GoalDecomposer;
use axiomatic::eval::{eval_full_arithmetic, find_counterexample, find_polynomial_roots, ComplexRational, Rational};
use axiomatic::inventor::TheoryInventor;
use axiomatic::kernel::MathDomain;
use axiomatic::trace::TraceExporter;
use axiomatic::fol::{Equality, Term};
use axiomatic::kernel::{AxiomLibrary, FormalVerifier, ProofState, Tactic};
use axiomatic::parser::parse_conjecture;

fn step(s: &ProofState, t: Tactic, lib: &AxiomLibrary) -> ProofState {
    FormalVerifier::apply_tactic(s, &t, lib).unwrap()
}

#[test]
fn test_flip_twice_gives_back_the_equality() {
    let eq = parse_conjecture("(x + 1) = (y * 2)").unwrap();
    assert_eq!(eq.flip().flip(), eq);
    assert_eq!(eq.flip().to_string(), "(y * 2) = (x + 1)");
}

#[test]
fn test_replacing_an_absent_symbol_changes_nothing() {
    let t = Term::func("+", vec![Term::var("x"), Term::constant("1")]);
    assert_eq!(t.replace_variable("z", &Term::constant("5")), t);
    assert_eq!(t.replace_variable("x", &Term::constant("5")).to_string(), "(5 + 1)");
}

#[test]
fn test_check_solved_twice_changes_nothing() {
    let mut s = ProofState::new(Equality::new(Term::constant("a"), Term::constant("b")));
    s.open_goals.push(axiomatic::kernel::Goal { id: 2, equality: Equality::new(Term::constant("c"), Term::constant("c")) });
    assert!(!s.check_solved());
    assert_eq!(s.open_goals.len(), 1);
    assert_eq!(s.open_goals[0].id, 1);
    assert!(!s.check_solved());
    assert_eq!(s.open_goals.len(), 1);
    s.open_goals.clear();
    assert!(s.check_solved());
    assert!(s.is_solved);
}

#[test]
fn test_tactic_on_finished_proof_changes_nothing() {
    let lib = AxiomLibrary::standard_algebra();
    let s = step(&ProofState::new(Equality::new(Term::constant("a"), Term::constant("a"))), Tactic::Reflexivity, &lib);
    assert!(s.is_solved);
    let again = step(&s, Tactic::Symmetry, &lib);
    assert_eq!(again.proof_history.len(), s.proof_history.len());
    assert!(again.open_goals.is_empty());
}

#[test]
fn test_each_step_records_its_tactic() {
    let lib = AxiomLibrary::standard_algebra();
    let s0 = ProofState::new(parse_conjecture("(a + 0) = a").unwrap());
    let s1 = step(&s0, Tactic::Symmetry, &lib);
    assert_eq!(s1.proof_history.len(), 1);
    assert_eq!(s1.proof_history[0].0, Tactic::Symmetry);
    let s2 = step(&s1, Tactic::RewriteRhs("add_zero".to_string()), &lib);
    assert_eq!(s2.proof_history.len(), 2);
    assert_eq!(s2.proof_history[0].0, Tactic::Symmetry);
    assert_eq!(s2.proof_history[1].0, Tactic::RewriteRhs("add_zero".to_string()));
    assert!(s2.initial_equality.is_some());
    assert_eq!(s2.initial_equality, s0.initial_equality);
}

#[test]
fn test_symmetry_twice_restores_goals() {
    let lib = AxiomLibrary::standard_algebra();
    let s0 = ProofState::new(parse_conjecture("(a * b) = (b * a)").unwrap());
    let s2 = step(&step(&s0, Tactic::Symmetry, &lib), Tactic::Symmetry, &lib);
    assert_eq!(s2.open_goals.len(), 1);
    assert_eq!(s2.open_goals[0].equality, s0.open_goals[0].equality);
    assert_eq!(s2.proof_history.len(), 2);
    assert_eq!(s2.depth, 2);
}

#[test]
fn test_rational_operations_commute_and_normalise() {
    let a = Rational::new(1, 2).unwrap();
    let b = Rational::new(-2, 3).unwrap();
    assert_eq!(a.add(b), b.add(a));
    assert_eq!(a.mul(b), b.mul(a));
    assert_eq!(a.add(b), Rational::new(-1, 6));
    let r = Rational::new(6, -8).unwrap();
    assert_eq!((r.num, r.den), (-3, 4));
    assert_eq!(r.num * -8, 6 * r.den);
    assert_eq!(Rational::new(5, 0), None);
}

#[test]
fn test_subproblem_count_is_exact() {
    let target = parse_conjecture("(x + 0) = x").unwrap();
    for count in [0usize, 1, 3, 12, 40] {
        let subs = GoalDecomposer::generate_subproblems(&target, count);
        assert_eq!(subs.len(), count);
    }
}

#[test]
fn test_reported_roots_satisfy_the_equation() {
    let eq = parse_conjecture("((X * X) + 1) = 0").unwrap();
    let roots = find_polynomial_roots(&eq, "X", 3);
    assert_eq!(roots.len(), 2);
    for r in &roots {
        let l = eval_full_arithmetic(&eq.lhs.replace_variable("X", r));
        let rr = eval_full_arithmetic(&eq.rhs.replace_variable("X", r));
        assert_eq!(l, rr);
    }
}

#[test]
fn test_counterexample_binds_each_variable() {
    let eq = parse_conjecture("(x + y) = (x * y)").unwrap();
    let ce = find_counterexample(&eq).unwrap();
    let vars = eq.extract_variables();
    assert_eq!(ce.assignments.len(), vars.len());
    for (k, v) in vars.iter().enumerate() {
        assert_eq!(&ce.assignments[k].0, v);
    }
    assert_ne!(ce.lhs_val, ce.rhs_val);
}

#[test]
fn test_unified_library_names_are_distinct() {
    let lib = AxiomLibrary::unified_multidomain();
    for i in 0..lib.rules.len() {
        for j in (i + 1)..lib.rules.len() {
            assert_ne!(lib.rules[i].0, lib.rules[j].0);
        }
    }
    let algebra = AxiomLibrary::standard_algebra();
    for i in 0..algebra.rules.len() {
        assert_eq!(lib.rules[i].0, algebra.rules[i].0);
    }
}

#[test]
fn test_lookup_prefers_the_earlier_rule() {
    let mut lib = AxiomLibrary::empty();
    lib.add_rule("r", parse_conjecture("a = b").unwrap());
    lib.add_rule("r", parse_conjecture("a = c").unwrap());
    let s = ProofState::new(parse_conjecture("a = d").unwrap());
    let n = step(&s, Tactic::RewriteLhs("r".to_string()), &lib);
    assert_eq!(n.open_goals[0].equality.to_string(), "b = d");
}

#[test]
fn test_recorded_theorem_becomes_a_rule() {
    let mut db = LemmaDatabase::new();
    let thm = parse_conjecture("(q + q) = (2 * q)").unwrap();
    db.record_theorem("double", thm.clone(), ProofState::new(thm.clone()));
    let mut lib = AxiomLibrary::standard_algebra();
    db.augment_axioms(&mut lib);
    let s = ProofState::new(parse_conjecture("(q + q) = w").unwrap());
    let n = step(&s, Tactic::RewriteLhs("double".to_string()), &lib);
    assert_eq!(n.open_goals[0].equality.to_string(), "(2 * q) = w");
}

#[test]
fn test_pruning_keeps_a_proof_and_never_lengthens_it() {
    let lib = AxiomLibrary::standard_algebra();
    let init = parse_conjecture("(a + 0) = a").unwrap();
    let s0 = ProofState::new(init.clone());
    let s = step(&step(&step(&s0, Tactic::Symmetry, &lib), Tactic::Symmetry, &lib), Tactic::RewriteLhs("add_zero".to_string()), &lib);
    assert!(s.is_solved);
    let pruned = FormalVerifier::prune_proof_history(&init, &s.proof_history, &lib);
    assert!(pruned.len() <= s.proof_history.len());
    let mut replay = ProofState::new(init.clone());
    for (t, _) in &pruned {
        replay = step(&replay, t.clone(), &lib);
    }
    assert!(replay.is_solved);
}

#[test]
fn test_pruned_history_is_a_subsequence() {
    let lib = AxiomLibrary::standard_algebra();
    let init = parse_conjecture("(a + 0) = (0 + a)").unwrap();
    let s0 = ProofState::new(init.clone());
    let s1 = step(&s0, Tactic::Symmetry, &lib);
    let s2 = step(&s1, Tactic::Symmetry, &lib);
    let s3 = step(&s2, Tactic::RewriteLhs("add_zero".to_string()), &lib);
    let s4 = step(&s3, Tactic::RewriteRhs("zero_add".to_string()), &lib);
    assert!(s4.is_solved);
    let pruned = FormalVerifier::prune_proof_history(&init, &s4.proof_history, &lib);
    let mut k = 0;
    for entry in &s4.proof_history {
        if k < pruned.len() && pruned[k].0 == entry.0 && pruned[k].1 == entry.1 {
            k += 1;
        }
    }
    assert_eq!(k, pruned.len());
    assert_eq!(pruned.len(), 2);
}

#[test]
fn test_complex_terms_read_back() {
    let cases = [
        (Rational::new(3, 2).unwrap(), Rational::new(0, 1).unwrap()),
        (Rational::new(0, 1).unwrap(), Rational::new(1, 1).unwrap()),
        (Rational::new(0, 1).unwrap(), Rational::new(-1, 1).unwrap()),
        (Rational::new(-2, 3).unwrap(), Rational::new(5, 7).unwrap()),
        (Rational::new(4, 1).unwrap(), Rational::new(-3, 4).unwrap()),
        (Rational::new(-9, 1).unwrap(), Rational::new(0, 1).unwrap()),
    ];
    for (re, im) in cases {
        let c = ComplexRational::new(re, im);
        assert_eq!(ComplexRational::from_term(&c.to_term()), Some(c));
    }
    assert_eq!(ComplexRational::new(Rational::new(0, 1).unwrap(), Rational::new(1, 1).unwrap()).to_term(), Term::constant("i"));
    assert_eq!(
        ComplexRational::new(Rational::new(3, 2).unwrap(), Rational::new(0, 1).unwrap()).to_term(),
        Term::func("/", vec![Term::from_i64(3), Term::from_i64(2)])
    );
}

#[test]
fn test_invented_conjectures_at_the_largest_seeds() {
    let calc = TheoryInventor::invent_for_domain(MathDomain::SymbolicCalculus, usize::MAX);
    assert!(TheoryInventor::is_non_trivial(&calc));
    let alg = TheoryInventor::invent_candidate_conjecture(usize::MAX - 3);
    assert!(TheoryInventor::is_non_trivial(&alg));
    let b = TheoryInventor::invent_for_domain(MathDomain::BooleanLogic, usize::MAX - 2);
    assert!(TheoryInventor::is_non_trivial(&b));
    for seed in 0..48usize {
        for d in [MathDomain::AbstractAlgebra, MathDomain::BooleanLogic, MathDomain::SymbolicCalculus,
                  MathDomain::SetTheory, MathDomain::Unified, MathDomain::Probability] {
            assert!(TheoryInventor::is_non_trivial(&TheoryInventor::invent_for_domain(d, seed)));
        }
    }
}

#[test]
fn test_proof_path_runs_root_to_node() {
    let parents = vec![None, Some(0), Some(0), Some(1), Some(3)];
    assert_eq!(TraceExporter::proof_path(&parents, 4), vec![0, 1, 3, 4]);
    assert_eq!(TraceExporter::proof_path(&parents, 2), vec![0, 2]);
    assert_eq!(TraceExporter::proof_path(&parents, 0), vec![0]);
    assert_eq!(TraceExporter::proof_path(&parents, 9), vec![9]);
}

#[test]
fn test_unify_self_binds_nothing() {
    let t = Term::func("f", vec![Term::var("x"), Term::func("g", vec![Term::var("y")])]);
    let s = axiomatic::unify::unify(&t, &t).unwrap();
    assert_eq!(s.len(), 0);
    assert!(axiomatic::unify::unify(&Term::var("x"), &Term::func("f", vec![Term::var("x")])).is_none());
}

#[test]
fn test_closing_pair_leaves_other_goals_open() {
    let lib = AxiomLibrary::standard_algebra();
    let mut s = ProofState::new(parse_conjecture("(a + 0) = (0 + a)").unwrap());
    s.open_goals.push(axiomatic::kernel::Goal { id: 2, equality: parse_conjecture("b = c").unwrap() });
    let succ = FormalVerifier::expand_valid_transitions(&s, &lib);
    let (t, first) = &succ[0];
    assert_eq!(*t, Tactic::RewriteLhs("add_zero".to_string()));
    assert_eq!(first.open_goals.len(), 1);
    assert!(!first.is_solved);
    for (_, n) in &succ {
        assert_eq!(n.initial_equality, s.initial_equality);
        assert!(n.proof_history.len() > s.proof_history.len());
        assert!(!n.is_solved || n.open_goals.is_empty());
    }
    let single = ProofState::new(parse_conjecture("(a + 0) = (0 + a)").unwrap());
    let succ = FormalVerifier::expand_valid_transitions(&single, &lib);
    assert!(succ[0].1.is_solved);
    assert!(succ[0].1.open_goals.is_empty());
}
