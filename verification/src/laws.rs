//! Properties that hold across the operations of the library.
use vstd::prelude::*;
use crate::fol::{STerm, SEquality, rep, contains_sym};
use crate::eval::{
    eval_step, Rational, rat_add, rat_mul, rat_new, nat_gcd, spec_gcd, abs, lemma_nat_gcd_bound, ri, rat_sub,
    rat_div, rat_neg, rat_term, ComplexRational, cr_of, cr_term, im_term, cr_neg, cr_add, cr_mul,
    cr_div, cr_binop,
};
use crate::fol::{int_term, occurs};
use crate::unify::{rewrites, spec_unify, unify_fuel, UnifyOutcome, resolve, free, find, lemma_resolve_id, lemma_fuel_agree};
use crate::strings::{nat_digits, digits_value, all_digits, numeral_value, parse_i64_spec, digit_char};
use crate::kernel::{
    SProofState, SGoal, STactic, unsolved, checked, apply_spec, flip_eq, advance, replace_first,
    split_spec,
};
use crate::decomposer::{subproblems_ok, base_subproblems};
use crate::eval::{
    is_root_at, poly_roots, collect_roots, collect_rows, int_row, rat_row, cx_row, width, rat_cand,
    counterexample, first_ce, ce_at, SCounterexample, digits, spow, combo_values, bool_samples, bool_of, subst_all, num_samples,
};
use crate::fol::eq_vars;
use crate::kernel::{
    expand_spec, rewrite_desc, eval_desc, structural_steps, goal_moves, rewrite_moves, lhs_moves, rhs_moves, eval_moves,
    confluence_state, step_if_ok, last_is_symmetry, has_transpose, reducts, pair_idx,
    find_rule, has_rule, apply_opt, replay, proves, tactics_of, cancel_symm, symm_pair_from,
    lemma_symm_pair_range, drop_pass, pruned_history, initial_state,
};
use crate::axioms::{
    merge_rules, unified_rules, standard_algebra_rules, boolean_logic_rules, symbolic_calculus_rules,
    set_theory_rules, complex_numbers_rules, linear_algebra_rules, order_theory_rules,
    multivariable_calculus_rules, probability_rules,
};
use crate::database::{SVerifiedTheorem, theorem_rules};
use crate::inventor::{
    may_invent, non_trivial, invention_kind, algebraic_conjecture, boolean_conjecture,
    calculus_conjecture, set_conjecture, algebraic_shape, boolean_shape, calculus_shape, set_shape,
    alg_var, bool_var, set_var,
};
use crate::fol::symbol_set;
use crate::lean::{lean_int_name, lean_int_lemmas, lean_base_name, lean_nat_lemmas, lean_bool_lemmas, is_bool_eq};
use crate::parser::{SToken, PRes, p_add, p_call, p_arglist, is_tok};
use crate::axioms::sc;
use crate::graph::{MathGraphEdge, within};
use crate::curriculum::{CurriculumController, after_attempt, next_level, prev_level, window_size};

verus! {

/// Reading an equality right to left twice gives it back.
pub proof fn law_flip_involutive(e: SEquality)
    ensures flip_eq(flip_eq(e)) == e,
{
}

/// Replacing a symbol that does not occur in a term leaves the term as it is.
pub proof fn law_replace_absent_symbol(t: STerm, v: Seq<char>, r: STerm)
    requires !contains_sym(t, v),
    ensures rep(t, v, r) == t,
    decreases t,
{
    if let STerm::Func(f, args) = t {
        assert forall|i: int| 0 <= i < args.len() implies rep(args[i], v, r) == args[i] by {
            assert(!contains_sym(args[i], v));
            law_replace_absent_symbol(args[i], v, r);
        }
        assert(rep(t, v, r)->Func_1 =~= args);
    }
}

proof fn lemma_unsolved(goals: Seq<SGoal>)
    ensures
        unsolved(unsolved(goals)) == unsolved(goals),
        unsolved(goals).len() <= goals.len(),
        forall|i: int| 0 <= i < unsolved(goals).len() ==>
            #[trigger] unsolved(goals)[i].eq.lhs != unsolved(goals)[i].eq.rhs && goals.contains(unsolved(goals)[i]),
    decreases goals.len(),
{
    if goals.len() > 0 {
        let rest = unsolved(goals.drop_last());
        lemma_unsolved(goals.drop_last());
        assert forall|i: int| 0 <= i < rest.len() implies goals.contains(#[trigger] rest[i]) by {
            assert(rest[i].eq.lhs != rest[i].eq.rhs);
            assert(goals.drop_last().contains(rest[i]));
            let j = choose|j: int| 0 <= j < goals.drop_last().len() && goals.drop_last()[j] == rest[i];
            assert(goals[j] == goals.drop_last()[j]);
        }
        let g = goals.last();
        assert(goals[goals.len() - 1] == g);
        if g.eq.lhs != g.eq.rhs {
            let u = rest.push(g);
            assert(u.drop_last() =~= rest);
            assert(unsolved(u) == unsolved(rest).push(g));
        }
    }
}

/// Checking a state a second time changes nothing; a checked state is solved exactly when no
/// goal is left, and every goal it keeps is one of the goals it had, with two different sides.
pub proof fn law_check_solved(s: SProofState)
    ensures
        checked(checked(s)) == checked(s),
        checked(s).is_solved <==> checked(s).goals.len() == 0,
        checked(s).goals.len() <= s.goals.len(),
        forall|i: int| 0 <= i < checked(s).goals.len() ==>
            #[trigger] checked(s).goals[i].eq.lhs != checked(s).goals[i].eq.rhs && s.goals.contains(checked(s).goals[i]),
        checked(s).initial == s.initial,
        checked(s).history == s.history,
        checked(s).depth == s.depth,
{
    lemma_unsolved(s.goals);
    if s.goals.len() > 0 {
        lemma_unsolved(unsolved(s.goals));
    }
}

proof fn lemma_checked_keeps(s: SProofState)
    ensures
        checked(s).initial == s.initial,
        checked(s).history == s.history,
        checked(s).depth == s.depth,
{
}

/// A tactic applied to a proof with no goal left changes nothing.
pub proof fn law_finished_proof_is_fixed(s: SProofState, t: STactic, rules: Seq<(Seq<char>, SEquality)>)
    requires s.goals.len() == 0,
    ensures apply_spec(s, t, rules) == Ok::<SProofState, Seq<char>>(s),
{
}

/// Every step that applies to an open goal keeps the statement being proved and appends one
/// entry, recording the tactic, to the history, which it otherwise keeps.
pub proof fn law_step_records_tactic(s: SProofState, t: STactic, rules: Seq<(Seq<char>, SEquality)>)
    requires
        s.goals.len() > 0,
        apply_spec(s, t, rules) is Ok,
    ensures
        ({
            let n = apply_spec(s, t, rules)->Ok_0;
            &&& n.initial == s.initial
            &&& n.history.len() == s.history.len() + 1
            &&& n.history.drop_last() == s.history
            &&& n.history.last().0 == t
        }),
{
    let n = apply_spec(s, t, rules)->Ok_0;
    match t {
        STactic::ZeroProductSplit => {
            lemma_checked_keeps(advance(s, n.goals, n.history.last(), n.depth as int));
        },
        _ => {},
    }
    assert(n.history.drop_last() =~= s.history);
}

/// Two symmetry steps in a row give back the goals, the statement and the solved flag.
pub proof fn law_symmetry_twice(s: SProofState, rules: Seq<(Seq<char>, SEquality)>)
    requires s.goals.len() > 0,
    ensures
        apply_spec(s, STactic::Symmetry, rules) is Ok,
        apply_spec(apply_spec(s, STactic::Symmetry, rules)->Ok_0, STactic::Symmetry, rules) is Ok,
        ({
            let n = apply_spec(apply_spec(s, STactic::Symmetry, rules)->Ok_0, STactic::Symmetry, rules)->Ok_0;
            &&& n.goals == s.goals
            &&& n.initial == s.initial
            &&& n.is_solved == s.is_solved
            &&& n.history.len() == s.history.len() + 2
        }),
{
    let s1 = apply_spec(s, STactic::Symmetry, rules)->Ok_0;
    let n = apply_spec(s1, STactic::Symmetry, rules)->Ok_0;
    assert(s1.goals.drop_first() =~= s.goals.drop_first());
    assert(n.goals =~= s.goals);
}

/// Adding rationals does not depend on the order of the operands.
pub proof fn law_rational_add_commutes(a: Rational, b: Rational)
    ensures rat_add(a, b) == rat_add(b, a),
{
    assert(a.den * b.den == b.den * a.den) by (nonlinear_arith);
}

/// Multiplying rationals does not depend on the order of the operands.
pub proof fn law_rational_mul_commutes(a: Rational, b: Rational)
    ensures rat_mul(a, b) == rat_mul(b, a),
{
    assert(a.den * b.den == b.den * a.den) by (nonlinear_arith);
    assert(a.num * b.num == b.num * a.num) by (nonlinear_arith);
}

/// The decomposer hands back exactly as many subproblems as asked for, starting with the
/// subproblems it derives from the target.
pub proof fn law_subproblem_count(e: SEquality, count: int, r: Seq<SEquality>)
    requires count >= 0, subproblems_ok(e, count, r),
    ensures
        r.len() == count,
        ({
            let base = base_subproblems(e);
            let k = if base.len() < count { base.len() as int } else { count };
            r.take(k) == base.take(k)
        }),
{
}

proof fn lemma_collect_roots(roots: Seq<STerm>, eq: SEquality, var: Seq<char>, cands: Seq<Option<STerm>>, fresh: bool)
    requires forall|i: int| 0 <= i < roots.len() ==> is_root_at(eq, var, #[trigger] roots[i]),
    ensures
        forall|i: int| 0 <= i < collect_roots(roots, eq, var, cands, fresh).len() ==>
            is_root_at(eq, var, #[trigger] collect_roots(roots, eq, var, cands, fresh)[i]),
    decreases cands.len(),
{
    if cands.len() > 0 {
        lemma_collect_roots(roots, eq, var, cands.drop_last(), fresh);
        let prev = collect_roots(roots, eq, var, cands.drop_last(), fresh);
        let r = collect_roots(roots, eq, var, cands, fresh);
        assert forall|i: int| 0 <= i < r.len() implies is_root_at(eq, var, #[trigger] r[i]) by {
            if i < prev.len() {
                assert(r[i] == prev[i]);
            }
        }
    }
}

proof fn lemma_collect_rows(roots: Seq<STerm>, eq: SEquality, var: Seq<char>, rows: Seq<Seq<Option<STerm>>>, fresh: bool)
    requires forall|i: int| 0 <= i < roots.len() ==> is_root_at(eq, var, #[trigger] roots[i]),
    ensures
        forall|i: int| 0 <= i < collect_rows(roots, eq, var, rows, fresh).len() ==>
            is_root_at(eq, var, #[trigger] collect_rows(roots, eq, var, rows, fresh)[i]),
    decreases rows.len(),
{
    if rows.len() > 0 {
        lemma_collect_rows(roots, eq, var, rows.drop_last(), fresh);
        lemma_collect_roots(collect_rows(roots, eq, var, rows.drop_last(), fresh), eq, var, rows.last(), fresh);
    }
}

/// Every root the polynomial root search reports is one: substituted for the variable, it makes
/// the two sides evaluate to the same term.
pub proof fn law_reported_roots_are_roots(eq: SEquality, var: Seq<char>, range: int)
    ensures
        forall|i: int| 0 <= i < poly_roots(eq, var, range).len() ==>
            is_root_at(eq, var, #[trigger] poly_roots(eq, var, range)[i]),
{
    let r0 = Seq::<STerm>::empty();
    lemma_collect_roots(r0, eq, var, int_row(range), false);
    let r1 = collect_roots(r0, eq, var, int_row(range), false);
    lemma_collect_rows(r1, eq, var, seq![rat_row(range, 2), rat_row(range, 3), rat_row(range, 4)], true);
    let r2 = collect_rows(r1, eq, var, seq![rat_row(range, 2), rat_row(range, 3), rat_row(range, 4)], true);
    lemma_collect_rows(r2, eq, var, Seq::new(width(range), |i: int| cx_row(range, i - range)), true);
}

/// A counterexample assigns a value to each variable of the equality, in order.
pub open spec fn binds_vars(c: SCounterexample, vars: Seq<Seq<char>>) -> bool {
    &&& c.assignments.len() == vars.len()
    &&& forall|k: int| 0 <= k < vars.len() ==> #[trigger] c.assignments[k].0 == vars[k]
}

proof fn lemma_first_ce_binds(e: SEquality, vars: Seq<Seq<char>>, b: bool, c: nat, total: nat)
    requires first_ce(e, vars, b, c, total) is Some,
    ensures binds_vars(first_ce(e, vars, b, c, total)->Some_0, vars),
    decreases total - c,
{
    if c < total {
        if ce_at(e, vars, b, c) is None {
            lemma_first_ce_binds(e, vars, b, c + 1, total);
        }
    }
}

/// A counterexample found for an equality assigns a value to each of its variables, in the
/// order in which they are listed.
pub proof fn law_counterexample_binds_variables(e: SEquality)
    requires counterexample(e) is Some,
    ensures binds_vars(counterexample(e)->Some_0, eq_vars(e)),
{
    let vars = eq_vars(e);
    if vars.len() > 0 {
        if crate::lean::is_bool_eq(e) {
            lemma_first_ce_binds(e, vars, true, 0, crate::eval::spow(2, vars.len()));
        } else {
            lemma_first_ce_binds(e, vars, false, 0, crate::eval::spow(6, vars.len()));
        }
    }
}

/// No two rules share a name.
pub open spec fn distinct_names(rules: Seq<(Seq<char>, SEquality)>) -> bool {
    forall|i: int, j: int| 0 <= i < j < rules.len() ==> rules[i].0 != rules[j].0
}

/// Merging rule libraries keeps the first library as it is, in front; the names of the result
/// are those of either library; and it has no two rules of one name when the first had none.
pub proof fn law_merge_rules(lib: Seq<(Seq<char>, SEquality)>, more: Seq<(Seq<char>, SEquality)>)
    ensures
        merge_rules(lib, more).take(lib.len() as int) == lib,
        merge_rules(lib, more).len() >= lib.len(),
        forall|n: Seq<char>| has_rule(merge_rules(lib, more), n) <==> (has_rule(lib, n) || has_rule(more, n)),
        distinct_names(lib) ==> distinct_names(merge_rules(lib, more)),
    decreases more.len(),
{
    if more.len() > 0 {
        let m = more.drop_last();
        law_merge_rules(lib, m);
        let prev = merge_rules(lib, m);
        let x = more.last();
        assert(more[more.len() - 1] == x);
        assert forall|n: Seq<char>| has_rule(merge_rules(lib, more), n) <==> (has_rule(lib, n) || has_rule(more, n)) by {
            if has_rule(m, n) {
                let i = choose|i: int| 0 <= i < m.len() && #[trigger] m[i].0 == n;
                assert(more[i].0 == n);
            }
            if has_rule(more, n) {
                let i = choose|i: int| 0 <= i < more.len() && #[trigger] more[i].0 == n;
                if i < m.len() {
                    assert(m[i].0 == n);
                }
            }
            if !has_rule(prev, x.0) {
                let p2 = prev.push(x);
                if has_rule(p2, n) {
                    let i = choose|i: int| 0 <= i < p2.len() && #[trigger] p2[i].0 == n;
                    if i < prev.len() {
                        assert(prev[i].0 == n);
                    }
                }
                if has_rule(prev, n) {
                    let i = choose|i: int| 0 <= i < prev.len() && #[trigger] prev[i].0 == n;
                    assert(p2[i].0 == n);
                }
                assert(p2[prev.len() as int].0 == x.0);
            }
        }
        if !has_rule(prev, x.0) {
            let p2 = prev.push(x);
            assert(p2.take(lib.len() as int) =~= prev.take(lib.len() as int));
            if distinct_names(lib) {
                assert forall|i: int, j: int| 0 <= i < j < p2.len() implies p2[i].0 != p2[j].0 by {
                    if j == prev.len() {
                        assert(prev[i].0 == p2[i].0);
                    } else {
                        assert(prev[i].0 != prev[j].0);
                    }
                }
            }
        }
    }
}

proof fn lemma_find_rule_append(a: Seq<(Seq<char>, SEquality)>, b: Seq<(Seq<char>, SEquality)>, n: Seq<char>)
    ensures find_rule(a + b, n) == if has_rule(a, n) { find_rule(a, n) } else { find_rule(b, n) },
    decreases a.len(),
{
    if a.len() > 0 {
        assert((a + b).drop_first() =~= a.drop_first() + b);
        assert((a + b)[0] == a[0]);
        lemma_find_rule_append(a.drop_first(), b, n);
        if has_rule(a.drop_first(), n) {
            let i = choose|i: int| 0 <= i < a.drop_first().len() && #[trigger] a.drop_first()[i].0 == n;
            assert(a[i + 1].0 == n);
        }
        if a[0].0 != n && has_rule(a, n) {
            let i = choose|i: int| 0 <= i < a.len() && #[trigger] a[i].0 == n;
            assert(a.drop_first()[i - 1].0 == n);
        }
    } else {
        assert(a + b =~= b);
    }
}

/// Looking a rule up by name finds the first rule of that name: rules appended to a library
/// never shadow one it already has.
pub proof fn law_lookup_prefers_earlier(lib: Seq<(Seq<char>, SEquality)>, more: Seq<(Seq<char>, SEquality)>, n: Seq<char>)
    ensures
        has_rule(lib, n) ==> find_rule(lib + more, n) == find_rule(lib, n),
        !has_rule(lib, n) ==> find_rule(lib + more, n) == find_rule(more, n),
{
    lemma_find_rule_append(lib, more, n);
}

/// A theorem recorded in the knowledge base becomes, once the base augments a rule library,
/// a rewrite rule under its own name, unless a rule of that name was already there.
pub proof fn law_recorded_theorem_becomes_rule(lib: Seq<(Seq<char>, SEquality)>, db: Seq<SVerifiedTheorem>, thm: SVerifiedTheorem)
    requires !has_rule(lib + theorem_rules(db), thm.name),
    ensures find_rule(lib + theorem_rules(db.push(thm)), thm.name) == Some(thm.statement),
{
    let before = lib + theorem_rules(db);
    assert(lib + theorem_rules(db.push(thm)) =~= before + seq![(thm.name, thm.statement)]);
    lemma_find_rule_append(before, seq![(thm.name, thm.statement)], thm.name);
    let one = seq![(thm.name, thm.statement)];
    assert(one.drop_first() =~= Seq::<(Seq<char>, SEquality)>::empty());
    assert(one[0].0 == thm.name);
}

/// Two states that agree on everything but their history and depth.
pub open spec fn same_progress(a: SProofState, b: SProofState) -> bool {
    a.initial == b.initial && a.goals == b.goals && a.is_solved == b.is_solved
}

proof fn lemma_apply_congruent(a: SProofState, b: SProofState, t: STactic, rules: Seq<(Seq<char>, SEquality)>)
    requires same_progress(a, b),
    ensures
        apply_opt(a, t, rules) is Some <==> apply_opt(b, t, rules) is Some,
        apply_opt(a, t, rules) is Some ==> same_progress(apply_opt(a, t, rules)->Some_0, apply_opt(b, t, rules)->Some_0),
{
    reveal(apply_opt);
    if a.goals.len() > 0 {
        match t {
            STactic::ZeroProductSplit => {},
            STactic::Symmetry => {},
            STactic::Reflexivity => {},
            _ => {},
        }
    }
}

proof fn lemma_replay_congruent(a: SProofState, b: SProofState, ts: Seq<STactic>, rules: Seq<(Seq<char>, SEquality)>)
    requires same_progress(a, b),
    ensures
        replay(a, ts, rules) is Some <==> replay(b, ts, rules) is Some,
        replay(a, ts, rules) is Some ==> same_progress(replay(a, ts, rules)->Some_0, replay(b, ts, rules)->Some_0),
    decreases ts.len(),
{
    if ts.len() > 0 {
        lemma_apply_congruent(a, b, ts[0], rules);
        if apply_opt(a, ts[0], rules) is Some {
            lemma_replay_congruent(apply_opt(a, ts[0], rules)->Some_0, apply_opt(b, ts[0], rules)->Some_0, ts.drop_first(), rules);
        }
    }
}

proof fn lemma_replay_append(s: SProofState, x: Seq<STactic>, y: Seq<STactic>, rules: Seq<(Seq<char>, SEquality)>)
    ensures
        replay(s, x + y, rules) == match replay(s, x, rules) {
            Some(m) => replay(m, y, rules),
            None => None,
        },
    decreases x.len(),
{
    if x.len() == 0 {
        assert(x + y =~= y);
    } else {
        assert((x + y)[0] == x[0]);
        assert((x + y).drop_first() =~= x.drop_first() + y);
        match apply_opt(s, x[0], rules) {
            Some(n) => lemma_replay_append(n, x.drop_first(), y, rules),
            None => {},
        }
    }
}

proof fn lemma_two_symmetries(m: SProofState, rules: Seq<(Seq<char>, SEquality)>)
    ensures
        apply_opt(m, STactic::Symmetry, rules) is Some,
        apply_opt(apply_opt(m, STactic::Symmetry, rules)->Some_0, STactic::Symmetry, rules) is Some,
        same_progress(apply_opt(apply_opt(m, STactic::Symmetry, rules)->Some_0, STactic::Symmetry, rules)->Some_0, m),
{
    reveal(apply_opt);
    if m.goals.len() > 0 {
        law_symmetry_twice(m, rules);
    }
}

/// Removing a pair of consecutive symmetry steps leaves the outcome of a replay unchanged,
/// up to history and depth.
proof fn lemma_drop_symmetry_pair(s: SProofState, ts: Seq<STactic>, i: int, rules: Seq<(Seq<char>, SEquality)>)
    requires
        0 <= i,
        i + 1 < ts.len(),
        ts[i] is Symmetry,
        ts[i + 1] is Symmetry,
    ensures
        replay(s, ts, rules) is Some <==> replay(s, ts.take(i) + ts.skip(i + 2), rules) is Some,
        replay(s, ts, rules) is Some ==>
            same_progress(replay(s, ts, rules)->Some_0, replay(s, ts.take(i) + ts.skip(i + 2), rules)->Some_0),
{
    let a = ts.take(i);
    let b = ts.skip(i + 2);
    let two = seq![STactic::Symmetry, STactic::Symmetry];
    assert(ts =~= a + (two + b));
    lemma_replay_append(s, a, two + b, rules);
    lemma_replay_append(s, a, b, rules);
    if let Some(m) = replay(s, a, rules) {
        lemma_two_symmetries(m, rules);
        let m1 = apply_opt(m, STactic::Symmetry, rules)->Some_0;
        let m2 = apply_opt(m1, STactic::Symmetry, rules)->Some_0;
        assert((two + b)[0] == STactic::Symmetry);
        assert((two + b).drop_first() =~= seq![STactic::Symmetry] + b);
        assert((seq![STactic::Symmetry] + b)[0] == STactic::Symmetry);
        assert((seq![STactic::Symmetry] + b).drop_first() =~= b);
        assert(replay(m, two + b, rules) == replay(m1, seq![STactic::Symmetry] + b, rules));
        assert(replay(m1, seq![STactic::Symmetry] + b, rules) == replay(m2, b, rules));
        lemma_replay_congruent(m2, m, b, rules);
    }
}

proof fn lemma_symm_pair_found(h: Seq<(STactic, Seq<char>)>, j: int)
    requires symm_pair_from(h, j) >= 0,
    ensures
        h[symm_pair_from(h, j)].0 is Symmetry,
        h[symm_pair_from(h, j) + 1].0 is Symmetry,
    decreases h.len() - j,
{
    if !(j < 0 || j + 1 >= h.len()) && !(h[j].0 is Symmetry && h[j + 1].0 is Symmetry) {
        lemma_symm_pair_found(h, j + 1);
    }
}

/// Cancelling pairs of consecutive symmetry steps never makes a history longer, and it proves
/// the statement exactly when the history did.
pub proof fn law_cancel_symmetry_pairs(init: SEquality, h: Seq<(STactic, Seq<char>)>, rules: Seq<(Seq<char>, SEquality)>)
    ensures
        proves(init, cancel_symm(h), rules) == proves(init, h, rules),
        cancel_symm(h).len() <= h.len(),
    decreases h.len(),
{
    let i = symm_pair_from(h, 0);
    lemma_symm_pair_range(h, 0);
    if i >= 0 {
        let h2 = h.remove(i + 1).remove(i);
        lemma_symm_pair_found(h, 0);
        law_cancel_symmetry_pairs(init, h2, rules);
        let ts = tactics_of(h);
        assert(tactics_of(h2) =~= ts.take(i) + ts.skip(i + 2));
        assert(ts[i] == h[i].0 && ts[i + 1] == h[i + 1].0);
        lemma_drop_symmetry_pair(initial_state(init), ts, i, rules);
    }
}

proof fn lemma_drop_pass(init: SEquality, h: Seq<(STactic, Seq<char>)>, i: int, rules: Seq<(Seq<char>, SEquality)>)
    ensures
        proves(init, h, rules) ==> proves(init, drop_pass(init, h, i, rules), rules),
        drop_pass(init, h, i, rules).len() <= h.len(),
    decreases i,
{
    if 0 < i <= h.len() {
        let c = h.remove(i - 1);
        lemma_drop_pass(init, if proves(init, c, rules) { c } else { h }, i - 1, rules);
    }
}

/// `idx` lists, in increasing order, positions of `b` that hold the entries of `a` in turn.
pub open spec fn embeds<A>(a: Seq<A>, b: Seq<A>, idx: Seq<int>) -> bool {
    &&& idx.len() == a.len()
    &&& forall|i: int| 0 <= i < a.len() ==> 0 <= #[trigger] idx[i] < b.len() && a[i] == b[idx[i]]
    &&& forall|i: int, j: int| 0 <= i < j < a.len() ==> idx[i] < idx[j]
}

/// `a` is `b` with some entries left out, the others unchanged and in their order.
pub open spec fn is_subsequence<A>(a: Seq<A>, b: Seq<A>) -> bool {
    exists|idx: Seq<int>| embeds(a, b, idx)
}

proof fn lemma_embeds_refl<A>(a: Seq<A>) -> (idx: Seq<int>)
    ensures embeds(a, a, idx),
{
    Seq::new(a.len(), |k: int| k)
}

proof fn lemma_embeds_remove<A>(b: Seq<A>, i: int) -> (idx: Seq<int>)
    requires 0 <= i < b.len(),
    ensures embeds(b.remove(i), b, idx),
{
    Seq::new((b.len() - 1) as nat, |k: int| if k < i { k } else { k + 1 })
}

proof fn lemma_embeds_trans<A>(a: Seq<A>, b: Seq<A>, c: Seq<A>, f: Seq<int>, g: Seq<int>) -> (idx: Seq<int>)
    requires embeds(a, b, f), embeds(b, c, g),
    ensures embeds(a, c, idx),
{
    let idx = Seq::new(a.len(), |k: int| g[f[k]]);
    assert forall|i: int| 0 <= i < a.len() implies 0 <= #[trigger] idx[i] < c.len() && a[i] == c[idx[i]] by {
        assert(0 <= f[i] < b.len());
    }
    assert forall|i: int, j: int| 0 <= i < j < a.len() implies idx[i] < idx[j] by {
        assert(0 <= f[i] < b.len() && 0 <= f[j] < b.len() && f[i] < f[j]);
    }
    idx
}

proof fn lemma_cancel_symm_subsequence(h: Seq<(STactic, Seq<char>)>) -> (idx: Seq<int>)
    ensures embeds(cancel_symm(h), h, idx),
    decreases h.len(),
{
    let i = symm_pair_from(h, 0);
    lemma_symm_pair_range(h, 0);
    if i < 0 {
        lemma_embeds_refl(h)
    } else {
        let h1 = h.remove(i + 1);
        let h2 = h1.remove(i);
        let f = lemma_cancel_symm_subsequence(h2);
        let g1 = lemma_embeds_remove(h1, i);
        let g2 = lemma_embeds_remove(h, i + 1);
        let g = lemma_embeds_trans(h2, h1, h, g1, g2);
        lemma_embeds_trans(cancel_symm(h), h2, h, f, g)
    }
}

proof fn lemma_drop_pass_subsequence(init: SEquality, h: Seq<(STactic, Seq<char>)>, i: int, rules: Seq<(Seq<char>, SEquality)>) -> (idx: Seq<int>)
    ensures embeds(drop_pass(init, h, i, rules), h, idx),
    decreases i,
{
    if i <= 0 || i > h.len() {
        lemma_embeds_refl(h)
    } else {
        let c = h.remove(i - 1);
        if proves(init, c, rules) {
            let f = lemma_drop_pass_subsequence(init, c, i - 1, rules);
            let g = lemma_embeds_remove(h, i - 1);
            lemma_embeds_trans(drop_pass(init, c, i - 1, rules), c, h, f, g)
        } else {
            lemma_drop_pass_subsequence(init, h, i - 1, rules)
        }
    }
}

/// Pruning a proof only leaves steps out, keeping the others unchanged and in their order; it
/// never makes the proof longer, and what proved the statement still proves it.
pub proof fn law_pruning_keeps_proofs(init: SEquality, h: Seq<(STactic, Seq<char>)>, rules: Seq<(Seq<char>, SEquality)>)
    ensures
        is_subsequence(pruned_history(init, h, rules), h),
        pruned_history(init, h, rules).len() <= h.len(),
        proves(init, h, rules) ==> proves(init, pruned_history(init, h, rules), rules),
{
    law_cancel_symmetry_pairs(init, h, rules);
    let c = cancel_symm(h);
    lemma_drop_pass(init, c, c.len() as int, rules);
    let f = lemma_drop_pass_subsequence(init, c, c.len() as int, rules);
    let g = lemma_cancel_symm_subsequence(h);
    let idx = lemma_embeds_trans(pruned_history(init, h, rules), c, h, f, g);
    assert(embeds(pruned_history(init, h, rules), h, idx));
}

/// Euclid's algorithm gives a common divisor: the two cofactors.
proof fn lemma_gcd_divides(a: nat, b: nat) -> (k: (nat, nat))
    ensures
        a == k.0 * nat_gcd(a, b),
        b == k.1 * nat_gcd(a, b),
    decreases b,
{
    if b == 0 {
        assert(a == 1 * a) by (nonlinear_arith);
        assert(0 * a == 0) by (nonlinear_arith);
        (1, 0)
    } else {
        let g = nat_gcd(b, a % b);
        let (k1, k2) = lemma_gcd_divides(b, a % b);
        let q = a / b;
        assert(a == b * q + a % b) by {
            vstd::arithmetic::div_mod::lemma_fundamental_div_mod(a as int, b as int);
        }
        assert(a == (k1 * q + k2) * g) by (nonlinear_arith)
            requires a == b * q + a % b, b == k1 * g, a % b == k2 * g;
        (k1 * q + k2, k1)
    }
}

/// Scaling both arguments scales their greatest common divisor.
pub proof fn lemma_gcd_scale(k: nat, a: nat, b: nat)
    requires k > 0,
    ensures nat_gcd(k * a, k * b) == k * nat_gcd(a, b),
    decreases b,
{
    if b == 0 {
        assert(k * b == 0) by (nonlinear_arith) requires b == 0;
    } else {
        assert(k * b > 0) by (nonlinear_arith) requires k > 0, b > 0;
        vstd::arithmetic::div_mod::lemma_truncate_middle(a as int, k as int, b as int);
        assert(((k * a) as nat) % ((k * b) as nat) == k * (a % b));
        lemma_gcd_scale(k, b, a % b);
    }
}

/// `Rational::new` normalises a fraction: it refuses a zero denominator, and otherwise gives a
/// positive denominator, a numerator and denominator with no common factor, and the same
/// value `num / den`.
pub proof fn law_rational_normal_form(num: int, den: int)
    ensures
        den == 0 ==> rat_new(num, den) is None,
        rat_new(num, den) is Some ==> ({
            let r = rat_new(num, den)->Some_0;
            &&& r.den > 0
            &&& spec_gcd(r.num as int, r.den as int) == 1
            &&& r.num * den == num * r.den
        }),
{
    if rat_new(num, den) is Some {
        let g = nat_gcd(abs(num), abs(den));
        lemma_nat_gcd_bound(abs(num), abs(den));
        let (p, q) = lemma_gcd_divides(abs(num), abs(den));
        assert(g > 0);
        assert(spec_gcd(num, den) == g);
        assert(abs(num) / g == p) by {
            assert(abs(num) == g * p) by (nonlinear_arith) requires abs(num) == p * g;
            vstd::arithmetic::div_mod::lemma_div_multiples_vanish(p as int, g as int);
        }
        assert(abs(den) / g == q) by {
            assert(abs(den) == g * q) by (nonlinear_arith) requires abs(den) == q * g;
            vstd::arithmetic::div_mod::lemma_div_multiples_vanish(q as int, g as int);
        }
        assert(q > 0) by (nonlinear_arith) requires abs(den) == q * g, abs(den) > 0, g > 0;
        assert(p <= abs(num)) by (nonlinear_arith) requires abs(num) == p * g, g > 0;
        assert(q <= abs(den)) by (nonlinear_arith) requires abs(den) == q * g, g > 0;
        let r = rat_new(num, den)->Some_0;
        let s: int = if num < 0 { -p } else { p as int };
        assert(r.den == q);
        assert(r.num == if den < 0 { -s } else { s });
        assert(abs(r.num as int) == p);
        assert(abs(r.den as int) == q);
        lemma_gcd_scale(g, p, q);
        assert(g * p == abs(num) && g * q == abs(den)) by (nonlinear_arith)
            requires abs(num) == p * g, abs(den) == q * g;
        assert(nat_gcd(p, q) == 1) by (nonlinear_arith)
            requires g * nat_gcd(p, q) == g, g > 0;
        if num < 0 {
            if den < 0 {
                assert(p * den == num * q) by (nonlinear_arith) requires -num == p * g, -den == q * g;
            } else {
                assert(-p * den == num * q) by (nonlinear_arith) requires -num == p * g, den == q * g;
            }
        } else {
            if den < 0 {
                assert(-p * den == num * q) by (nonlinear_arith) requires num == p * g, -den == q * g;
            } else {
                assert(p * den == num * q) by (nonlinear_arith) requires num == p * g, den == q * g;
            }
        }
    }
}

/// The activated part of the graph contains its seeds and only grows as more hops are allowed.
pub proof fn law_activation_grows(edges: Seq<MathGraphEdge>, seeds: Set<usize>, k: nat)
    ensures
        seeds.subset_of(within(edges, seeds, k)),
        within(edges, seeds, k).subset_of(within(edges, seeds, k + 1)),
    decreases k,
{
    if k > 0 {
        law_activation_grows(edges, seeds, (k - 1) as nat);
    }
}

/// One attempt moves the curriculum at most one tier, up or down, reports the new tier exactly
/// when it moved, keeps the thresholds, and keeps the window of attempts shorter than the
/// size at which it is judged.
pub proof fn law_curriculum_moves_one_tier(c: CurriculumController, solved: bool)
    ensures
        ({
            let (n, moved) = after_attempt(c, solved);
            &&& n.current_level == c.current_level || n.current_level == next_level(c.current_level)
                || n.current_level == prev_level(c.current_level)
            &&& moved is Some <==> n.current_level != c.current_level
            &&& moved is Some ==> moved == Some(n.current_level)
            &&& n.graduation_threshold == c.graduation_threshold
            &&& n.demotion_threshold == c.demotion_threshold
            &&& c.window_attempts < window_size() ==> n.window_attempts < window_size()
        }),
{
}

proof fn lemma_names_not_numerals(n: Seq<char>)
    requires
        n == "x"@ || n == "y"@ || n == "z"@ || n == "a"@ || n == "b"@ || n == "c"@ || n == "u"@
            || n == "v"@ || n == "p"@ || n == "q"@ || n == "r"@ || n == "A"@ || n == "B"@
            || n == "C"@ || n == "X"@ || n == "Y"@ || n == "Z"@,
    ensures n != "0"@, n != "1"@,
{
    reveal_strlit("0");
    reveal_strlit("1");
    reveal_strlit("x");
    reveal_strlit("y");
    reveal_strlit("z");
    reveal_strlit("a");
    reveal_strlit("b");
    reveal_strlit("c");
    reveal_strlit("u");
    reveal_strlit("v");
    reveal_strlit("p");
    reveal_strlit("q");
    reveal_strlit("r");
    reveal_strlit("A");
    reveal_strlit("B");
    reveal_strlit("C");
    reveal_strlit("X");
    reveal_strlit("Y");
    reveal_strlit("Z");
    assert(n[0] != '0' && n[0] != '1');
}

proof fn lemma_ops_differ()
    ensures
        "+"@ != "*"@, "+"@ != "-"@, "*"@ != "-"@, "|"@ != "&"@, "|"@ != "!"@, "&"@ != "!"@,
        "D"@ != "+"@, "D"@ != "*"@, "union"@ != "inter"@, "comp"@ != "union"@, "comp"@ != "inter"@,
        "0"@ != "1"@, "U"@ != "0"@,
{
    reveal_strlit("+");
    reveal_strlit("*");
    reveal_strlit("-");
    reveal_strlit("|");
    reveal_strlit("&");
    reveal_strlit("!");
    reveal_strlit("D");
    reveal_strlit("union");
    reveal_strlit("inter");
    reveal_strlit("comp");
    reveal_strlit("0");
    reveal_strlit("1");
    reveal_strlit("U");
    assert("+"@[0] != "*"@[0]);
    assert("+"@[0] != "-"@[0]);
    assert("*"@[0] != "-"@[0]);
    assert("|"@[0] != "&"@[0]);
    assert("|"@[0] != "!"@[0]);
    assert("&"@[0] != "!"@[0]);
    assert("D"@[0] != "+"@[0]);
    assert("D"@[0] != "*"@[0]);
    assert("union"@[0] != "inter"@[0]);
    assert("comp"@[0] != "union"@[0]);
    assert("comp"@[0] != "inter"@[0]);
    assert("0"@[0] != "1"@[0]);
    assert("U"@[0] != "0"@[0]);
}

/// The subterm reached by taking the given argument positions in turn.
pub open spec fn follow(t: STerm, path: Seq<int>) -> STerm
    decreases path.len(),
{
    if path.len() == 0 {
        t
    } else {
        match t {
            STerm::Func(_, args) => if 0 <= path[0] < args.len() {
                follow(args[path[0]], path.drop_first())
            } else {
                t
            },
            _ => t,
        }
    }
}

proof fn lemma_follow_contains(t: STerm, path: Seq<int>, n: Seq<char>)
    requires follow(t, path) == STerm::Const(n),
    ensures crate::fol::contains_sym(t, n),
    decreases path.len(),
{
    if path.len() > 0 {
        if let STerm::Func(_, args) = t {
            if 0 <= path[0] < args.len() {
                lemma_follow_contains(args[path[0]], path.drop_first(), n);
                assert(crate::fol::contains_sym(args[path[0]], n));
            }
        }
    }
}

proof fn lemma_algebraic_non_trivial(k: int, n1: Seq<char>, n2: Seq<char>, n3: Seq<char>)
    requires
        0 <= k < 12,
        n1 != "0"@ && n1 != "1"@,
    ensures non_trivial(algebraic_shape(k, sc(n1), sc(n2), sc(n3))),
{
    lemma_ops_differ();
    reveal_with_fuel(follow, 6);
    let e = algebraic_shape(k, sc(n1), sc(n2), sc(n3));
    let path: Seq<int> = if k == 0 { seq![0,0,0] } else if k == 1 { seq![0,0,0] } else if k == 2 { seq![0,0,0,0] } else if k == 3 { seq![0,0] } else if k == 4 { seq![0,0] } else if k == 5 { seq![0,1,0] } else if k == 6 { seq![0,0,0] } else if k == 7 { seq![0,0] } else if k == 8 { seq![0,0] } else if k == 9 { seq![0,0] } else if k == 10 { seq![0,0,0] } else { seq![0,0,0] };
    assert(follow(e.lhs, path) == sc(n1));
    lemma_follow_contains(e.lhs, path, n1);
    assert(symbol_set(e.lhs).contains(n1));
}

proof fn lemma_boolean_non_trivial(k: int, n1: Seq<char>, n2: Seq<char>, n3: Seq<char>)
    requires
        0 <= k < 8,
        n1 != "0"@ && n1 != "1"@,
    ensures non_trivial(boolean_shape(k, sc(n1), sc(n2), sc(n3))),
{
    lemma_ops_differ();
    reveal_with_fuel(follow, 7);
    let e = boolean_shape(k, sc(n1), sc(n2), sc(n3));
    let path: Seq<int> = if k == 0 { seq![0,0] } else if k == 1 { seq![0,0,0,0,0] } else if k == 2 { seq![0,0] } else if k == 3 { seq![0,0,0] } else if k == 4 { seq![0,0,0] } else if k == 5 { seq![0] } else if k == 6 { seq![0,0,0,0,0] } else { seq![0] };
    assert(follow(e.lhs, path) == sc(n1));
    lemma_follow_contains(e.lhs, path, n1);
    assert(symbol_set(e.lhs).contains(n1));
}

proof fn lemma_set_non_trivial(k: int, n1: Seq<char>, n2: Seq<char>, n3: Seq<char>)
    requires
        0 <= k < 6,
        n1 != "0"@ && n1 != "1"@,
    ensures non_trivial(set_shape(k, sc(n1), sc(n2), sc(n3))),
{
    lemma_ops_differ();
    reveal_with_fuel(follow, 5);
    let e = set_shape(k, sc(n1), sc(n2), sc(n3));
    let path: Seq<int> = if k == 0 { seq![0,0] } else if k == 1 { seq![0,0,0] } else if k == 2 { seq![0,0] } else if k == 3 { seq![0] } else if k == 4 { seq![0,0] } else { seq![0,0,0] };
    assert(follow(e.lhs, path) == sc(n1));
    lemma_follow_contains(e.lhs, path, n1);
    assert(symbol_set(e.lhs).contains(n1));
}

proof fn lemma_calculus_non_trivial(k: int)
    requires 0 <= k < 6,
    ensures non_trivial(calculus_shape(k)),
{
    lemma_ops_differ();
    lemma_names_not_numerals("x"@);
    reveal_with_fuel(follow, 5);
    let e = calculus_shape(k);
    let path: Seq<int> = if k == 0 { seq![0,0,0] } else if k == 1 { seq![0,0,0] } else if k == 2 { seq![0,0,0] } else if k == 3 { seq![0,0,0] } else if k == 4 { seq![0,1,0] } else { seq![0,0] };
    assert(follow(e.lhs, path) == sc("x"@));
    lemma_follow_contains(e.lhs, path, "x"@);
    assert(symbol_set(e.lhs).contains("x"@));
}

/// Every conjecture the inventor may propose is worth proving: its sides differ, it mentions a
/// symbol other than 0 and 1, and its sides are not two leaves of one kind.
pub proof fn law_invented_conjectures_are_non_trivial(domain: crate::kernel::MathDomain, seed: int, e: SEquality)
    requires seed >= 0, may_invent(domain, seed, e),
    ensures non_trivial(e),
{
    let k = invention_kind(domain, seed);
    if k == 0 {
        let (o1, o2, o3) = choose|o1: int, o2: int, o3: int| 0 <= o1 < 2 && 0 <= o2 < 2 && 0 <= o3 < 2
            && #[trigger] algebraic_conjecture(seed, o1, o2, o3) == e;
        let i = (seed + o1) % 8;
        lemma_names_not_numerals(alg_var(i));
        lemma_algebraic_non_trivial(seed % 12, alg_var(i), alg_var((seed + 1 + o2) % 8), alg_var((seed + 2 + o3) % 8));
    } else if k == 1 {
        lemma_names_not_numerals(bool_var(seed % 8));
        lemma_boolean_non_trivial(seed % 8, bool_var(seed % 8), bool_var((seed + 1) % 8), bool_var((seed + 2) % 8));
    } else if k == 2 {
        lemma_calculus_non_trivial(seed % 6);
    } else {
        lemma_names_not_numerals(set_var(seed % 6));
        lemma_set_non_trivial(seed % 6, set_var(seed % 6), set_var((seed + 1) % 6), set_var((seed + 2) % 6));
    }
}

proof fn lemma_find_has(rules: Seq<(Seq<char>, SEquality)>, n: Seq<char>)
    ensures find_rule(rules, n) is Some <==> has_rule(rules, n),
    decreases rules.len(),
{
    if rules.len() > 0 {
        lemma_find_has(rules.drop_first(), n);
        if has_rule(rules.drop_first(), n) {
            let i = choose|i: int| 0 <= i < rules.drop_first().len() && #[trigger] rules.drop_first()[i].0 == n;
            assert(rules[i + 1].0 == n);
        }
        if has_rule(rules, n) && rules[0].0 != n {
            let i = choose|i: int| 0 <= i < rules.len() && #[trigger] rules[i].0 == n;
            assert(rules.drop_first()[i - 1].0 == n);
        }
    }
}

proof fn lemma_merge_lookup(lib: Seq<(Seq<char>, SEquality)>, more: Seq<(Seq<char>, SEquality)>, n: Seq<char>)
    ensures
        find_rule(merge_rules(lib, more), n) == if has_rule(lib, n) { find_rule(lib, n) } else { find_rule(more, n) },
    decreases more.len(),
{
    lemma_find_has(lib, n);
    if more.len() > 0 {
        let m = more.drop_last();
        let x = more.last();
        let prev = merge_rules(lib, m);
        let one = seq![x];
        lemma_merge_lookup(lib, m, n);
        law_merge_rules(lib, m);
        assert(m + one =~= more);
        lemma_find_rule_append(m, one, n);
        assert(one.drop_first() =~= Seq::<(Seq<char>, SEquality)>::empty());
        assert(one[0] == x);
        lemma_find_has(m, n);
        lemma_find_has(one, n);
        if x.0 == n {
            assert(has_rule(one, n));
        } else {
            assert(!has_rule(one, n));
        }
        assert(has_rule(prev, n) <==> (has_rule(lib, n) || has_rule(m, n)));
        assert(has_rule(prev, x.0) <==> (has_rule(lib, x.0) || has_rule(m, x.0)));
        if has_rule(prev, x.0) {
            assert(merge_rules(lib, more) == prev);
            if !has_rule(lib, n) && !has_rule(m, n) {
                assert(x.0 != n);
                assert(find_rule(m, n) is None);
                assert(find_rule(one, n) is None);
            }
        } else {
            assert(merge_rules(lib, more) == prev.push(x));
            lemma_find_rule_append(prev, one, n);
            assert(prev + one =~= prev.push(x));
        }
    }
}

/// The rule under `n` in the first library of the list that has one.
pub open spec fn first_definition(libs: Seq<Seq<(Seq<char>, SEquality)>>, n: Seq<char>) -> Option<SEquality>
    decreases libs.len(),
{
    if libs.len() == 0 {
        None
    } else if has_rule(libs[0], n) {
        find_rule(libs[0], n)
    } else {
        first_definition(libs.drop_first(), n)
    }
}

/// The domain libraries in the order the unified library takes them.
pub open spec fn domain_libraries() -> Seq<Seq<(Seq<char>, SEquality)>> {
    seq![
        standard_algebra_rules(), boolean_logic_rules(), symbolic_calculus_rules(), set_theory_rules(),
        complex_numbers_rules(), linear_algebra_rules(), order_theory_rules(),
        multivariable_calculus_rules(), probability_rules(),
    ]
}

/// Merging a list of libraries into `acc`, one after the other.
pub open spec fn merge_all(acc: Seq<(Seq<char>, SEquality)>, libs: Seq<Seq<(Seq<char>, SEquality)>>) -> Seq<(Seq<char>, SEquality)>
    decreases libs.len(),
{
    if libs.len() == 0 { acc } else { merge_all(merge_rules(acc, libs[0]), libs.drop_first()) }
}

proof fn lemma_merge_all(acc: Seq<(Seq<char>, SEquality)>, libs: Seq<Seq<(Seq<char>, SEquality)>>, n: Seq<char>)
    ensures
        merge_all(acc, libs).take(acc.len() as int) == acc,
        merge_all(acc, libs).len() >= acc.len(),
        find_rule(merge_all(acc, libs), n) == if has_rule(acc, n) { find_rule(acc, n) } else { first_definition(libs, n) },
        has_rule(merge_all(acc, libs), n) <==> (has_rule(acc, n) || exists|i: int| 0 <= i < libs.len() && has_rule(#[trigger] libs[i], n)),
        distinct_names(acc) ==> distinct_names(merge_all(acc, libs)),
    decreases libs.len(),
{
    lemma_find_has(acc, n);
    if libs.len() > 0 {
        let m = merge_rules(acc, libs[0]);
        law_merge_rules(acc, libs[0]);
        lemma_merge_lookup(acc, libs[0], n);
        lemma_merge_all(m, libs.drop_first(), n);
        let r = merge_all(m, libs.drop_first());
        assert(r.take(acc.len() as int) =~= r.take(m.len() as int).take(acc.len() as int));
        if exists|i: int| 0 <= i < libs.drop_first().len() && has_rule(#[trigger] libs.drop_first()[i], n) {
            let i = choose|i: int| 0 <= i < libs.drop_first().len() && has_rule(#[trigger] libs.drop_first()[i], n);
            assert(has_rule(libs[i + 1], n));
        }
        if exists|i: int| 0 <= i < libs.len() && has_rule(#[trigger] libs[i], n) {
            let i = choose|i: int| 0 <= i < libs.len() && has_rule(#[trigger] libs[i], n);
            if i > 0 {
                assert(libs.drop_first()[i - 1] == libs[i]);
            }
        }
        if !has_rule(acc, n) && has_rule(libs[0], n) {
            assert(has_rule(m, n));
        }
    }
}

/// The unified library starts with the algebra rules, has no two rules of one name, has a
/// rule under every name that any domain library uses, and under each name holds the rule of
/// the first domain library, in the unified order, that defines it.
pub proof fn law_unified_library(n: Seq<char>)
    ensures
        unified_rules().take(standard_algebra_rules().len() as int) == standard_algebra_rules(),
        has_rule(unified_rules(), n) <==> exists|i: int| 0 <= i < domain_libraries().len() && has_rule(#[trigger] domain_libraries()[i], n),
        find_rule(unified_rules(), n) == first_definition(domain_libraries(), n),
        distinct_names(unified_rules()),
{
    lemma_algebra_names_distinct();
    let libs = domain_libraries();
    let rest = libs.drop_first();
    let acc = standard_algebra_rules();
    assert(unified_rules() == merge_all(acc, rest)) by {
        reveal_with_fuel(merge_all, 9);
        assert(rest[0] == boolean_logic_rules());
        assert(rest.drop_first().drop_first().drop_first().drop_first().drop_first().drop_first().drop_first().drop_first().len() == 0);
    }
    lemma_merge_all(acc, rest, n);
    assert(libs[0] == acc);
    if has_rule(acc, n) {
        assert(has_rule(libs[0], n));
    }
    if exists|i: int| 0 <= i < rest.len() && has_rule(#[trigger] rest[i], n) {
        let i = choose|i: int| 0 <= i < rest.len() && has_rule(#[trigger] rest[i], n);
        assert(has_rule(libs[i + 1], n));
    }
    if exists|i: int| 0 <= i < libs.len() && has_rule(#[trigger] libs[i], n) {
        let i = choose|i: int| 0 <= i < libs.len() && has_rule(#[trigger] libs[i], n);
        if i > 0 {
            assert(rest[i - 1] == libs[i]);
        }
    }
}

/// No two algebra rules share a name.
proof fn lemma_algebra_names_distinct()
    ensures distinct_names(standard_algebra_rules()),
{
    reveal_strlit("add_zero");
    reveal_strlit("zero_add");
    reveal_strlit("add_comm");
    reveal_strlit("add_assoc");
    reveal_strlit("add_inv");
    reveal_strlit("mul_one");
    reveal_strlit("one_mul");
    reveal_strlit("mul_zero");
    reveal_strlit("mul_comm");
    reveal_strlit("mul_assoc");
    reveal_strlit("distrib_left");
    reveal_strlit("distrib_right");
    reveal_strlit("neg_neg");
    reveal_strlit("mul_neg_left");
    reveal_strlit("sub_self");
    reveal_strlit("diff_squares");
    reveal_strlit("factor_diff_squares");
    reveal_strlit("diff_cubes");
    reveal_strlit("factor_common_right");
    reveal_strlit("factor_common_left");
    let r = standard_algebra_rules();
    assert forall|i: int, j: int| 0 <= i < j < r.len() implies r[i].0 != r[j].0 by {
        let a = r[i].0;
        let b = r[j].0;
        assert(a.len() != b.len() || a[0] != b[0] || a[1] != b[1] || a[2] != b[2] || a[3] != b[3]
            || a[4] != b[4] || a[5] != b[5] || a[6] != b[6] || a[a.len() - 1] != b[b.len() - 1]
            || a[a.len() - 2] != b[b.len() - 2]);
    }
}

proof fn lemma_digit_char(d: nat)
    requires d < 10,
    ensures
        (digit_char(d) as int) - ('0' as int) == d,
        crate::strings::is_digit(digit_char(d)),
{
}

proof fn lemma_nat_digits(n: nat)
    ensures
        nat_digits(n).len() > 0,
        all_digits(nat_digits(n)),
        digits_value(nat_digits(n)) == n,
    decreases n,
{
    lemma_digit_char(n % 10);
    if n < 10 {
        assert(n % 10 == n);
        let s = nat_digits(n);
        assert(s.drop_last().len() == 0);
        assert(digits_value(s.drop_last()) == 0);
        assert(digits_value(s) == digits_value(s.drop_last()) * 10 + ((s.last() as int) - ('0' as int)));
    }
    if n >= 10 {
        lemma_nat_digits(n / 10);
        let p = nat_digits(n / 10);
        let s = nat_digits(n);
        assert(s.drop_last() =~= p);
        assert forall|i: int| 0 <= i < s.len() implies crate::strings::is_digit(#[trigger] s[i]) by {
            if i < p.len() {
                assert(s[i] == p[i]);
            }
        }
        assert(s.last() == digit_char(n % 10));
        assert(digits_value(s) == digits_value(p) * 10 + ((s.last() as int) - ('0' as int)));
        assert(n == (n / 10) * 10 + n % 10);
    }
}

/// A numeral reads back as the number it was written for.
proof fn lemma_numeral_reads_back(n: nat)
    requires n <= i64::MAX,
    ensures parse_i64_spec(nat_digits(n)) == Some(n as i64),
{
    lemma_nat_digits(n);
    let s = nat_digits(n);
    assert(crate::strings::is_digit(s[0]));
}

/// A rational as `Rational::new` leaves it: positive denominator, no common factor.
pub open spec fn reduced(r: Rational) -> bool {
    r.den > 0 && spec_gcd(r.num as int, r.den as int) == 1
}

/// A rational whose term can be read back without overflow: its numerator is not `i64::MIN`
/// (whose magnitude has no `i64`), and for a proper fraction the products `num·den` and
/// `den·den`, which reading the quotient back forms, stay within `i64`.
pub open spec fn readable(r: Rational) -> bool {
    &&& r.num != i64::MIN
    &&& r.den != 1 ==> -i64::MAX <= r.num * r.den <= i64::MAX && r.den * r.den <= i64::MAX
}

proof fn lemma_gcd_one(x: int)
    ensures spec_gcd(x, 1) == 1,
{
    assert(abs(x) % 1 == 0);
    assert(nat_gcd(abs(x), 1) == nat_gcd(1, 0));
}

proof fn lemma_gcd_zero(d: int)
    requires d > 0,
    ensures spec_gcd(0, d) == d,
{
    assert(0nat % (d as nat) == 0);
    assert(nat_gcd(0, d as nat) == nat_gcd(d as nat, 0));
}

proof fn lemma_rat_new_reduced(n: int, d: int)
    requires
        d > 0, d <= i64::MAX, -i64::MAX <= n <= i64::MAX,
        spec_gcd(n, d) == 1,
    ensures rat_new(n, d) == Some(Rational { num: n as i64, den: d as i64 }),
{
    assert(abs(n) / 1 == abs(n));
    assert(abs(d) / 1 == abs(d));
}

proof fn lemma_rat_new_zero(d: int)
    requires d > 0, d <= i64::MAX,
    ensures rat_new(0, d) == Some(ri(0)),
{
    lemma_gcd_zero(d);
    assert(0nat / (d as nat) == 0);
    assert((d as nat) / (d as nat) == 1);
}

#[verifier::spinoff_prover]
proof fn lemma_ri_mul(a: int, b: int)
    requires -i64::MAX <= a * b <= i64::MAX, -i64::MAX <= a <= i64::MAX, -i64::MAX <= b <= i64::MAX,
    ensures rat_mul(ri(a), ri(b)) == Some(ri(a * b)),
{
    assert(ri(a).num == a && ri(b).num == b);
    assert(ri(a).den == 1 && ri(b).den == 1);
    assert(1int * 1int == 1) by (nonlinear_arith);
    assert(ri(a).den * ri(b).den == 1);
    assert(ri(a).num * ri(b).num == a * b);
    lemma_gcd_one(a * b);
    lemma_rat_new_reduced(a * b, 1);
}

proof fn lemma_add_zero_right(r: Rational)
    requires reduced(r), -i64::MAX <= r.num <= i64::MAX, r.den <= i64::MAX,
    ensures rat_add(r, ri(0)) == Some(r), rat_add(ri(0), r) == Some(r),
{
    assert(ri(0).num == 0 && ri(0).den == 1);
    assert(r.num * 1 == r.num && 0 * r.den == 0 && r.den * 1 == r.den && 1 * r.den == r.den) by (nonlinear_arith);
    assert(r.num * ri(0).den == r.num && ri(0).num * r.den == 0 && r.den * ri(0).den == r.den);
    assert(ri(0).num * r.den == 0 && r.num * ri(0).den == r.num && ri(0).den * r.den == r.den);
    lemma_rat_new_reduced(r.num as int, r.den as int);
}

/// Dividing `p·q` by `q·q` gives back `p / q` when that fraction is reduced.
proof fn lemma_rat_new_scaled(p: int, q: int)
    requires
        q > 0, spec_gcd(p, q) == 1, -i64::MAX <= p <= i64::MAX, q <= i64::MAX,
        -i64::MAX <= p * q <= i64::MAX, q * q <= i64::MAX,
    ensures rat_new(p * q, q * q) == Some(Rational { num: p as i64, den: q as i64 }),
{
    let ap = abs(p);
    let qn = q as nat;
    assert(abs(p * q) == ap * qn) by (nonlinear_arith) requires ap == abs(p), qn == q, q > 0;
    assert(abs(q * q) == qn * qn) by (nonlinear_arith) requires qn == q, q > 0;
    lemma_gcd_scale(qn, ap, qn);
    assert(qn * ap == ap * qn) by (nonlinear_arith);
    lemma_nat_gcd_bound(ap, qn);
    assert(abs(q) == qn);
    assert(nat_gcd(ap, qn) == 1);
    assert(nat_gcd(ap * qn, qn * qn) == qn);
    assert(spec_gcd(p * q, q * q) == q);
    assert((ap * qn) / qn == ap) by {
        assert(ap * qn == qn * ap) by (nonlinear_arith);
        vstd::arithmetic::div_mod::lemma_div_multiples_vanish(ap as int, qn as int);
    }
    assert((qn * qn) / qn == qn) by {
        vstd::arithmetic::div_mod::lemma_div_multiples_vanish(qn as int, qn as int);
    }
    assert(p * q < 0 <==> p < 0) by (nonlinear_arith) requires q > 0;
    assert(q * q > 0) by (nonlinear_arith) requires q > 0;
}

proof fn lemma_more_ops_differ()
    ensures
        "/"@ != "+"@, "/"@ != "-"@, "/"@ != "*"@, "/"@ != "·"@, "*"@ != "+"@, "*"@ != "-"@,
        "+"@ != "-"@,
{
    reveal_strlit("/");
    reveal_strlit("+");
    reveal_strlit("-");
    reveal_strlit("*");
    reveal_strlit("·");
    assert("/"@[0] != "+"@[0]);
    assert("/"@[0] != "-"@[0]);
    assert("/"@[0] != "*"@[0]);
    assert("/"@[0] != "·"@[0]);
    assert("*"@[0] != "+"@[0]);
    assert("*"@[0] != "-"@[0]);
    assert("+"@[0] != "-"@[0]);
}

proof fn lemma_cr_of_int(n: int)
    requires -i64::MAX <= n <= i64::MAX,
    ensures cr_of(int_term(n)) == Some(ComplexRational { re: ri(n), im: ri(0) }),
{
    reveal_strlit("i");
    let m: nat = if n < 0 { (-n) as nat } else { n as nat };
    lemma_numeral_reads_back(m);
    lemma_nat_digits(m);
    let s = nat_digits(m);
    assert(crate::strings::is_digit(s[0]));
    assert(s != "i"@) by {
        if s == "i"@ {
            assert(s[0] == 'i');
        }
    }
    let c = STerm::Const(s);
    assert(cr_of(c) == Some(ComplexRational { re: ri(m as int), im: ri(0) }));
    if n < 0 {
        let t = int_term(n);
        assert(t == STerm::Func("-"@, seq![c]));
        assert(t->Func_1[0] == c);
        assert(cr_of(t) == cr_neg(ComplexRational { re: ri(m as int), im: ri(0) }));
    }
}

proof fn lemma_cr_of_rat(r: Rational)
    requires reduced(r), readable(r),
    ensures cr_of(rat_term(r)) == Some(ComplexRational { re: r, im: ri(0) }),
{
    lemma_cr_of_int(r.num as int);
    if r.den == 1 {
        assert(r == ri(r.num as int));
    } else {
        lemma_more_ops_differ();
        lemma_cr_of_int(r.den as int);
        let t = rat_term(r);
        let n = r.num as int;
        let d = r.den as int;
        let a = ComplexRational { re: ri(n), im: ri(0) };
        let b = ComplexRational { re: ri(d), im: ri(0) };
        assert(t->Func_1[0] == int_term(n) && t->Func_1[1] == int_term(d));
        assert(cr_of(t) == cr_binop("/"@, a, b));
        assert(0 < d * d) by (nonlinear_arith) requires 0 < d;
        assert(0 * 0 == 0 && n * 0 == 0 && 0 * d == 0) by (nonlinear_arith);
        lemma_ri_mul(d, d);
        lemma_ri_mul(0, 0);
        lemma_ri_mul(n, d);
        lemma_ri_mul(0, d);
        lemma_ri_mul(n, 0);
        lemma_gcd_one(d * d);
        lemma_gcd_one(n * d);
        lemma_gcd_one(0);
        lemma_add_zero_right(ri(d * d));
        lemma_add_zero_right(ri(n * d));
        lemma_rat_new_reduced(0, 1);
        assert(rat_sub(ri(0), ri(0)) == Some(ri(0)));
        lemma_rat_new_scaled(n, d);
        assert(n * d * 1 == n * d && 1 * (d * d) == d * d);
        assert(rat_div(ri(n * d), ri(d * d)) == Some(r));
        lemma_rat_new_zero(d * d);
        assert(rat_div(ri(0), ri(d * d)) == Some(ri(0)));
        assert(cr_div(a, b) == Some(ComplexRational { re: r, im: ri(0) }));
    }
}

#[verifier::spinoff_prover]
proof fn lemma_cr_of_im(im: Rational)
    requires reduced(im), readable(im), im.num != 0,
    ensures cr_of(im_term(im)) == Some(ComplexRational { re: ri(0), im }),
{
    reveal_strlit("i");
    lemma_more_ops_differ();
    let i_t = STerm::Const("i"@);
    assert(cr_of(i_t) == Some(ComplexRational { re: ri(0), im: ri(1) }));
    if im == ri(1) {
    } else if im == ri(-1) {
        let t = im_term(im);
        assert(t->Func_1[0] == i_t);
    } else {
        let t = im_term(im);
        lemma_cr_of_rat(im);
        assert(t->Func_1[0] == rat_term(im) && t->Func_1[1] == i_t);
        let a = ComplexRational { re: im, im: ri(0) };
        let b = ComplexRational { re: ri(0), im: ri(1) };
        assert(cr_of(t) == cr_binop("*"@, a, b));
        assert(im.num * 0 == 0 && im.den * 1 == im.den && im.num * 1 == im.num) by (nonlinear_arith);
        lemma_rat_new_zero(im.den as int);
        lemma_gcd_one(0);
        lemma_rat_new_reduced(0, 1);
        assert(rat_mul(im, ri(0)) == Some(ri(0)));
        assert(0int * 1int == 0 && 0int * 0int == 0) by (nonlinear_arith);
        lemma_ri_mul(0, 1);
        lemma_ri_mul(0, 0);
        assert(rat_mul(ri(0), ri(1)) == Some(ri(0)));
        assert(rat_sub(ri(0), ri(0)) == Some(ri(0)));
        lemma_rat_new_reduced(im.num as int, im.den as int);
        assert(rat_mul(im, ri(1)) == Some(im));
        assert(rat_mul(ri(0), ri(0)) == Some(ri(0)));
        lemma_add_zero_right(im);
        assert(cr_mul(a, b) == Some(ComplexRational { re: ri(0), im }));
    }
}

/// The term of a Gaussian rational reads back as that number, when both parts are reduced
/// fractions and reading them back does not overflow `i64`.
pub proof fn law_complex_term_round_trip(c: ComplexRational)
    requires reduced(c.re), reduced(c.im), readable(c.re), readable(c.im),
    ensures cr_of(cr_term(c)) == Some(c),
{
    lemma_more_ops_differ();
    if c.im.num == 0 {
        lemma_gcd_zero(c.im.den as int);
        assert(c.im == ri(0));
        lemma_cr_of_rat(c.re);
    } else if c.re.num == 0 {
        lemma_gcd_zero(c.re.den as int);
        assert(c.re == ri(0));
        lemma_cr_of_im(c.im);
    } else {
        lemma_cr_of_rat(c.re);
        lemma_cr_of_im(c.im);
        let t = cr_term(c);
        assert(t->Func_1[0] == rat_term(c.re) && t->Func_1[1] == im_term(c.im));
        let a = ComplexRational { re: c.re, im: ri(0) };
        let b = ComplexRational { re: ri(0), im: c.im };
        assert(cr_of(t) == cr_binop("+"@, a, b));
        lemma_add_zero_right(c.re);
        lemma_add_zero_right(c.im);
        assert(cr_add(a, b) == Some(c));
    }
}

proof fn lemma_empty_free(t: STerm)
    ensures free(Seq::<(Seq<char>, STerm)>::empty(), t), resolve(Seq::<(Seq<char>, STerm)>::empty(), t) == t,
{
    let e = Seq::<(Seq<char>, STerm)>::empty();
    assert forall|v: Seq<char>| #[trigger] occurs(t, v) implies find(e, v) < 0 by {
        assert(crate::unify::find_from(e, v, 0) == -1);
    }
    lemma_resolve_id(e, t, 0);
}

/// A term unifies with itself, and the unifier binds nothing.
pub proof fn law_unify_self(t: STerm)
    ensures spec_unify(t, t) == Some(Seq::<(Seq<char>, STerm)>::empty()),
{
    let e = Seq::<(Seq<char>, STerm)>::empty();
    lemma_empty_free(t);
    assert(unify_fuel(t, t, e, 1) == UnifyOutcome::Done(e));
    let f = choose|f: nat| unify_fuel(t, t, e, f) != UnifyOutcome::OutOfFuel;
    lemma_fuel_agree(t, t, e, f, 1);
}

/// The occurs check: a variable does not unify with a different term that contains it.
pub proof fn law_unify_occurs_check(v: Seq<char>, t: STerm)
    requires occurs(t, v), t != STerm::Var(v),
    ensures spec_unify(STerm::Var(v), t) is None,
{
    let e = Seq::<(Seq<char>, STerm)>::empty();
    let x = STerm::Var(v);
    lemma_empty_free(t);
    lemma_empty_free(x);
    assert(unify_fuel(x, t, e, 1) == UnifyOutcome::Fail);
    if exists|f: nat| unify_fuel(x, t, e, f) != UnifyOutcome::OutOfFuel {
        let f = choose|f: nat| unify_fuel(x, t, e, f) != UnifyOutcome::OutOfFuel;
        lemma_fuel_agree(x, t, e, f, 1);
    }
}

/// A successor that keeps the statement, extends the history, and is solved only with no goal
/// left.
pub open spec fn valid_successor(s: SProofState, n: SProofState) -> bool {
    &&& n.initial == s.initial
    &&& n.history.len() > s.history.len()
    &&& n.history.take(s.history.len() as int) == s.history
    &&& n.is_solved ==> n.goals.len() == 0
}

pub open spec fn all_valid(s: SProofState, v: Seq<(STactic, SProofState)>) -> bool {
    forall|k: int| 0 <= k < v.len() ==> valid_successor(s, (#[trigger] v[k]).1)
        && !(v[k].0 is Symmetry) && !(v[k].0 is TransposeToZero)
}

proof fn lemma_replace_first_valid(s: SProofState, ne: SEquality, e: (STactic, Seq<char>))
    requires s.goals.len() > 0,
    ensures valid_successor(s, replace_first(s, ne, e)),
{
    let n = replace_first(s, ne, e);
    law_check_solved(advance(s, seq![SGoal { id: s.goals[0].id, eq: ne }] + s.goals.drop_first(), e, s.depth + 1));
    assert(n.history == s.history.push(e));
    assert(n.history.take(s.history.len() as int) =~= s.history);
}

proof fn lemma_rewrite_moves_valid(s: SProofState, rules: Seq<(Seq<char>, SEquality)>)
    requires s.goals.len() > 0,
    ensures all_valid(s, rewrite_moves(s, rules)),
    decreases rules.len(),
{
    if rules.len() > 0 {
        let last = rules.last();
        lemma_rewrite_moves_valid(s, rules.drop_last());
        let a = rewrite_moves(s, rules.drop_last());
        let b = lhs_moves(s, last.0, last.1);
        let c = rhs_moves(s, last.0, last.1);
        let g = s.goals[0];
        assert forall|k: int| 0 <= k < b.len() implies valid_successor(s, (#[trigger] b[k]).1)
            && !(b[k].0 is Symmetry) && !(b[k].0 is TransposeToZero) by {
            let t = rewrites(g.eq.lhs, last.1)[k];
            let ne = SEquality { lhs: t, rhs: g.eq.rhs };
            lemma_replace_first_valid(s, ne, (STactic::RewriteLhs(last.0), rewrite_desc("LHS"@, last.0, ne)));
        }
        assert forall|k: int| 0 <= k < c.len() implies valid_successor(s, (#[trigger] c[k]).1)
            && !(c[k].0 is Symmetry) && !(c[k].0 is TransposeToZero) by {
            let t = rewrites(g.eq.rhs, last.1)[k];
            let ne = SEquality { lhs: g.eq.lhs, rhs: t };
            lemma_replace_first_valid(s, ne, (STactic::RewriteRhs(last.0), rewrite_desc("RHS"@, last.0, ne)));
        }
        let all = a + b + c;
        assert forall|k: int| 0 <= k < all.len() implies valid_successor(s, (#[trigger] all[k]).1)
            && !(all[k].0 is Symmetry) && !(all[k].0 is TransposeToZero) by {
            if k < a.len() {
                assert(all[k] == a[k]);
            } else if k < a.len() + b.len() {
                assert(all[k] == b[k - a.len()]);
            } else {
                assert(all[k] == c[k - a.len() - b.len()]);
            }
        }
    }
}

proof fn lemma_eval_moves_valid(s: SProofState)
    requires s.goals.len() > 0,
    ensures all_valid(s, eval_moves(s)),
{
    let g = s.goals[0];
    let l = eval_step(g.eq.lhs).map_values(|t: STerm| {
        let ne = SEquality { lhs: t, rhs: g.eq.rhs };
        (STactic::EvalArithmeticLhs, replace_first(s, ne, (STactic::EvalArithmeticLhs, eval_desc("LHS"@, ne))))
    });
    let r = eval_step(g.eq.rhs).map_values(|t: STerm| {
        let ne = SEquality { lhs: g.eq.lhs, rhs: t };
        (STactic::EvalArithmeticRhs, replace_first(s, ne, (STactic::EvalArithmeticRhs, eval_desc("RHS"@, ne))))
    });
    assert(eval_moves(s) == l + r);
    assert forall|k: int| 0 <= k < l.len() implies valid_successor(s, (#[trigger] l[k]).1)
        && !(l[k].0 is Symmetry) && !(l[k].0 is TransposeToZero) by {
        let ne = SEquality { lhs: eval_step(g.eq.lhs)[k], rhs: g.eq.rhs };
        lemma_replace_first_valid(s, ne, (STactic::EvalArithmeticLhs, eval_desc("LHS"@, ne)));
    }
    assert forall|k: int| 0 <= k < r.len() implies valid_successor(s, (#[trigger] r[k]).1)
        && !(r[k].0 is Symmetry) && !(r[k].0 is TransposeToZero) by {
        let ne = SEquality { lhs: g.eq.lhs, rhs: eval_step(g.eq.rhs)[k] };
        lemma_replace_first_valid(s, ne, (STactic::EvalArithmeticRhs, eval_desc("RHS"@, ne)));
    }
    let all = l + r;
    assert forall|k: int| 0 <= k < all.len() implies valid_successor(s, (#[trigger] all[k]).1)
        && !(all[k].0 is Symmetry) && !(all[k].0 is TransposeToZero) by {
        if k < l.len() {
            assert(all[k] == l[k]);
        } else {
            assert(all[k] == r[k - l.len()]);
        }
    }
}

/// Every successor that the kernel generates for an unsolved proof keeps the statement,
/// extends the history by at least one step, and is marked solved only when no goal is left;
/// symmetry never follows symmetry, and a proof that has transposed to zero does not
/// transpose again.
#[verifier::rlimit(60)]
#[verifier::spinoff_prover]
pub proof fn law_successors_are_valid(s: SProofState, rules: Seq<(Seq<char>, SEquality)>)
    requires s.goals.len() > 0, !s.is_solved,
    ensures
        forall|k: int| 0 <= k < expand_spec(s, rules).len() ==> {
            let (t, n) = #[trigger] expand_spec(s, rules)[k];
            &&& valid_successor(s, n)
            &&& last_is_symmetry(s.history) ==> !(t is Symmetry)
            &&& has_transpose(s.history) ==> !(t is TransposeToZero)
        },
{
    let g = s.goals[0];
    let pre = structural_steps(s, rules);
    // The structural steps.
    let a = if g.eq.rhs != crate::kernel::zero_term() && !has_transpose(s.history) {
        step_if_ok(STactic::TransposeToZero, apply_spec(s, STactic::TransposeToZero, rules))
    } else {
        Seq::empty()
    };
    let b = if g.eq.rhs == crate::kernel::zero_term() && crate::kernel::is_product(g.eq.lhs) {
        step_if_ok(STactic::ZeroProductSplit, apply_spec(s, STactic::ZeroProductSplit, rules))
    } else {
        Seq::empty()
    };
    assert(pre == a + b);
    if a.len() > 0 {
        let ne = SEquality { lhs: STerm::Func("-"@, seq![g.eq.lhs, g.eq.rhs]), rhs: crate::kernel::zero_term() };
        lemma_replace_first_valid(s, ne, (STactic::TransposeToZero, "Transposed equation to zero: "@ + crate::fol::display_eq(ne)));
    }
    if b.len() > 0 {
        let x = g.eq.lhs->Func_1[0];
        let y = g.eq.lhs->Func_1[1];
        let ga = SGoal { id: g.id, eq: SEquality { lhs: x, rhs: crate::kernel::zero_term() } };
        let gb = SGoal { id: (g.id + 1000) as usize, eq: SEquality { lhs: y, rhs: crate::kernel::zero_term() } };
        let adv = advance(s, seq![ga] + s.goals.drop_first() + seq![gb], (STactic::ZeroProductSplit, crate::kernel::split_desc(x, y)), s.depth + 1);
        law_check_solved(adv);
        assert(adv.history.take(s.history.len() as int) =~= s.history);
    }
    let moves = expand_spec(s, rules);
    match apply_spec(s, STactic::Reflexivity, rules) {
        Ok(ns) => {
            let adv = advance(s, s.goals.drop_first(), (STactic::Reflexivity, crate::kernel::refl_desc(g)), s.depth as int);
            law_check_solved(adv);
            assert(adv.history.take(s.history.len() as int) =~= s.history);
            assert(moves == pre.push((STactic::Reflexivity, ns)));
            assert forall|k: int| 0 <= k < moves.len() implies {
                let (t, n) = #[trigger] moves[k];
                &&& valid_successor(s, n)
                &&& last_is_symmetry(s.history) ==> !(t is Symmetry)
                &&& has_transpose(s.history) ==> !(t is TransposeToZero)
            } by {
                if k < a.len() {
                    assert(moves[k] == a[k]);
                } else if k < a.len() + b.len() {
                    assert(moves[k] == b[k - a.len()]);
                }
            }
        },
        Err(_) => {
            let sym = if !last_is_symmetry(s.history) {
                step_if_ok(STactic::Symmetry, apply_spec(s, STactic::Symmetry, rules))
            } else {
                Seq::empty()
            };
            let with_sym = pre + sym;
            if sym.len() > 0 {
                let f = flip_eq(g.eq);
                let n = sym[0].1;
                assert(n.history == s.history.push((STactic::Symmetry, "Applied symm: "@ + crate::fol::display_eq(f))));
                assert(n.history.take(s.history.len() as int) =~= s.history);
            }
            let l = reducts(rules, g.eq.lhs);
            let r = reducts(rules, g.eq.rhs);
            lemma_rewrite_moves_valid(s, rules);
            lemma_eval_moves_valid(s);
            let rest = match pair_idx(l, r) {
                Some(p) => Seq::empty(),
                None => rewrite_moves(s, rules) + eval_moves(s),
            };
            match pair_idx(l, r) {
                Some(p) => {
                    let c = confluence_state(s, l[p.0].0, l[p.0].1, r[p.1].0);
                    assert(c.history.take(s.history.len() as int) =~= s.history);
                    assert(moves == seq![(STactic::RewriteLhs(l[p.0].0), c)] + with_sym);
                    assert forall|k: int| 0 <= k < moves.len() implies {
                        let (t, n) = #[trigger] moves[k];
                        &&& valid_successor(s, n)
                        &&& last_is_symmetry(s.history) ==> !(t is Symmetry)
                        &&& has_transpose(s.history) ==> !(t is TransposeToZero)
                    } by {
                        if k >= 1 {
                            let j = k - 1;
                            assert(moves[k] == with_sym[j]);
                            if j < a.len() {
                                assert(with_sym[j] == a[j]);
                            } else if j < a.len() + b.len() {
                                assert(with_sym[j] == b[j - a.len()]);
                            } else {
                                assert(with_sym[j] == sym[j - a.len() - b.len()]);
                            }
                        }
                    }
                },
                None => {
                    let rw = rewrite_moves(s, rules);
                    let ev = eval_moves(s);
                    assert(moves == with_sym + rw + ev);
                    assert forall|k: int| 0 <= k < moves.len() implies {
                        let (t, n) = #[trigger] moves[k];
                        &&& valid_successor(s, n)
                        &&& last_is_symmetry(s.history) ==> !(t is Symmetry)
                        &&& has_transpose(s.history) ==> !(t is TransposeToZero)
                    } by {
                        if k < a.len() {
                            assert(moves[k] == a[k]);
                        } else if k < a.len() + b.len() {
                            assert(moves[k] == b[k - a.len()]);
                        } else if k < with_sym.len() {
                            assert(moves[k] == sym[k - a.len() - b.len()]);
                        } else if k < with_sym.len() + rw.len() {
                            assert(moves[k] == rw[k - with_sym.len()]);
                        } else {
                            assert(moves[k] == ev[k - with_sym.len() - rw.len()]);
                        }
                    }
                },
            }
        },
    }
}

/// The algebra rules for which Lean 4's core library has no `Int` lemma of the same statement.
pub open spec fn lacks_int_lemma(n: Seq<char>) -> bool {
    n == "add_inv"@ || n == "mul_neg_left"@ || n == "diff_squares"@ || n == "factor_diff_squares"@
        || n == "diff_cubes"@ || n == "factor_common_right"@ || n == "factor_common_left"@
}

/// In a proof over the integers, each algebra rule is exported as the Lean lemma that states
/// the rule's own equation (left distributivity as `Int.mul_add`, right as `Int.add_mul`).
pub proof fn law_int_lemma_states_the_rule(k: int)
    requires
        0 <= k < standard_algebra_rules().len(),
        !lacks_int_lemma(standard_algebra_rules()[k].0),
    ensures
        lean_int_lemmas().contains((lean_int_name(standard_algebra_rules()[k].0), standard_algebra_rules()[k].1)),
{
    lemma_algebra_names_distinct();
    reveal_strlit("zero_mul");
    reveal_strlit("mul_comm");
    reveal_strlit("sub_self");
    let r = standard_algebra_rules();
    let l = lean_int_lemmas();
    let n = r[k].0;
    assert(r[0].0 == "add_zero"@ && r[1].0 == "zero_add"@ && r[2].0 == "add_comm"@ && r[3].0 == "add_assoc"@);
    assert(r[5].0 == "mul_one"@ && r[6].0 == "one_mul"@ && r[7].0 == "mul_zero"@ && r[8].0 == "mul_comm"@);
    assert(r[9].0 == "mul_assoc"@ && r[10].0 == "distrib_left"@ && r[11].0 == "distrib_right"@);
    assert(r[12].0 == "neg_neg"@ && r[14].0 == "sub_self"@);
    assert(r[4].0 == "add_inv"@ && r[13].0 == "mul_neg_left"@ && r[15].0 == "diff_squares"@);
    assert(r[16].0 == "factor_diff_squares"@ && r[17].0 == "diff_cubes"@);
    assert(r[18].0 == "factor_common_right"@ && r[19].0 == "factor_common_left"@);
    if k == 8 || k == 14 {
        assert(n[0] != "zero_mul"@[0]);
    }
    if 9 <= k <= 12 {
        reveal_strlit("mul_assoc");
        reveal_strlit("distrib_left");
        reveal_strlit("distrib_right");
        reveal_strlit("neg_neg");
        assert(n.len() != "zero_mul"@.len());
    }
    if k == 0 {
        assert(l[0] == (lean_int_name(r[0].0), r[0].1));
    } else if k == 1 {
        assert(l[1] == (lean_int_name(r[1].0), r[1].1));
    } else if k == 2 {
        assert(l[2] == (lean_int_name(r[2].0), r[2].1));
    } else if k == 3 {
        assert(l[3] == (lean_int_name(r[3].0), r[3].1));
    } else if k == 5 {
        assert(l[4] == (lean_int_name(r[5].0), r[5].1));
    } else if k == 6 {
        assert(l[5] == (lean_int_name(r[6].0), r[6].1));
    } else if k == 7 {
        assert(l[6] == (lean_int_name(r[7].0), r[7].1));
    } else if k == 8 {
        assert(l[8] == (lean_int_name(r[8].0), r[8].1));
    } else if k == 9 {
        assert(l[9] == (lean_int_name(r[9].0), r[9].1));
    } else if k == 10 {
        assert(l[10] == (lean_int_name(r[10].0), r[10].1));
    } else if k == 11 {
        assert(l[11] == (lean_int_name(r[11].0), r[11].1));
    } else if k == 12 {
        assert(l[12] == (lean_int_name(r[12].0), r[12].1));
    } else if k == 14 {
        assert(l[13] == (lean_int_name(r[14].0), r[14].1));
    }
}

/// In a proof over the naturals, each algebra rule that Lean states on `Nat` is exported as the
/// lemma that states the rule's own equation (left distributivity as `Nat.left_distrib`).
pub proof fn law_nat_lemma_states_the_rule(k: int)
    requires
        0 <= k < standard_algebra_rules().len(),
        !lacks_int_lemma(standard_algebra_rules()[k].0),
        standard_algebra_rules()[k].0 != "neg_neg"@,
        standard_algebra_rules()[k].0 != "sub_self"@,
    ensures
        lean_nat_lemmas().contains((lean_base_name(standard_algebra_rules()[k].0), standard_algebra_rules()[k].1)),
{
    lemma_algebra_names_distinct();
    reveal_strlit("zero_mul");
    reveal_strlit("mul_comm");
    reveal_strlit("sub_self");
    let r = standard_algebra_rules();
    let l = lean_nat_lemmas();
    let n = r[k].0;
    assert(r[0].0 == "add_zero"@ && r[1].0 == "zero_add"@ && r[2].0 == "add_comm"@ && r[3].0 == "add_assoc"@);
    assert(r[5].0 == "mul_one"@ && r[6].0 == "one_mul"@ && r[7].0 == "mul_zero"@ && r[8].0 == "mul_comm"@);
    assert(r[9].0 == "mul_assoc"@ && r[10].0 == "distrib_left"@ && r[11].0 == "distrib_right"@);
    assert(r[12].0 == "neg_neg"@ && r[14].0 == "sub_self"@);
    assert(r[4].0 == "add_inv"@ && r[13].0 == "mul_neg_left"@ && r[15].0 == "diff_squares"@);
    assert(r[16].0 == "factor_diff_squares"@ && r[17].0 == "diff_cubes"@);
    assert(r[18].0 == "factor_common_right"@ && r[19].0 == "factor_common_left"@);
    if k == 8 || k == 14 {
        assert(n[0] != "zero_mul"@[0]);
    }
    if 9 <= k <= 12 {
        reveal_strlit("mul_assoc");
        reveal_strlit("distrib_left");
        reveal_strlit("distrib_right");
        reveal_strlit("neg_neg");
        assert(n.len() != "zero_mul"@.len());
    }
    if k == 0 {
        assert(l[0] == (lean_base_name(r[0].0), r[0].1));
    } else if k == 1 {
        assert(l[1] == (lean_base_name(r[1].0), r[1].1));
    } else if k == 2 {
        assert(l[2] == (lean_base_name(r[2].0), r[2].1));
    } else if k == 3 {
        assert(l[3] == (lean_base_name(r[3].0), r[3].1));
    } else if k == 5 {
        assert(l[4] == (lean_base_name(r[5].0), r[5].1));
    } else if k == 6 {
        assert(l[5] == (lean_base_name(r[6].0), r[6].1));
    } else if k == 7 {
        assert(l[6] == (lean_base_name(r[7].0), r[7].1));
    } else if k == 8 {
        assert(l[8] == (lean_base_name(r[8].0), r[8].1));
    } else if k == 9 {
        assert(l[9] == (lean_base_name(r[9].0), r[9].1));
    } else if k == 10 {
        assert(l[10] == (lean_base_name(r[10].0), r[10].1));
    } else if k == 11 {
        assert(l[11] == (lean_base_name(r[11].0), r[11].1));
    }
}

/// Where the arguments of a call stand in the tokens: the i-th argument is the additive
/// expression read from `starts[i]` to `ends[i]`; a comma follows every argument but the last,
/// and the ')' that closes the call follows the last, ending at `q`.
pub open spec fn arg_layout(t: Seq<SToken>, pos: int, args: Seq<STerm>, q: int, starts: Seq<int>, ends: Seq<int>) -> bool {
    &&& args.len() >= 1 && starts.len() == args.len() && ends.len() == args.len()
    &&& starts[0] == pos
    &&& forall|i: int| 0 <= i < args.len() ==> p_add(t, #[trigger] starts[i]) == PRes::Ok((args[i], ends[i]))
    &&& forall|i: int| 0 <= i < args.len() - 1 ==> is_tok(t, #[trigger] ends[i], SToken::Comma) && starts[i + 1] == ends[i] + 1
    &&& is_tok(t, ends[args.len() - 1], SToken::RParen) && q == ends[args.len() - 1] + 1
}

proof fn lemma_arglist_layout(t: Seq<SToken>, pos: int, acc: Seq<STerm>, name: Seq<char>) -> (w: (Seq<int>, Seq<int>))
    requires
        0 <= pos <= t.len(),
        p_arglist(t, pos, acc, name) is Ok,
    ensures
        match p_arglist(t, pos, acc, name) {
            Ok((STerm::Func(n, args), q)) => n == name && args.len() > acc.len() && args.take(acc.len() as int) == acc
                && arg_layout(t, pos, args.skip(acc.len() as int), q, w.0, w.1),
            _ => false,
        },
    decreases t.len() - pos,
{
    let (e, p) = p_add(t, pos)->Ok_0;
    if is_tok(t, p, SToken::Comma) {
        let w1 = lemma_arglist_layout(t, p + 1, acc.push(e), name);
        let (r, q) = p_arglist(t, pos, acc, name)->Ok_0;
        let args = r->Func_1;
        let n = acc.len() as int;
        assert(args.take(n + 1)[n] == e);
        assert(args.take(n) =~= args.take(n + 1).take(n));
        let rest = args.skip(n);
        assert(rest.skip(1) =~= args.skip(n + 1));
        let starts = seq![pos] + w1.0;
        let ends = seq![p] + w1.1;
        assert(starts[0] == pos);
        assert forall|i: int| 0 <= i < rest.len() implies p_add(t, #[trigger] starts[i]) == PRes::Ok((rest[i], ends[i])) by {
            if i > 0 {
                assert(starts[i] == w1.0[i - 1] && ends[i] == w1.1[i - 1] && rest[i] == args.skip(n + 1)[i - 1]);
            }
        }
        assert forall|i: int| 0 <= i < rest.len() - 1 implies is_tok(t, #[trigger] ends[i], SToken::Comma) && starts[i + 1] == ends[i] + 1 by {
            if i > 0 {
                assert(ends[i] == w1.1[i - 1] && starts[i + 1] == w1.0[i]);
            } else {
                assert(starts[1] == w1.0[0]);
            }
        }
        assert(ends[rest.len() - 1] == w1.1[w1.1.len() - 1]);
        (starts, ends)
    } else {
        let (r, q) = p_arglist(t, pos, acc, name)->Ok_0;
        let args = r->Func_1;
        assert(args =~= acc.push(e));
        assert(args.take(acc.len() as int) =~= acc);
        assert(args.skip(acc.len() as int) =~= seq![e]);
        (seq![pos], seq![p])
    }
}

/// A call keeps its arguments in the order they are written: `name(e1, ..., en)` reads as
/// `name` applied to `[t1, ..., tn]`, where `ti` is the additive expression parsed from `ei`,
/// `e1` starting where the list starts and each next one after the comma that ends the one before.
pub proof fn law_call_arguments_in_order(t: Seq<SToken>, pos: int, name: Seq<char>)
    requires
        0 <= pos <= t.len(),
        p_call(t, pos, name) is Ok,
        !is_tok(t, pos, SToken::RParen),
    ensures
        match p_call(t, pos, name) {
            Ok((STerm::Func(n, args), q)) => n == name
                && exists|starts: Seq<int>, ends: Seq<int>| arg_layout(t, pos, args, q, starts, ends),
            _ => false,
        },
{
    let w = lemma_arglist_layout(t, pos, Seq::empty(), name);
    let (r, q) = p_call(t, pos, name)->Ok_0;
    assert(r->Func_1.skip(0) =~= r->Func_1);
    assert(arg_layout(t, pos, r->Func_1, q, w.0, w.1));
}

/// The number whose digits in base `base`, least significant first, are `ds`.
pub open spec fn from_digits(ds: Seq<nat>, base: nat) -> nat
    decreases ds.len(),
{
    if ds.len() == 0 { 0 } else { ds[0] + base * from_digits(ds.drop_first(), base) }
}

proof fn lemma_digits_round_trip(ds: Seq<nat>, base: nat)
    requires
        base >= 1,
        forall|k: int| 0 <= k < ds.len() ==> #[trigger] ds[k] < base,
    ensures
        digits(from_digits(ds, base), base, ds.len()) == ds,
        from_digits(ds, base) < spow(base, ds.len()),
    decreases ds.len(),
{
    if ds.len() > 0 {
        let rest = ds.drop_first();
        assert forall|k: int| 0 <= k < rest.len() implies #[trigger] rest[k] < base by {
            assert(rest[k] == ds[k + 1]);
        }
        lemma_digits_round_trip(rest, base);
        let c = from_digits(ds, base);
        let r = from_digits(rest, base);
        let d = ds[0];
        assert(c == d + base * r);
        vstd::arithmetic::div_mod::lemma_fundamental_div_mod_converse(c as int, base as int, r as int, d as int);
        assert(digits(c, base, ds.len()) == seq![d].add(digits(r, base, rest.len())));
        assert(digits(c, base, ds.len()) =~= ds);
        let pw = spow(base, rest.len());
        assert(spow(base, ds.len()) == base * pw);
        assert(d + base * r < base * pw) by (nonlinear_arith) requires d < base, r < pw, base >= 1;
    }
}

proof fn lemma_first_ce_finds(e: SEquality, vars: Seq<Seq<char>>, b: bool, s: nat, c: nat, total: nat)
    requires
        s <= c < total,
        ce_at(e, vars, b, c) is Some,
    ensures first_ce(e, vars, b, s, total) is Some,
    decreases c - s,
{
    if s < c && ce_at(e, vars, b, s) is None {
        lemma_first_ce_finds(e, vars, b, s + 1, c, total);
    }
}

proof fn lemma_bool_ce_at(e: SEquality, vars: Seq<Seq<char>>, c: nat)
    requires
        bool_of(subst_all(e.lhs, vars, combo_values(c, true, vars.len()))) is Some,
        bool_of(subst_all(e.rhs, vars, combo_values(c, true, vars.len()))) is Some,
        bool_of(subst_all(e.lhs, vars, combo_values(c, true, vars.len())))
            != bool_of(subst_all(e.rhs, vars, combo_values(c, true, vars.len()))),
    ensures ce_at(e, vars, true, c) is Some,
{
}

/// The combination whose digits pick, among 0 and 1, the given values.
proof fn lemma_bool_combo(vals: Seq<STerm>) -> (c: nat)
    requires forall|k: int| 0 <= k < vals.len() ==> bool_samples().contains(#[trigger] vals[k]),
    ensures
        combo_values(c, true, vals.len()) == vals,
        c < spow(2, vals.len()),
{
    reveal_strlit("0");
    reveal_strlit("1");
    let n = vals.len();
    let samples = bool_samples();
    let zero = STerm::Const("0"@);
    let ds = Seq::new(n, |k: int| if vals[k] == zero { 0nat } else { 1nat });
    assert forall|k: int| 0 <= k < ds.len() implies #[trigger] ds[k] < 2 by {}
    lemma_digits_round_trip(ds, 2);
    let c = from_digits(ds, 2);
    assert(samples.len() == 2);
    assert forall|k: int| 0 <= k < n implies #[trigger] combo_values(c, true, n)[k] == vals[k] by {
        assert(samples.contains(vals[k]));
        assert(vals[k] == samples[0] || vals[k] == samples[1]);
    }
    assert(combo_values(c, true, n) =~= vals);
    c
}

/// The counterexample search is complete on boolean equalities of at most five variables: when
/// some assignment of 0 and 1 to the variables makes the two sides evaluate to different truth
/// values, a counterexample is found.
pub proof fn law_boolean_refutation_complete(e: SEquality, vals: Seq<STerm>)
    requires
        is_bool_eq(e),
        eq_vars(e).len() <= 5,
        vals.len() == eq_vars(e).len(),
        forall|k: int| 0 <= k < vals.len() ==> bool_samples().contains(#[trigger] vals[k]),
        bool_of(subst_all(e.lhs, eq_vars(e), vals)) is Some,
        bool_of(subst_all(e.rhs, eq_vars(e), vals)) is Some,
        bool_of(subst_all(e.lhs, eq_vars(e), vals)) != bool_of(subst_all(e.rhs, eq_vars(e), vals)),
    ensures
        counterexample(e) is Some,
{
    let vars = eq_vars(e);
    let n = vars.len();
    if n > 0 {
        let c = lemma_bool_combo(vals);
        lemma_bool_ce_at(e, vars, c);
        lemma_first_ce_finds(e, vars, true, 0, c, spow(2, n));
    }
}

proof fn lemma_collect_roots_keeps(roots: Seq<STerm>, eq: SEquality, var: Seq<char>, cands: Seq<Option<STerm>>, fresh: bool, x: STerm)
    requires roots.contains(x),
    ensures collect_roots(roots, eq, var, cands, fresh).contains(x),
    decreases cands.len(),
{
    if cands.len() > 0 {
        lemma_collect_roots_keeps(roots, eq, var, cands.drop_last(), fresh, x);
        let prev = collect_roots(roots, eq, var, cands.drop_last(), fresh);
        let i = choose|i: int| 0 <= i < prev.len() && prev[i] == x;
        let r = collect_roots(roots, eq, var, cands, fresh);
        assert(r[i] == x);
    }
}

proof fn lemma_collect_roots_finds(roots: Seq<STerm>, eq: SEquality, var: Seq<char>, cands: Seq<Option<STerm>>, fresh: bool, k: int, c: STerm)
    requires
        0 <= k < cands.len(),
        cands[k] == Some(c),
        is_root_at(eq, var, c),
    ensures collect_roots(roots, eq, var, cands, fresh).contains(c),
    decreases cands.len(),
{
    let prev = collect_roots(roots, eq, var, cands.drop_last(), fresh);
    let r = collect_roots(roots, eq, var, cands, fresh);
    if k == cands.len() - 1 {
        if fresh && prev.contains(c) {
            assert(r == prev);
        } else {
            assert(r == prev.push(c));
            assert(r[prev.len() as int] == c);
        }
    } else {
        assert(cands.drop_last()[k] == cands[k]);
        lemma_collect_roots_finds(roots, eq, var, cands.drop_last(), fresh, k, c);
        let i = choose|i: int| 0 <= i < prev.len() && prev[i] == c;
        assert(r[i] == c);
    }
}

proof fn lemma_collect_rows_keeps(roots: Seq<STerm>, eq: SEquality, var: Seq<char>, rows: Seq<Seq<Option<STerm>>>, fresh: bool, x: STerm)
    requires roots.contains(x),
    ensures collect_rows(roots, eq, var, rows, fresh).contains(x),
    decreases rows.len(),
{
    if rows.len() > 0 {
        lemma_collect_rows_keeps(roots, eq, var, rows.drop_last(), fresh, x);
        lemma_collect_roots_keeps(collect_rows(roots, eq, var, rows.drop_last(), fresh), eq, var, rows.last(), fresh, x);
    }
}

proof fn lemma_collect_rows_finds(roots: Seq<STerm>, eq: SEquality, var: Seq<char>, rows: Seq<Seq<Option<STerm>>>, fresh: bool, j: int, k: int, c: STerm)
    requires
        0 <= j < rows.len(),
        0 <= k < rows[j].len(),
        rows[j][k] == Some(c),
        is_root_at(eq, var, c),
    ensures collect_rows(roots, eq, var, rows, fresh).contains(c),
    decreases rows.len(),
{
    let prev = collect_rows(roots, eq, var, rows.drop_last(), fresh);
    if j == rows.len() - 1 {
        lemma_collect_roots_finds(prev, eq, var, rows.last(), fresh, k, c);
    } else {
        assert(rows.drop_last()[j] == rows[j]);
        lemma_collect_rows_finds(roots, eq, var, rows.drop_last(), fresh, j, k, c);
        lemma_collect_roots_keeps(prev, eq, var, rows.last(), fresh, c);
    }
}

/// The root search finds every integer root in `-range..=range`: when substituting `n` for the
/// variable makes both sides evaluate alike, `n` is among the roots reported.
#[verifier::spinoff_prover]
#[verifier::rlimit(50)]
pub proof fn law_integer_roots_found(eq: SEquality, var: Seq<char>, range: int, n: int)
    requires
        -range <= n <= range,
        is_root_at(eq, var, int_term(n)),
    ensures poly_roots(eq, var, range).contains(int_term(n)),
{
    let r0 = Seq::<STerm>::empty();
    let row = int_row(range);
    assert(row[n + range] == Some(int_term(n)));
    lemma_collect_roots_finds(r0, eq, var, row, false, n + range, int_term(n));
    let r1 = collect_roots(r0, eq, var, row, false);
    let rats = seq![rat_row(range, 2), rat_row(range, 3), rat_row(range, 4)];
    lemma_collect_rows_keeps(r1, eq, var, rats, true, int_term(n));
    let r2 = collect_rows(r1, eq, var, rats, true);
    lemma_collect_rows_keeps(r2, eq, var, Seq::new(width(range), |i: int| cx_row(range, i - range)), true, int_term(n));
}

/// The root search finds every fractional root `p/q` in lowest terms with `q` in 2..=4 and
/// `|p/q| <= range`: when substituting it for the variable makes both sides evaluate alike,
/// its term is among the roots reported.
#[verifier::spinoff_prover]
#[verifier::rlimit(50)]
pub proof fn law_fraction_roots_found(eq: SEquality, var: Seq<char>, range: int, p: int, q: int)
    requires
        4 * range <= i64::MAX,
        2 <= q <= 4,
        spec_gcd(p, q) == 1,
        -(range * q) <= p <= range * q,
        is_root_at(eq, var, rat_term(Rational { num: p as i64, den: q as i64 })),
    ensures poly_roots(eq, var, range).contains(rat_term(Rational { num: p as i64, den: q as i64 })),
{
    let c = rat_term(Rational { num: p as i64, den: q as i64 });
    assert(0 <= range * q <= 4 * range) by (nonlinear_arith)
        requires 2 <= q <= 4, -(range * q) <= p <= range * q;
    lemma_rat_new_reduced(p, q);
    let row = rat_row(range, q);
    assert(row[p + range * q] == rat_cand(p, q));
    let r0 = Seq::<STerm>::empty();
    let r1 = collect_roots(r0, eq, var, int_row(range), false);
    let rats = seq![rat_row(range, 2), rat_row(range, 3), rat_row(range, 4)];
    assert(rats[q - 2] == row);
    lemma_collect_rows_finds(r1, eq, var, rats, true, q - 2, p + range * q, c);
    let r2 = collect_rows(r1, eq, var, rats, true);
    lemma_collect_rows_keeps(r2, eq, var, Seq::new(width(range), |i: int| cx_row(range, i - range)), true, c);
}

/// The root search finds every Gaussian-integer root `a + b·i` with `b` nonzero and both parts in
/// `-range..=range`: when substituting it for the variable makes both sides evaluate alike, its
/// term is among the roots reported.
#[verifier::spinoff_prover]
#[verifier::rlimit(50)]
pub proof fn law_gaussian_roots_found(eq: SEquality, var: Seq<char>, range: int, a: int, b: int)
    requires
        -range <= a <= range,
        -range <= b <= range,
        b != 0,
        is_root_at(eq, var, cr_term(ComplexRational { re: ri(a), im: ri(b) })),
    ensures poly_roots(eq, var, range).contains(cr_term(ComplexRational { re: ri(a), im: ri(b) })),
{
    let c = cr_term(ComplexRational { re: ri(a), im: ri(b) });
    let r0 = Seq::<STerm>::empty();
    let r1 = collect_roots(r0, eq, var, int_row(range), false);
    let rats = seq![rat_row(range, 2), rat_row(range, 3), rat_row(range, 4)];
    let r2 = collect_rows(r1, eq, var, rats, true);
    let rows = Seq::new(width(range), |i: int| cx_row(range, i - range));
    assert(rows[a + range] == cx_row(range, a));
    assert(rows[a + range][b + range] == Some(c));
    lemma_collect_rows_finds(r2, eq, var, rows, true, a + range, b + range, c);
}

proof fn lemma_num_ce_at(e: SEquality, vars: Seq<Seq<char>>, c: nat)
    requires
        cr_of(subst_all(e.lhs, vars, combo_values(c, false, vars.len()))) is Some,
        cr_of(subst_all(e.rhs, vars, combo_values(c, false, vars.len()))) is Some,
        cr_of(subst_all(e.lhs, vars, combo_values(c, false, vars.len())))
            != cr_of(subst_all(e.rhs, vars, combo_values(c, false, vars.len()))),
    ensures ce_at(e, vars, false, c) is Some,
{
}

/// The combination whose digits pick, among the numeric samples, the given values.
proof fn lemma_num_combo(vals: Seq<STerm>) -> (c: nat)
    requires forall|k: int| 0 <= k < vals.len() ==> num_samples().contains(#[trigger] vals[k]),
    ensures
        combo_values(c, false, vals.len()) == vals,
        c < spow(6, vals.len()),
{
    let n = vals.len();
    let samples = num_samples();
    assert(samples.len() == 6);
    let ds = Seq::new(n, |k: int| (choose|j: int| 0 <= j < 6 && samples[j] == vals[k]) as nat);
    assert forall|k: int| 0 <= k < ds.len() implies #[trigger] ds[k] < 6 && samples[ds[k] as int] == vals[k] by {
        assert(samples.contains(vals[k]));
        let j = choose|j: int| 0 <= j < 6 && samples[j] == vals[k];
        assert(0 <= j < 6 && samples[j] == vals[k]);
    }
    lemma_digits_round_trip(ds, 6);
    let c = from_digits(ds, 6);
    assert forall|k: int| 0 <= k < n implies #[trigger] combo_values(c, false, n)[k] == vals[k] by {
        assert(ds[k] < 6 && samples[ds[k] as int] == vals[k]);
    }
    assert(combo_values(c, false, n) =~= vals);
    c
}

/// The counterexample search is complete on non-boolean equalities of at most four variables:
/// when some assignment of the samples 0, 1, 2, -1, 3 and 1/2 to the variables makes the two sides
/// evaluate to different numbers, a counterexample is found.
pub proof fn law_numeric_refutation_complete(e: SEquality, vals: Seq<STerm>)
    requires
        !is_bool_eq(e),
        eq_vars(e).len() <= 4,
        vals.len() == eq_vars(e).len(),
        forall|k: int| 0 <= k < vals.len() ==> num_samples().contains(#[trigger] vals[k]),
        cr_of(subst_all(e.lhs, eq_vars(e), vals)) is Some,
        cr_of(subst_all(e.rhs, eq_vars(e), vals)) is Some,
        cr_of(subst_all(e.lhs, eq_vars(e), vals)) != cr_of(subst_all(e.rhs, eq_vars(e), vals)),
    ensures
        counterexample(e) is Some,
{
    let vars = eq_vars(e);
    let n = vars.len();
    if n > 0 {
        let c = lemma_num_combo(vals);
        lemma_num_ce_at(e, vars, c);
        lemma_first_ce_finds(e, vars, false, 0, c, spow(6, n));
    }
}

/// In a boolean proof, each boolean rule that Lean states on `Bool` is exported as the lemma that
/// states the rule's own equation (De Morgan's law for `&` as `Bool.not_and`).
pub proof fn law_bool_lemma_states_the_rule(k: int)
    requires
        0 <= k < boolean_logic_rules().len(),
        boolean_logic_rules()[k].0 != "and_not"@,
        boolean_logic_rules()[k].0 != "or_not"@,
    ensures
        lean_bool_lemmas().contains((lean_base_name(boolean_logic_rules()[k].0), boolean_logic_rules()[k].1)),
{
    reveal_strlit("add_zero");
    reveal_strlit("zero_add");
    reveal_strlit("add_comm");
    reveal_strlit("add_assoc");
    reveal_strlit("mul_one");
    reveal_strlit("one_mul");
    reveal_strlit("mul_zero");
    reveal_strlit("zero_mul");
    reveal_strlit("mul_comm");
    reveal_strlit("mul_assoc");
    reveal_strlit("distrib_left");
    reveal_strlit("distrib_right");
    reveal_strlit("sub_self");
    reveal_strlit("and_true");
    reveal_strlit("true_and");
    reveal_strlit("or_false");
    reveal_strlit("false_or");
    reveal_strlit("and_false");
    reveal_strlit("false_and");
    reveal_strlit("or_true");
    reveal_strlit("true_or");
    reveal_strlit("and_comm");
    reveal_strlit("or_comm");
    reveal_strlit("and_assoc");
    reveal_strlit("or_assoc");
    reveal_strlit("not_not");
    reveal_strlit("not_and");
    reveal_strlit("not_or");
    reveal_strlit("de_morgan_and");
    reveal_strlit("de_morgan_or");
    reveal_strlit("and_not");
    reveal_strlit("or_not");
    let r = boolean_logic_rules();
    let l = lean_bool_lemmas();
    assert(r[0].0 == "and_true"@);
    assert(r[1].0 == "true_and"@);
    assert(r[2].0 == "or_false"@);
    assert(r[3].0 == "false_or"@);
    assert(r[4].0 == "and_false"@);
    assert(r[5].0 == "or_true"@);
    assert(r[6].0 == "and_comm"@);
    assert(r[7].0 == "or_comm"@);
    assert(r[8].0 == "and_assoc"@);
    assert(r[9].0 == "or_assoc"@);
    assert(r[10].0 == "not_not"@);
    assert(r[11].0 == "and_not"@);
    assert(r[12].0 == "or_not"@);
    assert(r[13].0 == "de_morgan_and"@);
    assert(r[14].0 == "de_morgan_or"@);
    if k == 0 {
        assert("and_true"@[1] != "add_zero"@[1]);
        assert("and_true"@[0] != "zero_add"@[0]);
        assert("and_true"@[1] != "add_comm"@[1]);
        assert("and_true"@.len() != "add_assoc"@.len());
        assert("and_true"@.len() != "mul_one"@.len());
        assert("and_true"@.len() != "one_mul"@.len());
        assert("and_true"@[0] != "mul_zero"@[0]);
        assert("and_true"@[0] != "zero_mul"@[0]);
        assert("and_true"@[0] != "mul_comm"@[0]);
        assert("and_true"@.len() != "mul_assoc"@.len());
        assert("and_true"@.len() != "distrib_left"@.len());
        assert("and_true"@.len() != "distrib_right"@.len());
        assert("and_true"@[0] != "sub_self"@[0]);
        assert(l[0] == (lean_base_name(r[0].0), r[0].1));
    } else if k == 1 {
        assert("true_and"@[0] != "add_zero"@[0]);
        assert("true_and"@[0] != "zero_add"@[0]);
        assert("true_and"@[0] != "add_comm"@[0]);
        assert("true_and"@.len() != "add_assoc"@.len());
        assert("true_and"@.len() != "mul_one"@.len());
        assert("true_and"@.len() != "one_mul"@.len());
        assert("true_and"@[0] != "mul_zero"@[0]);
        assert("true_and"@[0] != "zero_mul"@[0]);
        assert("true_and"@[0] != "mul_comm"@[0]);
        assert("true_and"@.len() != "mul_assoc"@.len());
        assert("true_and"@.len() != "distrib_left"@.len());
        assert("true_and"@.len() != "distrib_right"@.len());
        assert("true_and"@[0] != "sub_self"@[0]);
        assert("true_and"@[0] != "and_true"@[0]);
        assert(l[1] == (lean_base_name(r[1].0), r[1].1));
    } else if k == 2 {
        assert("or_false"@[0] != "add_zero"@[0]);
        assert("or_false"@[0] != "zero_add"@[0]);
        assert("or_false"@[0] != "add_comm"@[0]);
        assert("or_false"@.len() != "add_assoc"@.len());
        assert("or_false"@.len() != "mul_one"@.len());
        assert("or_false"@.len() != "one_mul"@.len());
        assert("or_false"@[0] != "mul_zero"@[0]);
        assert("or_false"@[0] != "zero_mul"@[0]);
        assert("or_false"@[0] != "mul_comm"@[0]);
        assert("or_false"@.len() != "mul_assoc"@.len());
        assert("or_false"@.len() != "distrib_left"@.len());
        assert("or_false"@.len() != "distrib_right"@.len());
        assert("or_false"@[0] != "sub_self"@[0]);
        assert("or_false"@[0] != "and_true"@[0]);
        assert("or_false"@[0] != "true_and"@[0]);
        assert(l[2] == (lean_base_name(r[2].0), r[2].1));
    } else if k == 3 {
        assert("false_or"@[0] != "add_zero"@[0]);
        assert("false_or"@[0] != "zero_add"@[0]);
        assert("false_or"@[0] != "add_comm"@[0]);
        assert("false_or"@.len() != "add_assoc"@.len());
        assert("false_or"@.len() != "mul_one"@.len());
        assert("false_or"@.len() != "one_mul"@.len());
        assert("false_or"@[0] != "mul_zero"@[0]);
        assert("false_or"@[0] != "zero_mul"@[0]);
        assert("false_or"@[0] != "mul_comm"@[0]);
        assert("false_or"@.len() != "mul_assoc"@.len());
        assert("false_or"@.len() != "distrib_left"@.len());
        assert("false_or"@.len() != "distrib_right"@.len());
        assert("false_or"@[0] != "sub_self"@[0]);
        assert("false_or"@[0] != "and_true"@[0]);
        assert("false_or"@[0] != "true_and"@[0]);
        assert("false_or"@[0] != "or_false"@[0]);
        assert(l[3] == (lean_base_name(r[3].0), r[3].1));
    } else if k == 4 {
        assert("and_false"@.len() != "add_zero"@.len());
        assert("and_false"@.len() != "zero_add"@.len());
        assert("and_false"@.len() != "add_comm"@.len());
        assert("and_false"@[1] != "add_assoc"@[1]);
        assert("and_false"@.len() != "mul_one"@.len());
        assert("and_false"@.len() != "one_mul"@.len());
        assert("and_false"@.len() != "mul_zero"@.len());
        assert("and_false"@.len() != "zero_mul"@.len());
        assert("and_false"@.len() != "mul_comm"@.len());
        assert("and_false"@[0] != "mul_assoc"@[0]);
        assert("and_false"@.len() != "distrib_left"@.len());
        assert("and_false"@.len() != "distrib_right"@.len());
        assert("and_false"@.len() != "sub_self"@.len());
        assert("and_false"@.len() != "and_true"@.len());
        assert("and_false"@.len() != "true_and"@.len());
        assert("and_false"@.len() != "or_false"@.len());
        assert("and_false"@.len() != "false_or"@.len());
        assert(l[4] == (lean_base_name(r[4].0), r[4].1));
    } else if k == 5 {
        assert("or_true"@.len() != "add_zero"@.len());
        assert("or_true"@.len() != "zero_add"@.len());
        assert("or_true"@.len() != "add_comm"@.len());
        assert("or_true"@.len() != "add_assoc"@.len());
        assert("or_true"@[0] != "mul_one"@[0]);
        assert("or_true"@[1] != "one_mul"@[1]);
        assert("or_true"@.len() != "mul_zero"@.len());
        assert("or_true"@.len() != "zero_mul"@.len());
        assert("or_true"@.len() != "mul_comm"@.len());
        assert("or_true"@.len() != "mul_assoc"@.len());
        assert("or_true"@.len() != "distrib_left"@.len());
        assert("or_true"@.len() != "distrib_right"@.len());
        assert("or_true"@.len() != "sub_self"@.len());
        assert("or_true"@.len() != "and_true"@.len());
        assert("or_true"@.len() != "true_and"@.len());
        assert("or_true"@.len() != "or_false"@.len());
        assert("or_true"@.len() != "false_or"@.len());
        assert("or_true"@.len() != "and_false"@.len());
        assert("or_true"@.len() != "false_and"@.len());
        assert(l[6] == (lean_base_name(r[5].0), r[5].1));
    } else if k == 6 {
        assert("and_comm"@[1] != "add_zero"@[1]);
        assert("and_comm"@[0] != "zero_add"@[0]);
        assert("and_comm"@[1] != "add_comm"@[1]);
        assert("and_comm"@.len() != "add_assoc"@.len());
        assert("and_comm"@.len() != "mul_one"@.len());
        assert("and_comm"@.len() != "one_mul"@.len());
        assert("and_comm"@[0] != "mul_zero"@[0]);
        assert("and_comm"@[0] != "zero_mul"@[0]);
        assert("and_comm"@[0] != "mul_comm"@[0]);
        assert("and_comm"@.len() != "mul_assoc"@.len());
        assert("and_comm"@.len() != "distrib_left"@.len());
        assert("and_comm"@.len() != "distrib_right"@.len());
        assert("and_comm"@[0] != "sub_self"@[0]);
        assert("and_comm"@[4] != "and_true"@[4]);
        assert("and_comm"@[0] != "true_and"@[0]);
        assert("and_comm"@[0] != "or_false"@[0]);
        assert("and_comm"@[0] != "false_or"@[0]);
        assert("and_comm"@.len() != "and_false"@.len());
        assert("and_comm"@.len() != "false_and"@.len());
        assert("and_comm"@.len() != "or_true"@.len());
        assert("and_comm"@.len() != "true_or"@.len());
        assert(l[8] == (lean_base_name(r[6].0), r[6].1));
    } else if k == 7 {
        assert("or_comm"@.len() != "add_zero"@.len());
        assert("or_comm"@.len() != "zero_add"@.len());
        assert("or_comm"@.len() != "add_comm"@.len());
        assert("or_comm"@.len() != "add_assoc"@.len());
        assert("or_comm"@[0] != "mul_one"@[0]);
        assert("or_comm"@[1] != "one_mul"@[1]);
        assert("or_comm"@.len() != "mul_zero"@.len());
        assert("or_comm"@.len() != "zero_mul"@.len());
        assert("or_comm"@.len() != "mul_comm"@.len());
        assert("or_comm"@.len() != "mul_assoc"@.len());
        assert("or_comm"@.len() != "distrib_left"@.len());
        assert("or_comm"@.len() != "distrib_right"@.len());
        assert("or_comm"@.len() != "sub_self"@.len());
        assert("or_comm"@.len() != "and_true"@.len());
        assert("or_comm"@.len() != "true_and"@.len());
        assert("or_comm"@.len() != "or_false"@.len());
        assert("or_comm"@.len() != "false_or"@.len());
        assert("or_comm"@.len() != "and_false"@.len());
        assert("or_comm"@.len() != "false_and"@.len());
        assert("or_comm"@[3] != "or_true"@[3]);
        assert("or_comm"@[0] != "true_or"@[0]);
        assert("or_comm"@.len() != "and_comm"@.len());
        assert(l[9] == (lean_base_name(r[7].0), r[7].1));
    } else if k == 8 {
        assert("and_assoc"@.len() != "add_zero"@.len());
        assert("and_assoc"@.len() != "zero_add"@.len());
        assert("and_assoc"@.len() != "add_comm"@.len());
        assert("and_assoc"@[1] != "add_assoc"@[1]);
        assert("and_assoc"@.len() != "mul_one"@.len());
        assert("and_assoc"@.len() != "one_mul"@.len());
        assert("and_assoc"@.len() != "mul_zero"@.len());
        assert("and_assoc"@.len() != "zero_mul"@.len());
        assert("and_assoc"@.len() != "mul_comm"@.len());
        assert("and_assoc"@[0] != "mul_assoc"@[0]);
        assert("and_assoc"@.len() != "distrib_left"@.len());
        assert("and_assoc"@.len() != "distrib_right"@.len());
        assert("and_assoc"@.len() != "sub_self"@.len());
        assert("and_assoc"@.len() != "and_true"@.len());
        assert("and_assoc"@.len() != "true_and"@.len());
        assert("and_assoc"@.len() != "or_false"@.len());
        assert("and_assoc"@.len() != "false_or"@.len());
        assert("and_assoc"@[4] != "and_false"@[4]);
        assert("and_assoc"@[0] != "false_and"@[0]);
        assert("and_assoc"@.len() != "or_true"@.len());
        assert("and_assoc"@.len() != "true_or"@.len());
        assert("and_assoc"@.len() != "and_comm"@.len());
        assert("and_assoc"@.len() != "or_comm"@.len());
        assert(l[10] == (lean_base_name(r[8].0), r[8].1));
    } else if k == 9 {
        assert("or_assoc"@[0] != "add_zero"@[0]);
        assert("or_assoc"@[0] != "zero_add"@[0]);
        assert("or_assoc"@[0] != "add_comm"@[0]);
        assert("or_assoc"@.len() != "add_assoc"@.len());
        assert("or_assoc"@.len() != "mul_one"@.len());
        assert("or_assoc"@.len() != "one_mul"@.len());
        assert("or_assoc"@[0] != "mul_zero"@[0]);
        assert("or_assoc"@[0] != "zero_mul"@[0]);
        assert("or_assoc"@[0] != "mul_comm"@[0]);
        assert("or_assoc"@.len() != "mul_assoc"@.len());
        assert("or_assoc"@.len() != "distrib_left"@.len());
        assert("or_assoc"@.len() != "distrib_right"@.len());
        assert("or_assoc"@[0] != "sub_self"@[0]);
        assert("or_assoc"@[0] != "and_true"@[0]);
        assert("or_assoc"@[0] != "true_and"@[0]);
        assert("or_assoc"@[3] != "or_false"@[3]);
        assert("or_assoc"@[0] != "false_or"@[0]);
        assert("or_assoc"@.len() != "and_false"@.len());
        assert("or_assoc"@.len() != "false_and"@.len());
        assert("or_assoc"@.len() != "or_true"@.len());
        assert("or_assoc"@.len() != "true_or"@.len());
        assert("or_assoc"@[0] != "and_comm"@[0]);
        assert("or_assoc"@.len() != "or_comm"@.len());
        assert("or_assoc"@.len() != "and_assoc"@.len());
        assert(l[11] == (lean_base_name(r[9].0), r[9].1));
    } else if k == 10 {
        assert("not_not"@.len() != "add_zero"@.len());
        assert("not_not"@.len() != "zero_add"@.len());
        assert("not_not"@.len() != "add_comm"@.len());
        assert("not_not"@.len() != "add_assoc"@.len());
        assert("not_not"@[0] != "mul_one"@[0]);
        assert("not_not"@[0] != "one_mul"@[0]);
        assert("not_not"@.len() != "mul_zero"@.len());
        assert("not_not"@.len() != "zero_mul"@.len());
        assert("not_not"@.len() != "mul_comm"@.len());
        assert("not_not"@.len() != "mul_assoc"@.len());
        assert("not_not"@.len() != "distrib_left"@.len());
        assert("not_not"@.len() != "distrib_right"@.len());
        assert("not_not"@.len() != "sub_self"@.len());
        assert("not_not"@.len() != "and_true"@.len());
        assert("not_not"@.len() != "true_and"@.len());
        assert("not_not"@.len() != "or_false"@.len());
        assert("not_not"@.len() != "false_or"@.len());
        assert("not_not"@.len() != "and_false"@.len());
        assert("not_not"@.len() != "false_and"@.len());
        assert("not_not"@[0] != "or_true"@[0]);
        assert("not_not"@[0] != "true_or"@[0]);
        assert("not_not"@.len() != "and_comm"@.len());
        assert("not_not"@[0] != "or_comm"@[0]);
        assert("not_not"@.len() != "and_assoc"@.len());
        assert("not_not"@.len() != "or_assoc"@.len());
        assert(l[12] == (lean_base_name(r[10].0), r[10].1));
    } else if k == 13 {
        assert("de_morgan_and"@.len() != "add_zero"@.len());
        assert("de_morgan_and"@.len() != "zero_add"@.len());
        assert("de_morgan_and"@.len() != "add_comm"@.len());
        assert("de_morgan_and"@.len() != "add_assoc"@.len());
        assert("de_morgan_and"@.len() != "mul_one"@.len());
        assert("de_morgan_and"@.len() != "one_mul"@.len());
        assert("de_morgan_and"@.len() != "mul_zero"@.len());
        assert("de_morgan_and"@.len() != "zero_mul"@.len());
        assert("de_morgan_and"@.len() != "mul_comm"@.len());
        assert("de_morgan_and"@.len() != "mul_assoc"@.len());
        assert("de_morgan_and"@.len() != "distrib_left"@.len());
        assert("de_morgan_and"@[1] != "distrib_right"@[1]);
        assert("de_morgan_and"@.len() != "sub_self"@.len());
        assert("de_morgan_and"@.len() != "and_true"@.len());
        assert("de_morgan_and"@.len() != "true_and"@.len());
        assert("de_morgan_and"@.len() != "or_false"@.len());
        assert("de_morgan_and"@.len() != "false_or"@.len());
        assert("de_morgan_and"@.len() != "and_false"@.len());
        assert("de_morgan_and"@.len() != "false_and"@.len());
        assert("de_morgan_and"@.len() != "or_true"@.len());
        assert("de_morgan_and"@.len() != "true_or"@.len());
        assert("de_morgan_and"@.len() != "and_comm"@.len());
        assert("de_morgan_and"@.len() != "or_comm"@.len());
        assert("de_morgan_and"@.len() != "and_assoc"@.len());
        assert("de_morgan_and"@.len() != "or_assoc"@.len());
        assert("de_morgan_and"@.len() != "not_not"@.len());
        assert("de_morgan_and"@.len() != "not_and"@.len());
        assert("de_morgan_and"@.len() != "not_or"@.len());
        assert(l[13] == (lean_base_name(r[13].0), r[13].1));
    } else if k == 14 {
        assert("de_morgan_or"@.len() != "add_zero"@.len());
        assert("de_morgan_or"@.len() != "zero_add"@.len());
        assert("de_morgan_or"@.len() != "add_comm"@.len());
        assert("de_morgan_or"@.len() != "add_assoc"@.len());
        assert("de_morgan_or"@.len() != "mul_one"@.len());
        assert("de_morgan_or"@.len() != "one_mul"@.len());
        assert("de_morgan_or"@.len() != "mul_zero"@.len());
        assert("de_morgan_or"@.len() != "zero_mul"@.len());
        assert("de_morgan_or"@.len() != "mul_comm"@.len());
        assert("de_morgan_or"@.len() != "mul_assoc"@.len());
        assert("de_morgan_or"@[1] != "distrib_left"@[1]);
        assert("de_morgan_or"@.len() != "distrib_right"@.len());
        assert("de_morgan_or"@.len() != "sub_self"@.len());
        assert("de_morgan_or"@.len() != "and_true"@.len());
        assert("de_morgan_or"@.len() != "true_and"@.len());
        assert("de_morgan_or"@.len() != "or_false"@.len());
        assert("de_morgan_or"@.len() != "false_or"@.len());
        assert("de_morgan_or"@.len() != "and_false"@.len());
        assert("de_morgan_or"@.len() != "false_and"@.len());
        assert("de_morgan_or"@.len() != "or_true"@.len());
        assert("de_morgan_or"@.len() != "true_or"@.len());
        assert("de_morgan_or"@.len() != "and_comm"@.len());
        assert("de_morgan_or"@.len() != "or_comm"@.len());
        assert("de_morgan_or"@.len() != "and_assoc"@.len());
        assert("de_morgan_or"@.len() != "or_assoc"@.len());
        assert("de_morgan_or"@.len() != "not_not"@.len());
        assert("de_morgan_or"@.len() != "not_and"@.len());
        assert("de_morgan_or"@.len() != "not_or"@.len());
        assert("de_morgan_or"@.len() != "de_morgan_and"@.len());
        assert(l[14] == (lean_base_name(r[14].0), r[14].1));
    }
}

} // verus!
