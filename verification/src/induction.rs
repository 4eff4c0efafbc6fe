//! Proof by induction on a natural-number variable.
use vstd::prelude::*;
use crate::strings::{owned, str_eq};
use crate::fol::{Term, STerm, Equality, SEquality, rep, contains_sym, display_eq};
use crate::kernel::{ProofState, SProofState, Goal, SGoal, Tactic, STactic, AxiomLibrary, checked, goals_view, hist_view, clone_history, clone_opt_eq};
use crate::lean::{lean_term, lean_base_name, term_to_lean, map_rule_to_lean_typed};

verus! {

/// A proof by induction: the base case and the inductive step, each with its proof.
#[derive(Debug)]
pub struct InductiveProof {
    pub var_name: String,
    pub theorem_name: String,
    pub initial_conjecture: Equality,
    pub base_case_goal: Equality,
    pub base_case_proof: ProofState,
    pub inductive_hypothesis: Equality,
    pub inductive_step_goal: Equality,
    pub inductive_step_proof: ProofState,
}

/// The Lean 4 line for one step of a case; in the inductive step, `ih` is the hypothesis.
pub open spec fn ind_line(t: STactic, step: bool) -> Seq<char> {
    match t {
        STactic::RewriteLhs(r) => "    rw ["@ + (if step && r == "ih"@ { "ih"@ } else { lean_base_name(r) }) + "]\n"@,
        STactic::RewriteRhs(r) => if step {
            "    rw ["@ + (if r == "ih"@ { "<- ih"@ } else { "<- "@ + lean_base_name(r) }) + "]\n"@
        } else {
            "    rw [<- "@ + lean_base_name(r) + "]\n"@
        },
        STactic::Reflexivity => "    rfl\n"@,
        _ => Seq::empty(),
    }
}

pub open spec fn ind_lines(h: Seq<(STactic, Seq<char>)>, step: bool) -> Seq<char>
    decreases h.len(),
{
    if h.len() == 0 {
        Seq::empty()
    } else {
        ind_lines(h.drop_last(), step) + ind_line(h.last().0, step)
    }
}

/// The Lean 4 tactic block of one case.
pub open spec fn ind_block(h: Seq<(STactic, Seq<char>)>, step: bool) -> Seq<char> {
    if h.len() == 0 { "    rfl\n"@ } else { ind_lines(h, step) + "    try rfl\n"@ }
}

/// The Lean 4 text of a proof by induction.
pub open spec fn ind_export(name: Seq<char>, var: Seq<char>, conj: SEquality, base: Seq<(STactic, Seq<char>)>, step: Seq<(STactic, Seq<char>)>) -> Seq<char> {
    "-- ========================================================\n"@
        + "-- AXIOMATIC AUTONOMOUS INDUCTIVE PROOF: "@ + name + "\n"@
        + "-- Synthesized by Induction Engine 2.0 & Verified by Lean 4 Kernel\n"@
        + "-- ========================================================\n\n"@
        + "set_option linter.unusedVariables false\n\n"@
        + "theorem "@ + name + " ("@ + var + " : Nat) : "@ + lean_term(conj.lhs, false) + " = "@ + lean_term(conj.rhs, false) + " := by\n"@
        + "  induction "@ + var + " with\n"@
        + "  | zero =>\n"@
        + ind_block(base, false)
        + "  | succ k ih =>\n"@
        + ind_block(step, true)
}

fn case_block(h: &Vec<(Tactic, String)>, step: bool) -> (r: String)
    ensures r@ == ind_block(hist_view(h@), step),
{
    let ghost hv = hist_view(h@);
    proof { lemma_nat_not_int(); }
    if h.len() == 0 {
        return owned("    rfl\n");
    }
    let mut code = String::new();
    let mut i: usize = 0;
    assert(hv.take(0) =~= Seq::<(STactic, Seq<char>)>::empty());
    while i < h.len()
        invariant
            i <= h.len(),
            hv == hist_view(h@),
            "Nat"@ != "Int"@,
            code@ == ind_lines(hv.take(i as int), step),
        decreases h.len() - i,
    {
        proof {
            assert(hv.take(i + 1).drop_last() =~= hv.take(i as int));
            assert(hv.take(i + 1).last() == hv[i as int]);
            assert(hv[i as int].0 == h@[i as int].0@);
        }
        match &h[i].0 {
            Tactic::RewriteLhs(r) => {
                code.append("    rw [");
                if step && str_eq(r.as_str(), "ih") {
                    code.append("ih");
                } else {
                    code.append(map_rule_to_lean_typed(r.as_str(), "Nat").as_str());
                }
                code.append("]\n");
            },
            Tactic::RewriteRhs(r) => {
                if step {
                    code.append("    rw [");
                    if str_eq(r.as_str(), "ih") {
                        code.append("<- ih");
                    } else {
                        let mut s = owned("<- ");
                        s.append(map_rule_to_lean_typed(r.as_str(), "Nat").as_str());
                        code.append(s.as_str());
                    }
                    code.append("]\n");
                } else {
                    code.append("    rw [<- ");
                    code.append(map_rule_to_lean_typed(r.as_str(), "Nat").as_str());
                    code.append("]\n");
                }
            },
            Tactic::Reflexivity => {
                code.append("    rfl\n");
            },
            _ => {
                assert(code@ =~= code@ + Seq::<char>::empty());
            },
        }
        i += 1;
    }
    assert(hv.take(i as int) =~= hv);
    code.append("    try rfl\n");
    code
}

proof fn lemma_nat_not_int()
    ensures "Nat"@ != "Int"@,
{
    reveal_strlit("Nat");
    reveal_strlit("Int");
    assert("Nat"@[0] != "Int"@[0]);
}

impl InductiveProof {
    /// The proof as a Lean 4 theorem by `induction`.
    pub fn export_to_lean4(&self) -> (r: String)
        ensures
            r@ == ind_export(self.theorem_name@, self.var_name@, self.initial_conjecture@,
                self.base_case_proof@.history, self.inductive_step_proof@.history),
    {
        proof { lemma_nat_not_int(); }
        let mut code = owned("-- ========================================================\n");
        code.append("-- AXIOMATIC AUTONOMOUS INDUCTIVE PROOF: ");
        code.append(self.theorem_name.as_str());
        code.append("\n");
        code.append("-- Synthesized by Induction Engine 2.0 & Verified by Lean 4 Kernel\n");
        code.append("-- ========================================================\n\n");
        code.append("set_option linter.unusedVariables false\n\n");
        code.append("theorem ");
        code.append(self.theorem_name.as_str());
        code.append(" (");
        code.append(self.var_name.as_str());
        code.append(" : Nat) : ");
        code.append(term_to_lean(&self.initial_conjecture.lhs).as_str());
        code.append(" = ");
        code.append(term_to_lean(&self.initial_conjecture.rhs).as_str());
        code.append(" := by\n");
        code.append("  induction ");
        code.append(self.var_name.as_str());
        code.append(" with\n");
        code.append("  | zero =>\n");
        code.append(case_block(&self.base_case_proof.proof_history, false).as_str());
        code.append("  | succ k ih =>\n");
        code.append(case_block(&self.inductive_step_proof.proof_history, true).as_str());
        code
    }
}

/// The state after splitting the first goal by induction on `var`: the base case (`var` = 0)
/// numbered `10·id + 1` and the step (`var` = succ(`var`_k)) numbered `10·id + 2` take its place.
pub open spec fn induction_spec(s: SProofState, var: Seq<char>) -> Result<SProofState, Seq<char>> {
    if s.goals.len() == 0 {
        Err("No open goals to apply induction on"@)
    } else {
        let g = s.goals[0];
        if !contains_sym(g.eq.lhs, var) && !contains_sym(g.eq.rhs, var) {
            Err("Variable '"@ + var + "' does not occur in goal"@)
        } else {
            let zero = STerm::Const("0"@);
            let succ_k = STerm::Func("succ"@, seq![STerm::Const(var + "_k"@)]);
            let base = SGoal { id: (g.id * 10 + 1) as usize, eq: SEquality { lhs: rep(g.eq.lhs, var, zero), rhs: rep(g.eq.rhs, var, zero) } };
            let step = SGoal { id: (g.id * 10 + 2) as usize, eq: SEquality { lhs: rep(g.eq.lhs, var, succ_k), rhs: rep(g.eq.rhs, var, succ_k) } };
            let entry = (STactic::ApplyAxiom("induction on "@ + var),
                "Split into Base Case (n=0) and Inductive Step (n=succ("@ + var + "))"@);
            Ok(checked(SProofState {
                initial: s.initial,
                goals: seq![base, step] + s.goals.drop_first(),
                history: s.history.push(entry),
                is_solved: false,
                depth: (s.depth + 1) as usize,
            }))
        }
    }
}

/// The machine limits under which splitting by induction cannot overflow a counter.
pub open spec fn induction_fits(s: SProofState) -> bool {
    s.depth < usize::MAX && (s.goals.len() > 0 ==> s.goals[0].id * 10 + 2 <= usize::MAX)
}

pub open spec fn result_view(r: Result<ProofState, String>) -> Result<SProofState, Seq<char>> {
    match r {
        Ok(s) => Ok(s@),
        Err(e) => Err(e@),
    }
}

/// The engine that splits goals and assembles proofs by induction.
pub struct InductionEngine;

impl InductionEngine {
    /// Splits the first goal into a base case and an inductive step on `var_name`.
    pub fn apply_induction(state: &ProofState, var_name: &str) -> (r: Result<ProofState, String>)
        requires induction_fits(state@),
        ensures result_view(r) == induction_spec(state@, var_name@),
    {
        if state.open_goals.len() == 0 {
            return Err(owned("No open goals to apply induction on"));
        }
        let current_goal = &state.open_goals[0];
        assert(current_goal@ == state@.goals[0]);
        let eq = &current_goal.equality;
        if !eq.lhs.contains_symbol(var_name) && !eq.rhs.contains_symbol(var_name) {
            let mut msg = owned("Variable '");
            msg.append(var_name);
            msg.append("' does not occur in goal");
            return Err(msg);
        }
        let zero = Term::constant("0");
        let mut k_name = owned(var_name);
        k_name.append("_k");
        let k_var = Term::Const(k_name);
        let mut args: Vec<Term> = Vec::new();
        args.push(k_var);
        let succ_k = Term::func("succ", args);
        proof {
            assert(crate::fol::terms_view(args@) =~= seq![STerm::Const(var_name@ + "_k"@)]);
        }
        let base_goal = Goal {
            id: current_goal.id * 10 + 1,
            equality: Equality::new(eq.lhs.replace_variable(var_name, &zero), eq.rhs.replace_variable(var_name, &zero)),
        };
        let step_goal = Goal {
            id: current_goal.id * 10 + 2,
            equality: Equality::new(eq.lhs.replace_variable(var_name, &succ_k), eq.rhs.replace_variable(var_name, &succ_k)),
        };
        let mut goals: Vec<Goal> = Vec::new();
        goals.push(base_goal);
        goals.push(step_goal);
        let ghost g2 = goals_view(goals@);
        let mut i: usize = 1;
        while i < state.open_goals.len()
            invariant
                1 <= i <= state.open_goals.len(),
                goals_view(goals@) == g2 + goals_view(state.open_goals@).subrange(1, i as int),
            decreases state.open_goals.len() - i,
        {
            let g = state.open_goals[i].clone();
            proof {
                assert(goals_view(goals@.push(g)) =~= goals_view(goals@).push(g@));
                assert(goals_view(state.open_goals@).subrange(1, i + 1) =~= goals_view(state.open_goals@).subrange(1, i as int).push(g@));
            }
            goals.push(g);
            i += 1;
        }
        proof {
            assert(goals_view(state.open_goals@).subrange(1, i as int) =~= goals_view(state.open_goals@).drop_first());
        }
        let mut history = clone_history(&state.proof_history);
        let ghost h0 = history@;
        let mut axiom_name = owned("induction on ");
        axiom_name.append(var_name);
        let mut desc = owned("Split into Base Case (n=0) and Inductive Step (n=succ(");
        desc.append(var_name);
        desc.append("))");
        history.push((Tactic::ApplyAxiom(axiom_name), desc));
        proof {
            assert(hist_view(history@) =~= hist_view(h0).push((STactic::ApplyAxiom("induction on "@ + var_name@),
                "Split into Base Case (n=0) and Inductive Step (n=succ("@ + var_name@ + "))"@)));
        }
        let next_state = ProofState {
            initial_equality: clone_opt_eq(&state.initial_equality),
            open_goals: goals,
            proof_history: history,
            is_solved: false,
            depth: state.depth + 1,
        };
        proof {
            let g = state@.goals[0];
            let zero_s = STerm::Const("0"@);
            let succ_s = STerm::Func("succ"@, seq![STerm::Const(var_name@ + "_k"@)]);
            assert(zero@ == zero_s);
            assert(succ_k@ == succ_s);
            assert(g2[0] == SGoal { id: (g.id * 10 + 1) as usize, eq: SEquality { lhs: rep(g.eq.lhs, var_name@, zero_s), rhs: rep(g.eq.rhs, var_name@, zero_s) } });
            assert(g2[1] == SGoal { id: (g.id * 10 + 2) as usize, eq: SEquality { lhs: rep(g.eq.lhs, var_name@, succ_s), rhs: rep(g.eq.rhs, var_name@, succ_s) } });
            assert(g2 =~= seq![g2[0], g2[1]]);
        }
        let mut next_state = next_state;
        next_state.check_solved();
        Ok(next_state)
    }
}


/// The goals of a proof by induction on a variable: the base case, the hypothesis and the step.
#[derive(Debug)]
pub struct InductionPlan {
    pub base_eq: Equality,
    pub ih_eq: Equality,
    pub step_eq: Equality,
    pub step_axioms: AxiomLibrary,
}

/// `conj` with `var` replaced by `t` on both sides.
pub open spec fn instance(conj: SEquality, var: Seq<char>, t: STerm) -> SEquality {
    SEquality { lhs: rep(conj.lhs, var, t), rhs: rep(conj.rhs, var, t) }
}

pub open spec fn k_term() -> STerm {
    STerm::Const("k"@)
}

/// `k + 1`, the successor in the inductive step.
pub open spec fn succ_term() -> STerm {
    STerm::Func("+"@, seq![STerm::Const("k"@), STerm::Const("1"@)])
}

/// The message when the variable does not occur in the conjecture.
pub open spec fn absent_msg(var: Seq<char>) -> Seq<char> {
    "Variable '"@ + var + "' does not occur in conjecture"@
}

fn instance_of(conj: &Equality, var_name: &str, t: &Term) -> (r: Equality)
    ensures r@ == instance(conj@, var_name@, t@),
{
    Equality::new(conj.lhs.replace_variable(var_name, t), conj.rhs.replace_variable(var_name, t))
}

impl InductionEngine {
    /// The goals of an induction on `var_name`: the base case `var = 0`, the hypothesis
    /// `var = k` (added to the rules as `ih` for the step) and the step `var = k + 1`.
    pub fn plan_induction(conjecture: &Equality, var_name: &str, axioms: &AxiomLibrary) -> (r: Result<InductionPlan, String>)
        ensures
            (r is Err) <==> (!contains_sym(conjecture@.lhs, var_name@) && !contains_sym(conjecture@.rhs, var_name@)),
            r is Err ==> r->Err_0@ == absent_msg(var_name@),
            r is Ok ==> ({
                let p = r->Ok_0;
                &&& p.base_eq@ == instance(conjecture@, var_name@, STerm::Const("0"@))
                &&& p.ih_eq@ == instance(conjecture@, var_name@, k_term())
                &&& p.step_eq@ == instance(conjecture@, var_name@, succ_term())
                &&& p.step_axioms@ == axioms@.push(("ih"@, p.ih_eq@))
            }),
    {
        if !conjecture.lhs.contains_symbol(var_name) && !conjecture.rhs.contains_symbol(var_name) {
            let mut msg = owned("Variable '");
            msg.append(var_name);
            msg.append("' does not occur in conjecture");
            return Err(msg);
        }
        let zero = Term::constant("0");
        let k_var = Term::constant("k");
        let base_eq = instance_of(conjecture, var_name, &zero);
        let ih_eq = instance_of(conjecture, var_name, &k_var);
        let succ_k = crate::fol::func2("+", k_var.clone(), Term::constant("1"));
        let step_eq = instance_of(conjecture, var_name, &succ_k);
        let mut step_axioms = axioms.clone();
        step_axioms.add_rule("ih", ih_eq.clone());
        Ok(InductionPlan { base_eq, ih_eq, step_eq, step_axioms })
    }

    /// Assembles the proof by induction from the proofs found for the base case and the step;
    /// an error names the first case left unproved.
    pub fn complete_induction(conjecture: &Equality, var_name: &str, plan: InductionPlan,
        base_proof: Option<ProofState>, step_proof: Option<ProofState>) -> (r: Result<InductiveProof, String>)
        ensures
            base_proof is None ==> r is Err && r->Err_0@ == "Induction Engine could not prove Base Case: "@ + display_eq(plan.base_eq@),
            base_proof is Some && step_proof is None ==> r is Err
                && r->Err_0@ == "Induction Engine could not prove Inductive Step: "@ + display_eq(plan.step_eq@),
            base_proof is Some && step_proof is Some ==> r is Ok && ({
                let p = r->Ok_0;
                &&& p.var_name@ == var_name@
                &&& p.theorem_name@ == "peano_induction_theorem"@
                &&& p.initial_conjecture@ == conjecture@
                &&& p.base_case_goal@ == plan.base_eq@
                &&& p.base_case_proof@ == base_proof->Some_0@
                &&& p.inductive_hypothesis@ == plan.ih_eq@
                &&& p.inductive_step_goal@ == plan.step_eq@
                &&& p.inductive_step_proof@ == step_proof->Some_0@
            }),
    {
        let base = match base_proof {
            Some(b) => b,
            None => {
                let mut msg = owned("Induction Engine could not prove Base Case: ");
                msg.append(plan.base_eq.to_string().as_str());
                return Err(msg);
            },
        };
        let step = match step_proof {
            Some(s) => s,
            None => {
                let mut msg = owned("Induction Engine could not prove Inductive Step: ");
                msg.append(plan.step_eq.to_string().as_str());
                return Err(msg);
            },
        };
        Ok(InductiveProof {
            var_name: owned(var_name),
            theorem_name: owned("peano_induction_theorem"),
            initial_conjecture: conjecture.clone(),
            base_case_goal: plan.base_eq,
            base_case_proof: base,
            inductive_hypothesis: plan.ih_eq,
            inductive_step_goal: plan.step_eq,
            inductive_step_proof: step,
        })
    }
}

} // verus!
