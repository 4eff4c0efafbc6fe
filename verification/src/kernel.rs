//! The proof kernel: goals, proof states, tactics and the libraries of rewrite rules.
use vstd::prelude::*;
use crate::strings::{owned, str_eq, nat_str, nat_digits};
use crate::fol::{Term, STerm, Equality, SEquality, display, display_eq, term_eq, lemma_view, lemma_view_func, terms_view, func2};
use crate::unify::{rewrites, apply_rewrite};
use crate::eval::{eval_step, eval_step_arithmetic};

verus! {

/// An applied tactic: one transformation step of a proof.
#[derive(Debug)]
pub enum Tactic {
    RewriteLhs(String),
    RewriteRhs(String),
    EvalArithmeticLhs,
    EvalArithmeticRhs,
    Symmetry,
    Reflexivity,
    Transitivity(Term),
    ApplyAxiom(String),
    TransposeToZero,
    ZeroProductSplit,
}

/// The mathematical value of a tactic.
pub enum STactic {
    RewriteLhs(Seq<char>),
    RewriteRhs(Seq<char>),
    EvalArithmeticLhs,
    EvalArithmeticRhs,
    Symmetry,
    Reflexivity,
    Transitivity(STerm),
    ApplyAxiom(Seq<char>),
    TransposeToZero,
    ZeroProductSplit,
}

impl View for Tactic {
    type V = STactic;

    open spec fn view(&self) -> STactic {
        match self {
            Tactic::RewriteLhs(r) => STactic::RewriteLhs(r@),
            Tactic::RewriteRhs(r) => STactic::RewriteRhs(r@),
            Tactic::EvalArithmeticLhs => STactic::EvalArithmeticLhs,
            Tactic::EvalArithmeticRhs => STactic::EvalArithmeticRhs,
            Tactic::Symmetry => STactic::Symmetry,
            Tactic::Reflexivity => STactic::Reflexivity,
            Tactic::Transitivity(t) => STactic::Transitivity(t@),
            Tactic::ApplyAxiom(a) => STactic::ApplyAxiom(a@),
            Tactic::TransposeToZero => STactic::TransposeToZero,
            Tactic::ZeroProductSplit => STactic::ZeroProductSplit,
        }
    }
}

impl Clone for Tactic {
    fn clone(&self) -> (r: Self)
        ensures r@ == self@,
    {
        match self {
            Tactic::RewriteLhs(r) => Tactic::RewriteLhs(r.clone()),
            Tactic::RewriteRhs(r) => Tactic::RewriteRhs(r.clone()),
            Tactic::EvalArithmeticLhs => Tactic::EvalArithmeticLhs,
            Tactic::EvalArithmeticRhs => Tactic::EvalArithmeticRhs,
            Tactic::Symmetry => Tactic::Symmetry,
            Tactic::Reflexivity => Tactic::Reflexivity,
            Tactic::Transitivity(t) => Tactic::Transitivity(t.clone()),
            Tactic::ApplyAxiom(a) => Tactic::ApplyAxiom(a.clone()),
            Tactic::TransposeToZero => Tactic::TransposeToZero,
            Tactic::ZeroProductSplit => Tactic::ZeroProductSplit,
        }
    }
}

/// Whether two tactics are the same step.
pub fn tactic_eq(a: &Tactic, b: &Tactic) -> (r: bool)
    ensures r == (a@ == b@),
{
    match (a, b) {
        (Tactic::RewriteLhs(x), Tactic::RewriteLhs(y)) => str_eq(x.as_str(), y.as_str()),
        (Tactic::RewriteRhs(x), Tactic::RewriteRhs(y)) => str_eq(x.as_str(), y.as_str()),
        (Tactic::EvalArithmeticLhs, Tactic::EvalArithmeticLhs) => true,
        (Tactic::EvalArithmeticRhs, Tactic::EvalArithmeticRhs) => true,
        (Tactic::Symmetry, Tactic::Symmetry) => true,
        (Tactic::Reflexivity, Tactic::Reflexivity) => true,
        (Tactic::Transitivity(x), Tactic::Transitivity(y)) => term_eq(x, y),
        (Tactic::ApplyAxiom(x), Tactic::ApplyAxiom(y)) => str_eq(x.as_str(), y.as_str()),
        (Tactic::TransposeToZero, Tactic::TransposeToZero) => true,
        (Tactic::ZeroProductSplit, Tactic::ZeroProductSplit) => true,
        _ => false,
    }
}

impl PartialEq for Tactic {
    fn eq(&self, other: &Self) -> (r: bool) {
        tactic_eq(self, other)
    }
}

impl vstd::std_specs::cmp::PartialEqSpecImpl for Tactic {
    open spec fn obeys_eq_spec() -> bool {
        true
    }

    open spec fn eq_spec(&self, other: &Self) -> bool {
        self@ == other@
    }
}

impl Eq for Tactic {}

/// The printed form of a tactic.
pub open spec fn tactic_display(t: STactic) -> Seq<char> {
    match t {
        STactic::RewriteLhs(r) => "rw_lhs ["@ + r + "]"@,
        STactic::RewriteRhs(r) => "rw_rhs ["@ + r + "]"@,
        STactic::EvalArithmeticLhs => "eval_arith_lhs"@,
        STactic::EvalArithmeticRhs => "eval_arith_rhs"@,
        STactic::Symmetry => "symm"@,
        STactic::Reflexivity => "rfl"@,
        STactic::Transitivity(c) => "trans ("@ + display(c) + ")"@,
        STactic::ApplyAxiom(a) => "apply "@ + a,
        STactic::TransposeToZero => "transpose_zero"@,
        STactic::ZeroProductSplit => "zero_product_split"@,
    }
}

impl Tactic {
    /// The printed form of the tactic.
    pub fn to_string(&self) -> (r: String)
        ensures r@ == tactic_display(self@),
    {
        match self {
            Tactic::RewriteLhs(r) => {
                let mut s = owned("rw_lhs [");
                s.append(r.as_str());
                s.append("]");
                s
            },
            Tactic::RewriteRhs(r) => {
                let mut s = owned("rw_rhs [");
                s.append(r.as_str());
                s.append("]");
                s
            },
            Tactic::EvalArithmeticLhs => owned("eval_arith_lhs"),
            Tactic::EvalArithmeticRhs => owned("eval_arith_rhs"),
            Tactic::Symmetry => owned("symm"),
            Tactic::Reflexivity => owned("rfl"),
            Tactic::Transitivity(c) => {
                let mut s = owned("trans (");
                s.append(c.to_string().as_str());
                s.append(")");
                s
            },
            Tactic::ApplyAxiom(a) => {
                let mut s = owned("apply ");
                s.append(a.as_str());
                s
            },
            Tactic::TransposeToZero => owned("transpose_zero"),
            Tactic::ZeroProductSplit => owned("zero_product_split"),
        }
    }
}

/// A goal of a proof: an equality to be shown, with its number.
#[derive(Debug)]
pub struct Goal {
    pub id: usize,
    pub equality: Equality,
}

pub struct SGoal {
    pub id: usize,
    pub eq: SEquality,
}

impl View for Goal {
    type V = SGoal;

    open spec fn view(&self) -> SGoal {
        SGoal { id: self.id, eq: self.equality@ }
    }
}

impl Clone for Goal {
    fn clone(&self) -> (r: Self)
        ensures r@ == self@,
    {
        Goal { id: self.id, equality: self.equality.clone() }
    }
}

/// The printed form of a goal.
pub open spec fn goal_display(g: SGoal) -> Seq<char> {
    "Goal #"@ + nat_digits(g.id as nat) + ": "@ + display_eq(g.eq)
}

impl Goal {
    /// The printed form `Goal #id: lhs = rhs`.
    pub fn to_string(&self) -> (r: String)
        ensures r@ == goal_display(self@),
    {
        let mut s = owned("Goal #");
        s.append(nat_str(self.id as u64).as_str());
        s.append(": ");
        s.append(self.equality.to_string().as_str());
        s
    }
}

pub open spec fn goals_view(v: Seq<Goal>) -> Seq<SGoal> {
    Seq::new(v.len(), |i: int| v[i]@)
}

pub open spec fn hist_view(v: Seq<(Tactic, String)>) -> Seq<(STactic, Seq<char>)> {
    Seq::new(v.len(), |i: int| (v[i].0@, v[i].1@))
}

pub open spec fn opt_eq_view(o: Option<Equality>) -> Option<SEquality> {
    match o {
        Some(e) => Some(e@),
        None => None,
    }
}

/// The state of a proof at a node of the search tree.
#[derive(Debug)]
pub struct ProofState {
    pub initial_equality: Option<Equality>,
    pub open_goals: Vec<Goal>,
    pub proof_history: Vec<(Tactic, String)>,
    pub is_solved: bool,
    pub depth: usize,
}

/// The mathematical value of a proof state.
pub struct SProofState {
    pub initial: Option<SEquality>,
    pub goals: Seq<SGoal>,
    pub history: Seq<(STactic, Seq<char>)>,
    pub is_solved: bool,
    pub depth: usize,
}

impl View for ProofState {
    type V = SProofState;

    open spec fn view(&self) -> SProofState {
        SProofState {
            initial: opt_eq_view(self.initial_equality),
            goals: goals_view(self.open_goals@),
            history: hist_view(self.proof_history@),
            is_solved: self.is_solved,
            depth: self.depth,
        }
    }
}

/// A copy of a list of goals.
pub fn clone_goals(v: &Vec<Goal>) -> (r: Vec<Goal>)
    ensures goals_view(r@) == goals_view(v@),
{
    let mut out: Vec<Goal> = Vec::new();
    let mut i: usize = 0;
    while i < v.len()
        invariant
            i <= v.len(),
            out@.len() == i,
            forall|j: int| 0 <= j < i ==> #[trigger] out@[j]@ == v@[j]@,
        decreases v.len() - i,
    {
        out.push(v[i].clone());
        i += 1;
    }
    assert(goals_view(out@) =~= goals_view(v@));
    out
}

/// A copy of a proof history.
pub fn clone_history(v: &Vec<(Tactic, String)>) -> (r: Vec<(Tactic, String)>)
    ensures hist_view(r@) == hist_view(v@),
{
    let mut out: Vec<(Tactic, String)> = Vec::new();
    let mut i: usize = 0;
    while i < v.len()
        invariant
            i <= v.len(),
            out@.len() == i,
            forall|j: int| 0 <= j < i ==> #[trigger] out@[j].0@ == v@[j].0@ && out@[j].1@ == v@[j].1@,
        decreases v.len() - i,
    {
        out.push((v[i].0.clone(), v[i].1.clone()));
        i += 1;
    }
    assert(hist_view(out@) =~= hist_view(v@));
    out
}

pub fn clone_opt_eq(o: &Option<Equality>) -> (r: Option<Equality>)
    ensures opt_eq_view(r) == opt_eq_view(*o),
{
    match o {
        Some(e) => Some(e.clone()),
        None => None,
    }
}

impl Clone for ProofState {
    fn clone(&self) -> (r: Self)
        ensures r@ == self@,
    {
        ProofState {
            initial_equality: clone_opt_eq(&self.initial_equality),
            open_goals: clone_goals(&self.open_goals),
            proof_history: clone_history(&self.proof_history),
            is_solved: self.is_solved,
            depth: self.depth,
        }
    }
}

/// The goals whose two sides differ, in order.
pub open spec fn unsolved(goals: Seq<SGoal>) -> Seq<SGoal>
    decreases goals.len(),
{
    if goals.len() == 0 {
        goals
    } else {
        let rest = unsolved(goals.drop_last());
        if goals.last().eq.lhs != goals.last().eq.rhs { rest.push(goals.last()) } else { rest }
    }
}

/// The state after `check_solved`: goals closed by reflexivity dropped, and the state marked
/// solved exactly when no goal is left.
pub open spec fn checked(s: SProofState) -> SProofState {
    let goals = if s.goals.len() == 0 { s.goals } else { unsolved(s.goals) };
    SProofState { goals, is_solved: goals.len() == 0, ..s }
}

/// The fresh state for proving `eq`: one goal numbered 1.
pub open spec fn initial_state(eq: SEquality) -> SProofState {
    SProofState {
        initial: Some(eq),
        goals: seq![SGoal { id: 1, eq }],
        history: Seq::empty(),
        is_solved: false,
        depth: 0,
    }
}

impl ProofState {
    /// The state at the start of a proof of `initial_equality`.
    pub fn new(initial_equality: Equality) -> (r: ProofState)
        ensures r@ == initial_state(initial_equality@),
    {
        let mut goals: Vec<Goal> = Vec::new();
        let first = initial_equality.clone();
        goals.push(Goal { id: 1, equality: initial_equality });
        let r = ProofState {
            initial_equality: Some(first),
            open_goals: goals,
            proof_history: Vec::new(),
            is_solved: false,
            depth: 0,
        };
        assert(r@.goals =~= seq![SGoal { id: 1, eq: first@ }]);
        assert(r@.history =~= Seq::empty());
        r
    }

    /// Drops the goals whose sides are identical and records whether the proof is complete.
    pub fn check_solved(&mut self) -> (r: bool)
        ensures
            final(self)@ == checked(old(self)@),
            r == final(self)@.is_solved,
    {
        if self.open_goals.len() == 0 {
            self.is_solved = true;
            return true;
        }
        let ghost g0 = goals_view(self.open_goals@);
        let mut kept: Vec<Goal> = Vec::new();
        let mut i: usize = 0;
        while i < self.open_goals.len()
            invariant
                i <= self.open_goals.len(),
                g0 == goals_view(self.open_goals@),
                goals_view(kept@) == unsolved(g0.take(i as int)),
            decreases self.open_goals.len() - i,
        {
            proof {
                assert(g0.take(i + 1).drop_last() =~= g0.take(i as int));
                assert(g0.take(i + 1).last() == self.open_goals@[i as int]@);
            }
            if !term_eq(&self.open_goals[i].equality.lhs, &self.open_goals[i].equality.rhs) {
                let g = self.open_goals[i].clone();
                proof {
                    assert(goals_view(kept@.push(g)) =~= goals_view(kept@).push(g@));
                }
                kept.push(g);
            }
            i += 1;
        }
        proof { assert(g0.take(i as int) =~= g0); }
        self.open_goals = kept;
        self.is_solved = self.open_goals.len() == 0;
        proof {
            assert(goals_view(self.open_goals@).len() == self.open_goals@.len());
        }
        self.is_solved
    }
}

/// The domains of mathematics the engine works in.
#[derive(Debug, Clone, Copy, PartialEq, Eq, Hash, Structural)]
pub enum MathDomain {
    AbstractAlgebra,
    BooleanLogic,
    SymbolicCalculus,
    SetTheory,
    ComplexNumbers,
    LinearAlgebra,
    OrderTheory,
    MultivariableCalculus,
    Probability,
    Unified,
}

pub open spec fn domain_name(d: MathDomain) -> Seq<char> {
    match d {
        MathDomain::AbstractAlgebra => "Abstract Algebra"@,
        MathDomain::BooleanLogic => "Boolean Logic"@,
        MathDomain::SymbolicCalculus => "Symbolic Calculus"@,
        MathDomain::SetTheory => "Set Theory"@,
        MathDomain::ComplexNumbers => "Complex Numbers"@,
        MathDomain::LinearAlgebra => "Linear Algebra"@,
        MathDomain::OrderTheory => "Order Theory"@,
        MathDomain::MultivariableCalculus => "Multivariable Calculus"@,
        MathDomain::Probability => "Probability Theory"@,
        MathDomain::Unified => "Unified Multidomain"@,
    }
}

impl MathDomain {
    /// The human-readable name of the domain.
    pub fn name(&self) -> (r: &'static str)
        ensures r@ == domain_name(*self),
    {
        match self {
            MathDomain::AbstractAlgebra => "Abstract Algebra",
            MathDomain::BooleanLogic => "Boolean Logic",
            MathDomain::SymbolicCalculus => "Symbolic Calculus",
            MathDomain::SetTheory => "Set Theory",
            MathDomain::ComplexNumbers => "Complex Numbers",
            MathDomain::LinearAlgebra => "Linear Algebra",
            MathDomain::OrderTheory => "Order Theory",
            MathDomain::MultivariableCalculus => "Multivariable Calculus",
            MathDomain::Probability => "Probability Theory",
            MathDomain::Unified => "Unified Multidomain",
        }
    }
}

/// A library of named rewrite rules (axioms and established lemmas).
#[derive(Debug)]
pub struct AxiomLibrary {
    pub rules: Vec<(String, Equality)>,
}

pub open spec fn rules_view(v: Seq<(String, Equality)>) -> Seq<(Seq<char>, SEquality)> {
    Seq::new(v.len(), |i: int| (v[i].0@, v[i].1@))
}

impl View for AxiomLibrary {
    type V = Seq<(Seq<char>, SEquality)>;

    open spec fn view(&self) -> Seq<(Seq<char>, SEquality)> {
        rules_view(self.rules@)
    }
}

impl Clone for AxiomLibrary {
    fn clone(&self) -> (r: Self)
        ensures r@ == self@,
    {
        let mut out: Vec<(String, Equality)> = Vec::new();
        let mut i: usize = 0;
        while i < self.rules.len()
            invariant
                i <= self.rules.len(),
                out@.len() == i,
                forall|j: int| 0 <= j < i ==> #[trigger] out@[j].0@ == self.rules@[j].0@ && out@[j].1@ == self.rules@[j].1@,
            decreases self.rules.len() - i,
        {
            out.push((self.rules[i].0.clone(), self.rules[i].1.clone()));
            i += 1;
        }
        let r = AxiomLibrary { rules: out };
        assert(r@ =~= self@);
        r
    }
}

/// The rule of the first entry named `name`.
pub open spec fn find_rule(rules: Seq<(Seq<char>, SEquality)>, name: Seq<char>) -> Option<SEquality>
    decreases rules.len(),
{
    if rules.len() == 0 {
        None
    } else if rules[0].0 == name {
        Some(rules[0].1)
    } else {
        find_rule(rules.drop_first(), name)
    }
}

/// Whether some entry is named `name`.
pub open spec fn has_rule(rules: Seq<(Seq<char>, SEquality)>, name: Seq<char>) -> bool {
    exists|i: int| 0 <= i < rules.len() && #[trigger] rules[i].0 == name
}

impl AxiomLibrary {
    /// A library without rules.
    pub fn empty() -> (r: AxiomLibrary)
        ensures r@ == Seq::<(Seq<char>, SEquality)>::empty(),
    {
        let r = AxiomLibrary { rules: Vec::new() };
        assert(r@ =~= Seq::<(Seq<char>, SEquality)>::empty());
        r
    }

    /// Appends a rule under `name`.
    pub fn add_rule(&mut self, name: &str, rule: Equality)
        ensures final(self)@ == old(self)@.push((name@, rule@)),
    {
        self.rules.push((owned(name), rule));
        assert(self@ =~= old(self)@.push((name@, rule@)));
    }

    /// The index of the first rule named `name`, if any.
    #[verifier::loop_isolation(false)]
    pub(crate) fn position(&self, name: &str) -> (r: Option<usize>)
        ensures
            r matches Some(i) ==> self@[i as int].0 == name@ && forall|j: int| 0 <= j < i ==> #[trigger] self@[j].0 != name@,
            match r {
                Some(i) => i < self.rules@.len() && find_rule(self@, name@) == Some(self@[i as int].1),
                None => find_rule(self@, name@) is None,
            },
            r is None <==> !has_rule(self@, name@),
    {
        assert(self@.skip(0) =~= self@);
        let mut i: usize = 0;
        while i < self.rules.len()
            invariant
                i <= self.rules.len(),
                find_rule(self@, name@) == find_rule(self@.skip(i as int), name@),
                forall|j: int| 0 <= j < i ==> #[trigger] self@[j].0 != name@,
            decreases self.rules.len() - i,
        {
            proof {
                assert(self@.skip(i as int)[0] == self@[i as int]);
                assert(self@.skip(i as int).drop_first() =~= self@.skip(i + 1));
            }
            if str_eq(self.rules[i].0.as_str(), name) {
                return Some(i);
            }
            i += 1;
        }
        proof {
            assert(self@.skip(i as int) =~= Seq::empty());
        }
        None
    }

    /// Whether some rule is named `name`.
    pub fn contains_rule(&self, name: &str) -> (r: bool)
        ensures r == has_rule(self@, name@),
    {
        self.position(name).is_some()
    }
}


/// The equality read right to left.
pub open spec fn flip_eq(e: SEquality) -> SEquality {
    SEquality { lhs: e.rhs, rhs: e.lhs }
}

pub open spec fn zero_term() -> STerm {
    STerm::Const("0"@)
}

/// A state one step on: new goals, one more history entry, the given depth.
pub open spec fn advance(s: SProofState, goals: Seq<SGoal>, entry: (STactic, Seq<char>), depth: int) -> SProofState {
    SProofState { initial: s.initial, goals, history: s.history.push(entry), is_solved: s.is_solved, depth: depth as usize }
}

pub open spec fn refl_desc(g: SGoal) -> Seq<char> {
    "Solved #"@ + nat_digits(g.id as nat) + ": "@ + display_eq(g.eq) + " via rfl"@
}

pub open spec fn rewrite_desc(side: Seq<char>, name: Seq<char>, e: SEquality) -> Seq<char> {
    "Rewrote "@ + side + " via ["@ + name + "]: "@ + display_eq(e)
}

pub open spec fn eval_desc(side: Seq<char>, e: SEquality) -> Seq<char> {
    "Evaluated arithmetic on "@ + side + ": "@ + display_eq(e)
}

pub open spec fn split_desc(a: STerm, b: STerm) -> Seq<char> {
    "Split zero product: ("@ + display(a) + " = 0) and ("@ + display(b) + " = 0)"@
}

/// Whether a term is a product `A * B` (or `A · B`).
pub open spec fn is_product(t: STerm) -> bool {
    t is Func && (t->Func_0 == "*"@ || t->Func_0 == "·"@) && t->Func_1.len() == 2
}

/// The first goal replaced by `ne`, through a step recorded as `entry`, then checked.
pub open spec fn replace_first(s: SProofState, ne: SEquality, entry: (STactic, Seq<char>)) -> SProofState {
    checked(advance(s, seq![SGoal { id: s.goals[0].id, eq: ne }] + s.goals.drop_first(), entry, s.depth + 1))
}

/// A goal `A * B = 0` split into `A = 0` and, numbered 1000 higher and put last, `B = 0`.
pub open spec fn split_spec(s: SProofState) -> Result<SProofState, Seq<char>> {
    let g = s.goals[0];
    if g.eq.rhs == zero_term() && is_product(g.eq.lhs) {
        let a = g.eq.lhs->Func_1[0];
        let b = g.eq.lhs->Func_1[1];
        let ga = SGoal { id: g.id, eq: SEquality { lhs: a, rhs: zero_term() } };
        let gb = SGoal { id: (g.id + 1000) as usize, eq: SEquality { lhs: b, rhs: zero_term() } };
        Ok(checked(advance(s, seq![ga] + s.goals.drop_first() + seq![gb], (STactic::ZeroProductSplit, split_desc(a, b)), s.depth + 1)))
    } else {
        Err("ZeroProductSplit requires (A * B) = 0"@)
    }
}

/// What applying a tactic to the first open goal gives: the next state, or why the tactic does not apply.
pub open spec fn apply_spec(s: SProofState, t: STactic, rules: Seq<(Seq<char>, SEquality)>) -> Result<SProofState, Seq<char>> {
    if s.goals.len() == 0 {
        Ok(s)
    } else {
        let g = s.goals[0];
        let rest = s.goals.drop_first();
        match t {
            STactic::Reflexivity => if g.eq.lhs == g.eq.rhs {
                Ok(checked(advance(s, rest, (STactic::Reflexivity, refl_desc(g)), s.depth as int)))
            } else {
                Err("Reflexivity failed: LHS does not match RHS"@)
            },
            STactic::Symmetry => {
                let f = flip_eq(g.eq);
                Ok(advance(s, seq![SGoal { id: g.id, eq: f }] + rest, (STactic::Symmetry, "Applied symm: "@ + display_eq(f)), s.depth + 1))
            },
            STactic::RewriteLhs(name) => match find_rule(rules, name) {
                None => Err("Unknown rewrite rule"@),
                Some(rule) => {
                    let rw = rewrites(g.eq.lhs, rule);
                    if rw.len() == 0 {
                        Err("Rewrite rule did not match LHS"@)
                    } else {
                        let ne = SEquality { lhs: rw[0], rhs: g.eq.rhs };
                        Ok(replace_first(s, ne, (STactic::RewriteLhs(name), rewrite_desc("LHS"@, name, ne))))
                    }
                },
            },
            STactic::RewriteRhs(name) => match find_rule(rules, name) {
                None => Err("Unknown rewrite rule"@),
                Some(rule) => {
                    let rw = rewrites(g.eq.rhs, rule);
                    if rw.len() == 0 {
                        Err("Rewrite rule did not match RHS"@)
                    } else {
                        let ne = SEquality { lhs: g.eq.lhs, rhs: rw[0] };
                        Ok(replace_first(s, ne, (STactic::RewriteRhs(name), rewrite_desc("RHS"@, name, ne))))
                    }
                },
            },
            STactic::EvalArithmeticLhs => {
                let rw = eval_step(g.eq.lhs);
                if rw.len() == 0 {
                    Err("No arithmetic operations to evaluate on LHS"@)
                } else {
                    let ne = SEquality { lhs: rw[0], rhs: g.eq.rhs };
                    Ok(replace_first(s, ne, (STactic::EvalArithmeticLhs, eval_desc("LHS"@, ne))))
                }
            },
            STactic::EvalArithmeticRhs => {
                let rw = eval_step(g.eq.rhs);
                if rw.len() == 0 {
                    Err("No arithmetic operations to evaluate on RHS"@)
                } else {
                    let ne = SEquality { lhs: g.eq.lhs, rhs: rw[0] };
                    Ok(replace_first(s, ne, (STactic::EvalArithmeticRhs, eval_desc("RHS"@, ne))))
                }
            },
            STactic::Transitivity(_) => Err("Transitivity unsupported in minimal verifier"@),
            STactic::ApplyAxiom(_) => Err("Direct axiom application unsupported in minimal verifier"@),
            STactic::TransposeToZero => if g.eq.rhs != zero_term() {
                let ne = SEquality { lhs: STerm::Func("-"@, seq![g.eq.lhs, g.eq.rhs]), rhs: zero_term() };
                Ok(replace_first(s, ne, (STactic::TransposeToZero, "Transposed equation to zero: "@ + display_eq(ne))))
            } else {
                Err("Equation already has zero RHS"@)
            },
            STactic::ZeroProductSplit => split_spec(s),
        }
    }
}

/// Whether a tactic, applied to an open goal, counts one more step of depth.
pub open spec fn raises_depth(t: STactic) -> bool {
    !(t is Reflexivity || t is Transitivity || t is ApplyAxiom)
}

/// The machine limits under which applying `t` cannot overflow a counter: with an open goal,
/// the depth must have room for one more step where the tactic counts one, and splitting a
/// product needs room for the number of the second goal.
pub open spec fn apply_fits(s: SProofState, t: STactic) -> bool {
    s.goals.len() > 0 ==> {
        &&& raises_depth(t) ==> s.depth < usize::MAX
        &&& t is ZeroProductSplit ==> s.goals[0].id + 1000 <= usize::MAX
    }
}

fn build_state(state: &ProofState, goals: Vec<Goal>, tac: Tactic, desc: String, depth: usize) -> (r: ProofState)
    ensures r@ == advance(state@, goals_view(goals@), (tac@, desc@), depth as int),
{
    let mut hist = clone_history(&state.proof_history);
    let ghost h0 = hist@;
    hist.push((tac, desc));
    let r = ProofState {
        initial_equality: clone_opt_eq(&state.initial_equality),
        open_goals: goals,
        proof_history: hist,
        is_solved: state.is_solved,
        depth,
    };
    assert(hist_view(r.proof_history@) =~= hist_view(h0).push((tac@, desc@)));
    r
}

/// The goals after the first, behind `first`.
fn goals_with_first(first: Goal, v: &Vec<Goal>) -> (r: Vec<Goal>)
    requires v@.len() > 0,
    ensures goals_view(r@) == seq![first@] + goals_view(v@).drop_first(),
{
    let mut out: Vec<Goal> = Vec::new();
    out.push(first);
    let mut i: usize = 1;
    while i < v.len()
        invariant
            1 <= i <= v.len(),
            goals_view(out@) == seq![first@] + goals_view(v@).subrange(1, i as int),
        decreases v.len() - i,
    {
        let g = v[i].clone();
        proof {
            assert(goals_view(out@.push(g)) =~= goals_view(out@).push(g@));
            assert(goals_view(v@).subrange(1, i + 1) =~= goals_view(v@).subrange(1, i as int).push(g@));
        }
        out.push(g);
        i += 1;
    }
    assert(goals_view(v@).subrange(1, i as int) =~= goals_view(v@).drop_first());
    out
}

fn rest_goals(v: &Vec<Goal>) -> (r: Vec<Goal>)
    requires v@.len() > 0,
    ensures goals_view(r@) == goals_view(v@).drop_first(),
{
    let mut out: Vec<Goal> = Vec::new();
    let mut i: usize = 1;
    while i < v.len()
        invariant
            1 <= i <= v.len(),
            goals_view(out@) == goals_view(v@).subrange(1, i as int),
        decreases v.len() - i,
    {
        let g = v[i].clone();
        proof {
            assert(goals_view(out@.push(g)) =~= goals_view(out@).push(g@));
            assert(goals_view(v@).subrange(1, i + 1) =~= goals_view(v@).subrange(1, i as int).push(g@));
        }
        out.push(g);
        i += 1;
    }
    proof {
        assert(goals_view(v@).subrange(1, i as int) =~= goals_view(v@).drop_first());
        if v@.len() == 1 {
            assert(goals_view(out@) =~= goals_view(v@).drop_first());
        }
    }
    out
}

fn refl_description(g: &Goal) -> (r: String)
    ensures r@ == refl_desc(g@),
{
    let mut s = owned("Solved #");
    s.append(nat_str(g.id as u64).as_str());
    s.append(": ");
    s.append(g.equality.to_string().as_str());
    s.append(" via rfl");
    s
}

fn rewrite_description(side: &str, name: &str, e: &Equality) -> (r: String)
    ensures r@ == rewrite_desc(side@, name@, e@),
{
    let mut s = owned("Rewrote ");
    s.append(side);
    s.append(" via [");
    s.append(name);
    s.append("]: ");
    s.append(e.to_string().as_str());
    s
}

fn eval_description(side: &str, e: &Equality) -> (r: String)
    ensures r@ == eval_desc(side@, e@),
{
    let mut s = owned("Evaluated arithmetic on ");
    s.append(side);
    s.append(": ");
    s.append(e.to_string().as_str());
    s
}

fn labelled(label: &str, e: &Equality) -> (r: String)
    ensures r@ == label@ + display_eq(e@),
{
    let mut s = owned(label);
    s.append(e.to_string().as_str());
    s
}

fn zero() -> (r: Term)
    ensures r@ == zero_term(),
{
    Term::constant("0")
}

/// Replaces the first goal by `ne`, records the step and checks for completion.
fn replace_first_goal(state: &ProofState, ne: Equality, tac: Tactic, desc: String) -> (r: ProofState)
    requires state@.goals.len() > 0, state@.depth < usize::MAX,
    ensures r@ == replace_first(state@, ne@, (tac@, desc@)),
{
    let g = Goal { id: state.open_goals[0].id, equality: ne };
    let goals = goals_with_first(g, &state.open_goals);
    let mut ns = build_state(state, goals, tac, desc, state.depth + 1);
    ns.check_solved();
    ns
}

/// Whether an executable result is the one the specification gives.
pub open spec fn result_matches(r: Result<ProofState, &'static str>, spec: Result<SProofState, Seq<char>>) -> bool {
    match r {
        Ok(ns) => spec == Ok::<SProofState, Seq<char>>(ns@),
        Err(e) => spec == Err::<SProofState, Seq<char>>(e@),
    }
}

fn tac_reflexivity(state: &ProofState, axioms: &AxiomLibrary) -> (r: Result<ProofState, &'static str>)
    requires state@.goals.len() > 0,
    ensures result_matches(r, apply_spec(state@, STactic::Reflexivity, axioms@)),
{
    let target = &state.open_goals[0];
    assert(target@ == state@.goals[0]);
    if term_eq(&target.equality.lhs, &target.equality.rhs) {
        let desc = refl_description(target);
        let rest = rest_goals(&state.open_goals);
        let mut ns = build_state(state, rest, Tactic::Reflexivity, desc, state.depth);
        ns.check_solved();
        Ok(ns)
    } else {
        Err("Reflexivity failed: LHS does not match RHS")
    }
}

fn tac_symmetry(state: &ProofState, axioms: &AxiomLibrary) -> (r: Result<ProofState, &'static str>)
    requires state@.goals.len() > 0, state@.depth < usize::MAX,
    ensures result_matches(r, apply_spec(state@, STactic::Symmetry, axioms@)),
{
    let target = &state.open_goals[0];
    assert(target@ == state@.goals[0]);
    let flipped = target.equality.flip();
    let desc = labelled("Applied symm: ", &flipped);
    let g = Goal { id: target.id, equality: flipped };
    let goals = goals_with_first(g, &state.open_goals);
    Ok(build_state(state, goals, Tactic::Symmetry, desc, state.depth + 1))
}

fn tac_rewrite(state: &ProofState, rule_name: &String, lhs_side: bool, axioms: &AxiomLibrary) -> (r: Result<ProofState, &'static str>)
    requires state@.goals.len() > 0, state@.depth < usize::MAX,
    ensures
        result_matches(r, apply_spec(state@,
            if lhs_side { STactic::RewriteLhs(rule_name@) } else { STactic::RewriteRhs(rule_name@) }, axioms@)),
{
    let target = &state.open_goals[0];
    assert(target@ == state@.goals[0]);
    match axioms.position(rule_name.as_str()) {
        Some(i) => {
            let side = if lhs_side { &target.equality.lhs } else { &target.equality.rhs };
            let rewrites = apply_rewrite(side, &axioms.rules[i].1);
            if rewrites.len() > 0 {
                assert(rewrites@[0]@ == terms_view(rewrites@)[0]);
                if lhs_side {
                    let ne = Equality::new(rewrites[0].clone(), target.equality.rhs.clone());
                    let desc = rewrite_description("LHS", rule_name.as_str(), &ne);
                    Ok(replace_first_goal(state, ne, Tactic::RewriteLhs(rule_name.clone()), desc))
                } else {
                    let ne = Equality::new(target.equality.lhs.clone(), rewrites[0].clone());
                    let desc = rewrite_description("RHS", rule_name.as_str(), &ne);
                    Ok(replace_first_goal(state, ne, Tactic::RewriteRhs(rule_name.clone()), desc))
                }
            } else {
                assert(terms_view(rewrites@).len() == 0);
                if lhs_side {
                    Err("Rewrite rule did not match LHS")
                } else {
                    Err("Rewrite rule did not match RHS")
                }
            }
        },
        None => Err("Unknown rewrite rule"),
    }
}

fn tac_eval(state: &ProofState, lhs_side: bool, axioms: &AxiomLibrary) -> (r: Result<ProofState, &'static str>)
    requires state@.goals.len() > 0, state@.depth < usize::MAX,
    ensures
        result_matches(r, apply_spec(state@,
            if lhs_side { STactic::EvalArithmeticLhs } else { STactic::EvalArithmeticRhs }, axioms@)),
{
    let target = &state.open_goals[0];
    assert(target@ == state@.goals[0]);
    let side = if lhs_side { &target.equality.lhs } else { &target.equality.rhs };
    let rewrites = eval_step_arithmetic(side);
    if rewrites.len() > 0 {
        assert(rewrites@[0]@ == terms_view(rewrites@)[0]);
        if lhs_side {
            let ne = Equality::new(rewrites[0].clone(), target.equality.rhs.clone());
            let desc = eval_description("LHS", &ne);
            Ok(replace_first_goal(state, ne, Tactic::EvalArithmeticLhs, desc))
        } else {
            let ne = Equality::new(target.equality.lhs.clone(), rewrites[0].clone());
            let desc = eval_description("RHS", &ne);
            Ok(replace_first_goal(state, ne, Tactic::EvalArithmeticRhs, desc))
        }
    } else {
        assert(terms_view(rewrites@).len() == 0);
        if lhs_side {
            Err("No arithmetic operations to evaluate on LHS")
        } else {
            Err("No arithmetic operations to evaluate on RHS")
        }
    }
}

fn tac_transpose(state: &ProofState, axioms: &AxiomLibrary) -> (r: Result<ProofState, &'static str>)
    requires state@.goals.len() > 0, state@.depth < usize::MAX,
    ensures result_matches(r, apply_spec(state@, STactic::TransposeToZero, axioms@)),
{
    let target = &state.open_goals[0];
    assert(target@ == state@.goals[0]);
    let z = zero();
    if !term_eq(&target.equality.rhs, &z) {
        let new_lhs = func2("-", target.equality.lhs.clone(), target.equality.rhs.clone());
        let ne = Equality::new(new_lhs, z);
        let desc = labelled("Transposed equation to zero: ", &ne);
        Ok(replace_first_goal(state, ne, Tactic::TransposeToZero, desc))
    } else {
        Err("Equation already has zero RHS")
    }
}

fn split_goals(state: &ProofState, a: &Term, b: &Term) -> (r: ProofState)
    requires state@.goals.len() > 0, state@.depth < usize::MAX, state@.goals[0].id + 1000 <= usize::MAX,
    ensures ({
        let g = state@.goals[0];
        let ga = SGoal { id: g.id, eq: SEquality { lhs: a@, rhs: zero_term() } };
        let gb = SGoal { id: (g.id + 1000) as usize, eq: SEquality { lhs: b@, rhs: zero_term() } };
        r@ == checked(advance(state@, seq![ga] + state@.goals.drop_first() + seq![gb],
            (STactic::ZeroProductSplit, split_desc(a@, b@)), state@.depth + 1))
    }),
{
    let id = state.open_goals[0].id;
    let ga = Goal { id, equality: Equality::new(a.clone(), zero()) };
    let gb = Goal { id: id + 1000, equality: Equality::new(b.clone(), zero()) };
    let mut goals = goals_with_first(ga, &state.open_goals);
    let ghost g0 = goals@;
    goals.push(gb);
    proof { assert(goals_view(goals@) =~= goals_view(g0).push(gb@)); }
    let mut desc = owned("Split zero product: (");
    desc.append(a.to_string().as_str());
    desc.append(" = 0) and (");
    desc.append(b.to_string().as_str());
    desc.append(" = 0)");
    assert(desc@ == split_desc(a@, b@));
    let ghost gv = goals_view(goals@);
    assert(gv == seq![ga@] + state@.goals.drop_first() + seq![gb@]);
    assert(ga@ == SGoal { id: state@.goals[0].id, eq: SEquality { lhs: a@, rhs: zero_term() } });
    assert(gb@ == SGoal { id: (state@.goals[0].id + 1000) as usize, eq: SEquality { lhs: b@, rhs: zero_term() } });
    let mut ns = build_state(state, goals, Tactic::ZeroProductSplit, desc, state.depth + 1);
    ns.check_solved();
    ns
}

fn tac_split(state: &ProofState, axioms: &AxiomLibrary) -> (r: Result<ProofState, &'static str>)
    requires state@.goals.len() > 0, state@.depth < usize::MAX, state@.goals[0].id + 1000 <= usize::MAX,
    ensures result_matches(r, split_spec(state@)),
{
    let target = &state.open_goals[0];
    assert(target@ == state@.goals[0]);
    let z = zero();
    if term_eq(&target.equality.rhs, &z) {
        proof { lemma_view(target.equality.lhs); }
        match &target.equality.lhs {
            Term::Func(op, args) => {
                proof { lemma_view_func(target.equality.lhs); }
                if (str_eq(op.as_str(), "*") || str_eq(op.as_str(), "·")) && args.len() == 2 {
                    let ghost la = target.equality.lhs@->Func_1;
                    assert(la[0] == args@[0]@ && la[1] == args@[1]@);
                    return Ok(split_goals(state, &args[0], &args[1]));
                }
            },
            _ => {},
        }
    }
    Err("ZeroProductSplit requires (A * B) = 0")
}

/// The verifying kernel: applies tactics and enumerates the valid next steps of a proof.
pub struct FormalVerifier;

impl FormalVerifier {
    /// Applies a tactic to the first open goal of a proof state.
    pub fn apply_tactic(state: &ProofState, tactic: &Tactic, axioms: &AxiomLibrary) -> (r: Result<ProofState, &'static str>)
        requires apply_fits(state@, tactic@),
        ensures result_matches(r, apply_spec(state@, tactic@, axioms@)),
    {
        if state.open_goals.len() == 0 {
            return Ok(state.clone());
        }
        match tactic {
            Tactic::Reflexivity => tac_reflexivity(state, axioms),
            Tactic::Symmetry => tac_symmetry(state, axioms),
            Tactic::RewriteLhs(rule_name) => tac_rewrite(state, rule_name, true, axioms),
            Tactic::RewriteRhs(rule_name) => tac_rewrite(state, rule_name, false, axioms),
            Tactic::EvalArithmeticLhs => tac_eval(state, true, axioms),
            Tactic::EvalArithmeticRhs => tac_eval(state, false, axioms),
            Tactic::Transitivity(_) => Err("Transitivity unsupported in minimal verifier"),
            Tactic::ApplyAxiom(_) => Err("Direct axiom application unsupported in minimal verifier"),
            Tactic::TransposeToZero => tac_transpose(state, axioms),
            Tactic::ZeroProductSplit => tac_split(state, axioms),
        }
    }
}


// ---------------------------------------------------------------------------
// Enumerating the valid next steps
// ---------------------------------------------------------------------------

pub open spec fn succ_view(v: Seq<(Tactic, ProofState)>) -> Seq<(STactic, SProofState)> {
    Seq::new(v.len(), |i: int| (v[i].0@, v[i].1@))
}

pub open spec fn red_view(v: Seq<(String, Term)>) -> Seq<(Seq<char>, STerm)> {
    Seq::new(v.len(), |i: int| (v[i].0@, v[i].1@))
}

/// Every one-step rewrite of `t`, rule by rule, each with the name of its rule.
pub open spec fn reducts(rules: Seq<(Seq<char>, SEquality)>, t: STerm) -> Seq<(Seq<char>, STerm)>
    decreases rules.len(),
{
    if rules.len() == 0 {
        Seq::empty()
    } else {
        let last = rules.last();
        reducts(rules.drop_last(), t) + rewrites(t, last.1).map_values(|r: STerm| (last.0, r))
    }
}

/// The first index whose term is `t`, or -1.
pub open spec fn match_idx(r: Seq<(Seq<char>, STerm)>, t: STerm) -> int
    decreases r.len(),
{
    if r.len() == 0 {
        -1
    } else if r[0].1 == t {
        0
    } else {
        let k = match_idx(r.drop_first(), t);
        if k < 0 { -1 } else { k + 1 }
    }
}

/// The first pair, in order of the left list, of a left and a right rewrite giving the same term.
pub open spec fn pair_idx(l: Seq<(Seq<char>, STerm)>, r: Seq<(Seq<char>, STerm)>) -> Option<(int, int)>
    decreases l.len(),
{
    if l.len() == 0 {
        None
    } else {
        let j = match_idx(r, l[0].1);
        if j >= 0 {
            Some((0, j))
        } else {
            match pair_idx(l.drop_first(), r) {
                Some(p) => Some((p.0 + 1, p.1)),
                None => None,
            }
        }
    }
}

/// Whether the last step of a history is a symmetry.
pub open spec fn last_is_symmetry(h: Seq<(STactic, Seq<char>)>) -> bool {
    h.len() > 0 && h.last().0 is Symmetry
}

/// Whether a history holds a transposition to zero.
pub open spec fn has_transpose(h: Seq<(STactic, Seq<char>)>) -> bool {
    exists|i: int| 0 <= i < h.len() && (#[trigger] h[i]).0 is TransposeToZero
}

/// The step that applies `t` when it applies.
pub open spec fn step_if_ok(t: STactic, r: Result<SProofState, Seq<char>>) -> Seq<(STactic, SProofState)> {
    match r {
        Ok(ns) => seq![(t, ns)],
        Err(_) => Seq::empty(),
    }
}

/// Transposition (once per proof, when the right side is not 0) and zero-product splitting.
pub open spec fn structural_steps(s: SProofState, rules: Seq<(Seq<char>, SEquality)>) -> Seq<(STactic, SProofState)> {
    if s.goals.len() == 0 {
        Seq::empty()
    } else {
        let g = s.goals[0];
        let a = if g.eq.rhs != zero_term() && !has_transpose(s.history) {
            step_if_ok(STactic::TransposeToZero, apply_spec(s, STactic::TransposeToZero, rules))
        } else {
            Seq::empty()
        };
        let b = if g.eq.rhs == zero_term() && is_product(g.eq.lhs) {
            step_if_ok(STactic::ZeroProductSplit, apply_spec(s, STactic::ZeroProductSplit, rules))
        } else {
            Seq::empty()
        };
        a + b
    }
}

/// The state that closes the first goal by rewriting both sides to a common term; it is solved
/// when no other goal is left.
pub open spec fn confluence_state(s: SProofState, ln: Seq<char>, m: STerm, rn: Seq<char>) -> SProofState {
    let g = s.goals[0];
    let mid = SEquality { lhs: m, rhs: g.eq.rhs };
    let fin = SEquality { lhs: m, rhs: m };
    SProofState {
        initial: s.initial,
        goals: s.goals.drop_first(),
        history: s.history.push((STactic::RewriteLhs(ln), rewrite_desc("LHS"@, ln, mid)))
            .push((STactic::RewriteRhs(rn), rewrite_desc("RHS"@, rn, fin))),
        is_solved: s.goals.len() == 1,
        depth: (s.depth + 2) as usize,
    }
}

/// The moves rewriting the left side with one named rule.
pub open spec fn lhs_moves(s: SProofState, name: Seq<char>, rule: SEquality) -> Seq<(STactic, SProofState)> {
    let g = s.goals[0];
    rewrites(g.eq.lhs, rule).map_values(|t: STerm| {
        let ne = SEquality { lhs: t, rhs: g.eq.rhs };
        (STactic::RewriteLhs(name), replace_first(s, ne, (STactic::RewriteLhs(name), rewrite_desc("LHS"@, name, ne))))
    })
}

/// The moves rewriting the right side with one named rule.
pub open spec fn rhs_moves(s: SProofState, name: Seq<char>, rule: SEquality) -> Seq<(STactic, SProofState)> {
    let g = s.goals[0];
    rewrites(g.eq.rhs, rule).map_values(|t: STerm| {
        let ne = SEquality { lhs: g.eq.lhs, rhs: t };
        (STactic::RewriteRhs(name), replace_first(s, ne, (STactic::RewriteRhs(name), rewrite_desc("RHS"@, name, ne))))
    })
}

/// The rewriting moves of every rule in order, the left side before the right.
pub open spec fn rewrite_moves(s: SProofState, rules: Seq<(Seq<char>, SEquality)>) -> Seq<(STactic, SProofState)>
    decreases rules.len(),
{
    if rules.len() == 0 {
        Seq::empty()
    } else {
        let last = rules.last();
        rewrite_moves(s, rules.drop_last()) + lhs_moves(s, last.0, last.1) + rhs_moves(s, last.0, last.1)
    }
}

/// The moves evaluating arithmetic one step on either side.
pub open spec fn eval_moves(s: SProofState) -> Seq<(STactic, SProofState)> {
    let g = s.goals[0];
    eval_step(g.eq.lhs).map_values(|t: STerm| {
        let ne = SEquality { lhs: t, rhs: g.eq.rhs };
        (STactic::EvalArithmeticLhs, replace_first(s, ne, (STactic::EvalArithmeticLhs, eval_desc("LHS"@, ne))))
    }) + eval_step(g.eq.rhs).map_values(|t: STerm| {
        let ne = SEquality { lhs: g.eq.lhs, rhs: t };
        (STactic::EvalArithmeticRhs, replace_first(s, ne, (STactic::EvalArithmeticRhs, eval_desc("RHS"@, ne))))
    })
}

/// The rewriting moves on the first goal after `prev`: a closing pair of rewrites meeting in the
/// middle, put first, when there is one; otherwise every rewrite and every evaluation step.
pub open spec fn goal_moves(s: SProofState, rules: Seq<(Seq<char>, SEquality)>, prev: Seq<(STactic, SProofState)>) -> Seq<(STactic, SProofState)> {
    let l = reducts(rules, s.goals[0].eq.lhs);
    let r = reducts(rules, s.goals[0].eq.rhs);
    match pair_idx(l, r) {
        Some(p) => seq![(STactic::RewriteLhs(l[p.0].0), confluence_state(s, l[p.0].0, l[p.0].1, r[p.1].0))] + prev,
        None => prev + rewrite_moves(s, rules) + eval_moves(s),
    }
}

/// Every valid successor of a proof state: structural steps; then reflexivity, which ends the
/// list; otherwise symmetry (unless just applied), and either a closing pair of rewrites meeting
/// in the middle, put first, or every rewrite and every evaluation step.
pub open spec fn expand_spec(s: SProofState, rules: Seq<(Seq<char>, SEquality)>) -> Seq<(STactic, SProofState)> {
    let pre = structural_steps(s, rules);
    match apply_spec(s, STactic::Reflexivity, rules) {
        Ok(ns) => pre.push((STactic::Reflexivity, ns)),
        Err(_) => {
            let with_sym = if !last_is_symmetry(s.history) {
                pre + step_if_ok(STactic::Symmetry, apply_spec(s, STactic::Symmetry, rules))
            } else {
                pre
            };
            if s.goals.len() == 0 {
                with_sym
            } else {
                goal_moves(s, rules, with_sym)
            }
        },
    }
}

/// The machine limits under which expanding a state cannot overflow a counter: with an open
/// goal, room for one more step of depth; for a goal `A * B = 0`, room for the number of the
/// second goal of the split; and where the sides differ but meet after one rewrite each, room
/// for the two steps of the closing pair.
pub open spec fn expand_fits(s: SProofState, rules: Seq<(Seq<char>, SEquality)>) -> bool {
    s.goals.len() > 0 ==> {
        let g = s.goals[0];
        &&& s.depth < usize::MAX
        &&& g.eq.rhs == zero_term() && is_product(g.eq.lhs) ==> g.id + 1000 <= usize::MAX
        &&& g.eq.lhs != g.eq.rhs && pair_idx(reducts(rules, g.eq.lhs), reducts(rules, g.eq.rhs)) is Some
            ==> s.depth + 2 <= usize::MAX
    }
}

fn reducts_of(axioms: &AxiomLibrary, t: &Term) -> (r: Vec<(String, Term)>)
    ensures red_view(r@) == reducts(axioms@, t@),
{
    let mut out: Vec<(String, Term)> = Vec::new();
    let mut i: usize = 0;
    while i < axioms.rules.len()
        invariant
            i <= axioms.rules.len(),
            red_view(out@) == reducts(axioms@.take(i as int), t@),
        decreases axioms.rules.len() - i,
    {
        let rw = apply_rewrite(t, &axioms.rules[i].1);
        let ghost base = red_view(out@);
        let ghost name = axioms.rules@[i as int].0@;
        let mut k: usize = 0;
        while k < rw.len()
            invariant
                i < axioms.rules.len(),
                k <= rw.len(),
                name == axioms.rules@[i as int].0@,
                red_view(out@) == base + terms_view(rw@).take(k as int).map_values(|r: STerm| (name, r)),
            decreases rw.len() - k,
        {
            let e = (axioms.rules[i].0.clone(), rw[k].clone());
            proof {
                assert(red_view(out@.push(e)) =~= red_view(out@).push((e.0@, e.1@)));
                assert(terms_view(rw@).take(k + 1).map_values(|r: STerm| (name, r))
                    =~= terms_view(rw@).take(k as int).map_values(|r: STerm| (name, r)).push((name, rw@[k as int]@)));
            }
            out.push(e);
            k += 1;
        }
        proof {
            let rules = axioms@.take(i + 1);
            assert(rules.drop_last() =~= axioms@.take(i as int));
            assert(rules.last() == axioms@[i as int]);
            assert(terms_view(rw@).take(k as int) =~= terms_view(rw@));
        }
        i += 1;
    }
    proof { assert(axioms@.take(i as int) =~= axioms@); }
    out
}

fn find_match(r: &Vec<(String, Term)>, t: &Term) -> (j: Option<usize>)
    ensures
        match j {
            Some(j) => j as int == match_idx(red_view(r@), t@) && j < r@.len(),
            None => match_idx(red_view(r@), t@) == -1,
        },
{
    let ghost rv = red_view(r@);
    proof { lemma_match_idx_skip0(rv, t@); }
    let mut j: usize = 0;
    while j < r.len()
        invariant
            j <= r.len(),
            rv == red_view(r@),
            match_idx(rv, t@) == (if match_idx(rv.skip(j as int), t@) < 0 { -1 } else { match_idx(rv.skip(j as int), t@) + j }),
        decreases r.len() - j,
    {
        proof {
            assert(rv.skip(j as int)[0] == (r@[j as int].0@, r@[j as int].1@));
            assert(rv.skip(j as int).drop_first() =~= rv.skip(j + 1));
        }
        if term_eq(&r[j].1, t) {
            return Some(j);
        }
        j += 1;
    }
    proof { assert(rv.skip(j as int) =~= Seq::empty()); }
    None
}

proof fn lemma_match_idx_skip0(rv: Seq<(Seq<char>, STerm)>, t: STerm)
    ensures match_idx(rv, t) == (if match_idx(rv.skip(0), t) < 0 { -1 } else { match_idx(rv.skip(0), t) + 0 }),
{
    assert(rv.skip(0) =~= rv);
    if rv.len() > 0 {
        lemma_match_idx_range(rv, t);
    }
}

proof fn lemma_match_idx_range(rv: Seq<(Seq<char>, STerm)>, t: STerm)
    ensures -1 <= match_idx(rv, t) < rv.len(),
    decreases rv.len(),
{
    if rv.len() > 0 {
        lemma_match_idx_range(rv.drop_first(), t);
    }
}


pub open spec fn shift_pair(p: Option<(int, int)>, i: int) -> Option<(int, int)> {
    match p {
        Some(q) => Some((q.0 + i, q.1)),
        None => None,
    }
}

fn find_pair(l: &Vec<(String, Term)>, r: &Vec<(String, Term)>) -> (p: Option<(usize, usize)>)
    ensures
        match p {
            Some(q) => pair_idx(red_view(l@), red_view(r@)) == Some((q.0 as int, q.1 as int)) && q.0 < l@.len() && q.1 < r@.len(),
            None => pair_idx(red_view(l@), red_view(r@)) is None,
        },
{
    let ghost lv = red_view(l@);
    let ghost rv = red_view(r@);
    assert(lv.skip(0) =~= lv);
    let mut i: usize = 0;
    while i < l.len()
        invariant
            i <= l.len(),
            lv == red_view(l@),
            rv == red_view(r@),
            pair_idx(lv, rv) == shift_pair(pair_idx(lv.skip(i as int), rv), i as int),
        decreases l.len() - i,
    {
        proof {
            assert(lv.skip(i as int)[0] == (l@[i as int].0@, l@[i as int].1@));
            assert(lv.skip(i as int).drop_first() =~= lv.skip(i + 1));
        }
        match find_match(r, &l[i].1) {
            Some(j) => { return Some((i, j)); },
            None => {},
        }
        i += 1;
    }
    proof { assert(lv.skip(i as int) =~= Seq::empty()); }
    None
}

fn confluence(state: &ProofState, ln: &String, m: &Term, rn: &String) -> (r: ProofState)
    requires state@.goals.len() > 0, state@.depth + 2 <= usize::MAX,
    ensures r@ == confluence_state(state@, ln@, m@, rn@),
{
    let target = &state.open_goals[0];
    assert(target@ == state@.goals[0]);
    let mid = Equality::new(m.clone(), target.equality.rhs.clone());
    let fin = Equality::new(m.clone(), m.clone());
    let mut hist = clone_history(&state.proof_history);
    let ghost h0 = hist@;
    hist.push((Tactic::RewriteLhs(ln.clone()), rewrite_description("LHS", ln.as_str(), &mid)));
    let ghost h1 = hist@;
    hist.push((Tactic::RewriteRhs(rn.clone()), rewrite_description("RHS", rn.as_str(), &fin)));
    let rest = rest_goals(&state.open_goals);
    assert(goals_view(rest@).len() == rest@.len());
    let solved = rest.len() == 0;
    let r = ProofState {
        initial_equality: clone_opt_eq(&state.initial_equality),
        open_goals: rest,
        proof_history: hist,
        is_solved: solved,
        depth: state.depth + 2,
    };
    proof {
        assert(hist_view(h1) =~= hist_view(h0).push((STactic::RewriteLhs(ln@), rewrite_desc("LHS"@, ln@, mid@))));
        assert(hist_view(hist@) =~= hist_view(h1).push((STactic::RewriteRhs(rn@), rewrite_desc("RHS"@, rn@, fin@))));
    }
    r
}

proof fn lemma_succ_push(v: Seq<(Tactic, ProofState)>, e: (Tactic, ProofState))
    ensures succ_view(v.push(e)) == succ_view(v).push((e.0@, e.1@)),
{
    assert(succ_view(v.push(e)) =~= succ_view(v).push((e.0@, e.1@)));
}

/// Appends the moves rewriting one side of the first goal with rule `i`.
#[verifier::loop_isolation(false)]
fn push_side_moves(succ: &mut Vec<(Tactic, ProofState)>, state: &ProofState, axioms: &AxiomLibrary, i: usize, lhs_side: bool)
    requires state@.goals.len() > 0, state@.depth < usize::MAX, i < axioms.rules@.len(),
    ensures
        succ_view(final(succ)@) == succ_view(old(succ)@) + (if lhs_side {
            lhs_moves(state@, axioms@[i as int].0, axioms@[i as int].1)
        } else {
            rhs_moves(state@, axioms@[i as int].0, axioms@[i as int].1)
        }),
{
    let target = &state.open_goals[0];
    assert(target@ == state@.goals[0]);
    let name = &axioms.rules[i].0;
    let side = if lhs_side { &target.equality.lhs } else { &target.equality.rhs };
    let rw = apply_rewrite(side, &axioms.rules[i].1);
    let ghost base = succ_view(succ@);
    let ghost moves = if lhs_side {
        lhs_moves(state@, axioms@[i as int].0, axioms@[i as int].1)
    } else {
        rhs_moves(state@, axioms@[i as int].0, axioms@[i as int].1)
    };
    assert(moves.len() == rw@.len());
    let mut k: usize = 0;
    while k < rw.len()
        invariant
            k <= rw.len(),
            state@.goals.len() > 0, state@.depth < usize::MAX,
            moves.len() == rw@.len(),
            succ_view(succ@) == base + moves.take(k as int),
        decreases rw.len() - k,
    {
        assert(rw@[k as int]@ == terms_view(rw@)[k as int]);
        let e = if lhs_side {
            let ne = Equality::new(rw[k].clone(), target.equality.rhs.clone());
            let desc = rewrite_description("LHS", name.as_str(), &ne);
            let e = (Tactic::RewriteLhs(name.clone()), replace_first_goal(state, ne, Tactic::RewriteLhs(name.clone()), desc));
            assert(terms_view(rw@) == rewrites(state@.goals[0].eq.lhs, axioms@[i as int].1));
            assert(ne@ == SEquality { lhs: terms_view(rw@)[k as int], rhs: state@.goals[0].eq.rhs });
            assert(moves[k as int] == (e.0@, e.1@));
            e
        } else {
            let ne = Equality::new(target.equality.lhs.clone(), rw[k].clone());
            let desc = rewrite_description("RHS", name.as_str(), &ne);
            let e = (Tactic::RewriteRhs(name.clone()), replace_first_goal(state, ne, Tactic::RewriteRhs(name.clone()), desc));
            assert(terms_view(rw@) == rewrites(state@.goals[0].eq.rhs, axioms@[i as int].1));
            assert(ne@ == SEquality { lhs: state@.goals[0].eq.lhs, rhs: terms_view(rw@)[k as int] });
            assert(moves[k as int] == (e.0@, e.1@));
            e
        };
        proof {
            lemma_succ_push(succ@, e);
            assert(moves.take(k + 1) =~= moves.take(k as int).push(moves[k as int]));
        }
        succ.push(e);
        k += 1;
    }
    assert(moves.take(k as int) =~= moves);
}

/// Appends the moves evaluating one side of the first goal by one step.
#[verifier::loop_isolation(false)]
fn push_eval_moves(succ: &mut Vec<(Tactic, ProofState)>, state: &ProofState, lhs_side: bool)
    requires state@.goals.len() > 0, state@.depth < usize::MAX,
    ensures
        succ_view(final(succ)@) == succ_view(old(succ)@) + (if lhs_side {
            eval_step(state@.goals[0].eq.lhs).map_values(|t: STerm| {
                let ne = SEquality { lhs: t, rhs: state@.goals[0].eq.rhs };
                (STactic::EvalArithmeticLhs, replace_first(state@, ne, (STactic::EvalArithmeticLhs, eval_desc("LHS"@, ne))))
            })
        } else {
            eval_step(state@.goals[0].eq.rhs).map_values(|t: STerm| {
                let ne = SEquality { lhs: state@.goals[0].eq.lhs, rhs: t };
                (STactic::EvalArithmeticRhs, replace_first(state@, ne, (STactic::EvalArithmeticRhs, eval_desc("RHS"@, ne))))
            })
        }),
{
    let target = &state.open_goals[0];
    assert(target@ == state@.goals[0]);
    let side = if lhs_side { &target.equality.lhs } else { &target.equality.rhs };
    let rw = eval_step_arithmetic(side);
    let ghost base = succ_view(succ@);
    let ghost moves = if lhs_side {
        eval_step(state@.goals[0].eq.lhs).map_values(|t: STerm| {
            let ne = SEquality { lhs: t, rhs: state@.goals[0].eq.rhs };
            (STactic::EvalArithmeticLhs, replace_first(state@, ne, (STactic::EvalArithmeticLhs, eval_desc("LHS"@, ne))))
        })
    } else {
        eval_step(state@.goals[0].eq.rhs).map_values(|t: STerm| {
            let ne = SEquality { lhs: state@.goals[0].eq.lhs, rhs: t };
            (STactic::EvalArithmeticRhs, replace_first(state@, ne, (STactic::EvalArithmeticRhs, eval_desc("RHS"@, ne))))
        })
    };
    assert(moves.len() == rw@.len());
    let mut k: usize = 0;
    while k < rw.len()
        invariant
            k <= rw.len(),
            state@.goals.len() > 0, state@.depth < usize::MAX,
            moves.len() == rw@.len(),
            succ_view(succ@) == base + moves.take(k as int),
        decreases rw.len() - k,
    {
        assert(rw@[k as int]@ == terms_view(rw@)[k as int]);
        let e = if lhs_side {
            let ne = Equality::new(rw[k].clone(), target.equality.rhs.clone());
            let desc = eval_description("LHS", &ne);
            let e = (Tactic::EvalArithmeticLhs, replace_first_goal(state, ne, Tactic::EvalArithmeticLhs, desc));
            assert(terms_view(rw@) == eval_step(state@.goals[0].eq.lhs));
            assert(ne@ == SEquality { lhs: terms_view(rw@)[k as int], rhs: state@.goals[0].eq.rhs });
            assert(moves[k as int] == (e.0@, e.1@));
            e
        } else {
            let ne = Equality::new(target.equality.lhs.clone(), rw[k].clone());
            let desc = eval_description("RHS", &ne);
            let e = (Tactic::EvalArithmeticRhs, replace_first_goal(state, ne, Tactic::EvalArithmeticRhs, desc));
            assert(terms_view(rw@) == eval_step(state@.goals[0].eq.rhs));
            assert(ne@ == SEquality { lhs: state@.goals[0].eq.lhs, rhs: terms_view(rw@)[k as int] });
            assert(moves[k as int] == (e.0@, e.1@));
            e
        };
        proof {
            lemma_succ_push(succ@, e);
            assert(moves.take(k + 1) =~= moves.take(k as int).push(moves[k as int]));
        }
        succ.push(e);
        k += 1;
    }
    assert(moves.take(k as int) =~= moves);
}


fn history_has_transpose(h: &Vec<(Tactic, String)>) -> (r: bool)
    ensures r == has_transpose(hist_view(h@)),
{
    let mut i: usize = 0;
    while i < h.len()
        invariant
            i <= h.len(),
            forall|j: int| 0 <= j < i ==> (#[trigger] hist_view(h@)[j]).0 !is TransposeToZero,
        decreases h.len() - i,
    {
        match &h[i].0 {
            Tactic::TransposeToZero => {
                assert(hist_view(h@)[i as int].0 is TransposeToZero);
                return true;
            },
            _ => {},
        }
        i += 1;
    }
    false
}

fn last_is_symm(h: &Vec<(Tactic, String)>) -> (r: bool)
    ensures r == last_is_symmetry(hist_view(h@)),
{
    if h.len() == 0 {
        return false;
    }
    match &h[h.len() - 1].0 {
        Tactic::Symmetry => true,
        _ => false,
    }
}

fn structural(state: &ProofState, axioms: &AxiomLibrary) -> (r: Vec<(Tactic, ProofState)>)
    requires expand_fits(state@, axioms@),
    ensures succ_view(r@) == structural_steps(state@, axioms@),
{
    let mut successors: Vec<(Tactic, ProofState)> = Vec::new();
    assert(succ_view(successors@) =~= Seq::empty());
    if state.open_goals.len() > 0 {
        let target = &state.open_goals[0];
        assert(target@ == state@.goals[0]);
        let z = zero();
        if !term_eq(&target.equality.rhs, &z) && !history_has_transpose(&state.proof_history) {
            match FormalVerifier::apply_tactic(state, &Tactic::TransposeToZero, axioms) {
                Ok(next) => {
                    proof { lemma_succ_push(successors@, (Tactic::TransposeToZero, next)); }
                    successors.push((Tactic::TransposeToZero, next));
                },
                Err(_) => {},
            }
        }
        let ghost a = succ_view(successors@);
        proof { lemma_view(target.equality.lhs); }
        let mut product = false;
        if term_eq(&target.equality.rhs, &z) {
            match &target.equality.lhs {
                Term::Func(op, args) => {
                    proof { lemma_view_func(target.equality.lhs); }
                    product = (str_eq(op.as_str(), "*") || str_eq(op.as_str(), "·")) && args.len() == 2;
                },
                _ => {},
            }
        }
        if product {
            match FormalVerifier::apply_tactic(state, &Tactic::ZeroProductSplit, axioms) {
                Ok(next) => {
                    proof { lemma_succ_push(successors@, (Tactic::ZeroProductSplit, next)); }
                    successors.push((Tactic::ZeroProductSplit, next));
                },
                Err(_) => {},
            }
        }
        assert(succ_view(successors@) =~= structural_steps(state@, axioms@));
    }
    successors
}

#[verifier::loop_isolation(false)]
#[verifier::rlimit(40)]
#[verifier::spinoff_prover]
fn push_goal_moves(successors: &mut Vec<(Tactic, ProofState)>, state: &ProofState, axioms: &AxiomLibrary)
    requires
        state@.goals.len() > 0, expand_fits(state@, axioms@),
        state@.goals[0].eq.lhs != state@.goals[0].eq.rhs,
    ensures succ_view(final(successors)@) == goal_moves(state@, axioms@, succ_view(old(successors)@)),
{
    let ghost with_sym = succ_view(successors@);
    let target = &state.open_goals[0];
    assert(target@ == state@.goals[0]);
    let l = reducts_of(axioms, &target.equality.lhs);
    let r = reducts_of(axioms, &target.equality.rhs);
    match find_pair(&l, &r) {
        Some((i, j)) => {
            let ns = confluence(state, &l[i].0, &l[i].1, &r[j].0);
            let e = (Tactic::RewriteLhs(l[i].0.clone()), ns);
            proof {
                assert(red_view(l@)[i as int] == (l@[i as int].0@, l@[i as int].1@));
                assert(red_view(r@)[j as int] == (r@[j as int].0@, r@[j as int].1@));
                assert(succ_view(successors@.insert(0, e)) =~= seq![(e.0@, e.1@)] + succ_view(successors@));
            }
            successors.insert(0, e);
            return;
        },
        None => {},
    }
    let mut i: usize = 0;
    while i < axioms.rules.len()
        invariant
            i <= axioms.rules.len(),
            succ_view(successors@) == with_sym + rewrite_moves(state@, axioms@.take(i as int)),
        decreases axioms.rules.len() - i,
    {
        push_side_moves(successors, state, axioms, i, true);
        push_side_moves(successors, state, axioms, i, false);
        proof {
            let rules = axioms@.take(i + 1);
            assert(rules.drop_last() =~= axioms@.take(i as int));
            assert(rules.last() == axioms@[i as int]);
        }
        i += 1;
    }
    proof { assert(axioms@.take(i as int) =~= axioms@); }
    let ghost after_rw = succ_view(successors@);
    push_eval_moves(successors, state, true);
    push_eval_moves(successors, state, false);
    proof {
        assert(succ_view(successors@) =~= after_rw + eval_moves(state@));
    }
}

impl FormalVerifier {
    /// Every valid successor of a proof state, with the tactic that reaches it.
    #[verifier::loop_isolation(false)]
    pub fn expand_valid_transitions(state: &ProofState, axioms: &AxiomLibrary) -> (r: Vec<(Tactic, ProofState)>)
        requires expand_fits(state@, axioms@),
        ensures succ_view(r@) == expand_spec(state@, axioms@),
    {
        let mut successors = structural(state, axioms);
        let ghost pre = succ_view(successors@);
        match FormalVerifier::apply_tactic(state, &Tactic::Reflexivity, axioms) {
            Ok(next) => {
                proof { lemma_succ_push(successors@, (Tactic::Reflexivity, next)); }
                successors.push((Tactic::Reflexivity, next));
                return successors;
            },
            Err(_) => {},
        }
        if !last_is_symm(&state.proof_history) {
            match FormalVerifier::apply_tactic(state, &Tactic::Symmetry, axioms) {
                Ok(next) => {
                    proof { lemma_succ_push(successors@, (Tactic::Symmetry, next)); }
                    successors.push((Tactic::Symmetry, next));
                },
                Err(_) => {},
            }
        }
        let ghost with_sym = succ_view(successors@);
        proof {
            assert(with_sym =~= if !last_is_symmetry(state@.history) {
                pre + step_if_ok(STactic::Symmetry, apply_spec(state@, STactic::Symmetry, axioms@))
            } else {
                pre
            });
        }
        if state.open_goals.len() == 0 {
            return successors;
        }
        push_goal_moves(&mut successors, state, axioms);
        successors
    }
}


// ---------------------------------------------------------------------------
// Proof minimisation
// ---------------------------------------------------------------------------

/// Every goal is numbered at most `b`.
pub open spec fn ids_bounded(goals: Seq<SGoal>, b: int) -> bool {
    forall|i: int| 0 <= i < goals.len() ==> #[trigger] goals[i].id <= b
}

proof fn lemma_unsolved_bounded(g: Seq<SGoal>, b: int)
    requires ids_bounded(g, b),
    ensures ids_bounded(unsolved(g), b),
    decreases g.len(),
{
    if g.len() > 0 {
        lemma_unsolved_bounded(g.drop_last(), b);
        let r = unsolved(g.drop_last());
        assert(ids_bounded(r.push(g.last()), b)) by {
            assert forall|i: int| 0 <= i < r.push(g.last()).len() implies #[trigger] r.push(g.last())[i].id <= b by {
                if i < r.len() {
                    assert(r.push(g.last())[i] == r[i]);
                }
            }
        }
    }
}

proof fn lemma_checked_bounded(s: SProofState, b: int)
    requires ids_bounded(s.goals, b),
    ensures ids_bounded(checked(s).goals, b), checked(s).depth == s.depth,
{
    if s.goals.len() > 0 {
        lemma_unsolved_bounded(s.goals, b);
    }
}

/// One applied tactic raises the depth by at most one and the goal numbers by at most 1000.
pub proof fn lemma_apply_bounded(s: SProofState, t: STactic, rules: Seq<(Seq<char>, SEquality)>, k: int)
    requires
        s.depth <= k, k < usize::MAX,
        ids_bounded(s.goals, 1 + 1000 * k),
        1 + 1000 * (k + 1) <= usize::MAX,
        apply_spec(s, t, rules) is Ok,
    ensures
        apply_spec(s, t, rules)->Ok_0.depth <= k + 1,
        ids_bounded(apply_spec(s, t, rules)->Ok_0.goals, 1 + 1000 * (k + 1)),
{
    let b = 1 + 1000 * (k + 1);
    if s.goals.len() > 0 {
        let g = s.goals[0];
        let rest = s.goals.drop_first();
        assert(ids_bounded(rest, b));
        let first = |e: SEquality| seq![SGoal { id: g.id, eq: e }] + rest;
        assert(forall|e: SEquality| ids_bounded(#[trigger] first(e), b));
        match t {
            STactic::Reflexivity => {
                if g.eq.lhs == g.eq.rhs {
                    lemma_checked_bounded(advance(s, rest, (STactic::Reflexivity, refl_desc(g)), s.depth as int), b);
                }
            },
            STactic::Symmetry => {
                assert(ids_bounded(first(flip_eq(g.eq)), b));
            },
            STactic::ZeroProductSplit => {
                if g.eq.rhs == zero_term() && is_product(g.eq.lhs) {
                    let a = g.eq.lhs->Func_1[0];
                    let bb = g.eq.lhs->Func_1[1];
                    let ga = SGoal { id: g.id, eq: SEquality { lhs: a, rhs: zero_term() } };
                    let gb = SGoal { id: (g.id + 1000) as usize, eq: SEquality { lhs: bb, rhs: zero_term() } };
                    let goals = seq![ga] + rest + seq![gb];
                    assert(ids_bounded(goals, b)) by {
                        assert forall|i: int| 0 <= i < goals.len() implies #[trigger] goals[i].id <= b by {
                            if 0 < i < goals.len() - 1 {
                                assert(goals[i] == rest[i - 1]);
                            }
                        }
                    }
                    lemma_checked_bounded(advance(s, goals, (STactic::ZeroProductSplit, split_desc(a, bb)), s.depth + 1), b);
                }
            },
            _ => {
                let r = apply_spec(s, t, rules);
                if r is Ok {
                    let ns = r->Ok_0;
                    let e = ns.goals;
                    match t {
                        STactic::RewriteLhs(name) => {
                            let rule = find_rule(rules, name)->Some_0;
                            let ne = SEquality { lhs: rewrites(g.eq.lhs, rule)[0], rhs: g.eq.rhs };
                            lemma_checked_bounded(advance(s, first(ne), (STactic::RewriteLhs(name), rewrite_desc("LHS"@, name, ne)), s.depth + 1), b);
                        },
                        STactic::RewriteRhs(name) => {
                            let rule = find_rule(rules, name)->Some_0;
                            let ne = SEquality { lhs: g.eq.lhs, rhs: rewrites(g.eq.rhs, rule)[0] };
                            lemma_checked_bounded(advance(s, first(ne), (STactic::RewriteRhs(name), rewrite_desc("RHS"@, name, ne)), s.depth + 1), b);
                        },
                        STactic::EvalArithmeticLhs => {
                            let ne = SEquality { lhs: eval_step(g.eq.lhs)[0], rhs: g.eq.rhs };
                            lemma_checked_bounded(advance(s, first(ne), (STactic::EvalArithmeticLhs, eval_desc("LHS"@, ne)), s.depth + 1), b);
                        },
                        STactic::EvalArithmeticRhs => {
                            let ne = SEquality { lhs: g.eq.lhs, rhs: eval_step(g.eq.rhs)[0] };
                            lemma_checked_bounded(advance(s, first(ne), (STactic::EvalArithmeticRhs, eval_desc("RHS"@, ne)), s.depth + 1), b);
                        },
                        STactic::TransposeToZero => {
                            let ne = SEquality { lhs: STerm::Func("-"@, seq![g.eq.lhs, g.eq.rhs]), rhs: zero_term() };
                            lemma_checked_bounded(advance(s, first(ne), (STactic::TransposeToZero, "Transposed equation to zero: "@ + display_eq(ne)), s.depth + 1), b);
                        },
                        _ => {},
                    }
                }
            },
        }
    } else {
        assert(ids_bounded(s.goals, b));
    }
}


/// The index of the first two consecutive symmetry steps at or after `j`, or -1.
pub open spec fn symm_pair_from(h: Seq<(STactic, Seq<char>)>, j: int) -> int
    decreases h.len() - j,
{
    if j < 0 || j + 1 >= h.len() {
        -1
    } else if h[j].0 is Symmetry && h[j + 1].0 is Symmetry {
        j
    } else {
        symm_pair_from(h, j + 1)
    }
}

pub proof fn lemma_symm_pair_range(h: Seq<(STactic, Seq<char>)>, j: int)
    ensures
        symm_pair_from(h, j) == -1 || (j <= symm_pair_from(h, j) && symm_pair_from(h, j) + 1 < h.len()),
    decreases h.len() - j,
{
    if !(j < 0 || j + 1 >= h.len()) && !(h[j].0 is Symmetry && h[j + 1].0 is Symmetry) {
        lemma_symm_pair_range(h, j + 1);
    }
}

/// The history with pairs of consecutive symmetry steps removed, first pair first, until none is left.
pub open spec fn cancel_symm(h: Seq<(STactic, Seq<char>)>) -> Seq<(STactic, Seq<char>)>
    decreases h.len(),
{
    let i = symm_pair_from(h, 0);
    if i < 0 {
        h
    } else {
        proof { lemma_symm_pair_range(h, 0); }
        cancel_symm(h.remove(i + 1).remove(i))
    }
}

pub open spec fn tactics_of(h: Seq<(STactic, Seq<char>)>) -> Seq<STactic> {
    h.map_values(|e: (STactic, Seq<char>)| e.0)
}

/// The state after a tactic, when it applies.
#[verifier::opaque]
pub open spec fn apply_opt(s: SProofState, t: STactic, rules: Seq<(Seq<char>, SEquality)>) -> Option<SProofState> {
    match apply_spec(s, t, rules) {
        Ok(ns) => Some(ns),
        Err(_) => None,
    }
}

/// Applies the tactics in order; `None` as soon as one does not apply.
pub open spec fn replay(s: SProofState, ts: Seq<STactic>, rules: Seq<(Seq<char>, SEquality)>) -> Option<SProofState>
    decreases ts.len(),
{
    if ts.len() == 0 {
        Some(s)
    } else {
        match apply_opt(s, ts[0], rules) {
            Some(ns) => replay(ns, ts.drop_first(), rules),
            None => None,
        }
    }
}

/// Whether replaying the steps of `h` from the start proves `init`.
pub open spec fn proves(init: SEquality, h: Seq<(STactic, Seq<char>)>, rules: Seq<(Seq<char>, SEquality)>) -> bool {
    match replay(initial_state(init), tactics_of(h), rules) {
        Some(f) => f.is_solved,
        None => false,
    }
}

/// Tries dropping each of the first `i` steps, last first, keeping each drop that still proves `init`.
pub open spec fn drop_pass(init: SEquality, h: Seq<(STactic, Seq<char>)>, i: int, rules: Seq<(Seq<char>, SEquality)>) -> Seq<(STactic, Seq<char>)>
    decreases i,
{
    if i <= 0 || i > h.len() {
        h
    } else {
        let c = h.remove(i - 1);
        drop_pass(init, if proves(init, c, rules) { c } else { h }, i - 1, rules)
    }
}

/// What `prune_proof_history` returns.
pub open spec fn pruned_history(init: SEquality, h: Seq<(STactic, Seq<char>)>, rules: Seq<(Seq<char>, SEquality)>) -> Seq<(STactic, Seq<char>)> {
    let c = cancel_symm(h);
    drop_pass(init, c, c.len() as int, rules)
}

proof fn lemma_replay_step(s: SProofState, ts: Seq<STactic>, k: int, rules: Seq<(Seq<char>, SEquality)>)
    requires 0 <= k < ts.len(), replay(s, ts.take(k), rules) is Some,
    ensures
        replay(s, ts.take(k + 1), rules) == apply_opt(replay(s, ts.take(k), rules)->Some_0, ts[k], rules),
    decreases k,
{
    if k == 0 {
        assert(ts.take(1).drop_first() =~= Seq::<STactic>::empty());
        assert(ts.take(0) =~= Seq::<STactic>::empty());
        assert(ts.take(1)[0] == ts[0]);
        assert(replay(s, ts.take(0), rules) == Some(s));
        let r1 = apply_opt(s, ts[0], rules);
        if r1 is Some {
            assert(replay(r1->Some_0, Seq::<STactic>::empty(), rules) == Some(r1->Some_0));
        }
    } else {
        let s1 = apply_opt(s, ts[0], rules);
        assert(ts.take(k)[0] == ts[0]);
        assert(ts.take(k + 1)[0] == ts[0]);
        assert(ts.take(k).drop_first() =~= ts.drop_first().take(k - 1));
        assert(ts.take(k + 1).drop_first() =~= ts.drop_first().take(k));
        assert(s1 is Some);
        assert(replay(s, ts.take(k), rules) == replay(s1->Some_0, ts.drop_first().take(k - 1), rules));
        assert(replay(s, ts.take(k + 1), rules) == replay(s1->Some_0, ts.drop_first().take(k), rules));
        assert(ts.drop_first()[k - 1] == ts[k]);
        lemma_replay_step(s1->Some_0, ts.drop_first(), k - 1, rules);
    }
}

proof fn lemma_replay_fail(s: SProofState, ts: Seq<STactic>, k: int, rules: Seq<(Seq<char>, SEquality)>)
    requires 0 <= k <= ts.len(), replay(s, ts.take(k), rules) is None,
    ensures replay(s, ts, rules) is None,
    decreases k,
{
    if k > 0 {
        let s1 = apply_opt(s, ts[0], rules);
        assert(ts.take(k)[0] == ts[0]);
        if s1 is Some {
            assert(ts.take(k).drop_first() =~= ts.drop_first().take(k - 1));
            lemma_replay_fail(s1->Some_0, ts.drop_first(), k - 1, rules);
        }
    } else {
        assert(ts.take(0) =~= Seq::<STactic>::empty());
    }
}

/// Replays the steps of `h` from the start of a proof of `init`; whether they prove it.
#[verifier::loop_isolation(false)]
fn replays_to_proof(init: &Equality, h: &Vec<(Tactic, String)>, axioms: &AxiomLibrary) -> (r: bool)
    requires 1000 * h@.len() + 1001 <= usize::MAX,
    ensures r == proves(init@, hist_view(h@), axioms@),
{
    let ghost ts = tactics_of(hist_view(h@));
    let mut test_state = ProofState::new(init.clone());
    let ghost s0 = test_state@;
    assert(ts.take(0) =~= Seq::<STactic>::empty());
    let mut i: usize = 0;
    while i < h.len()
        invariant
            i <= h.len(),
            ts.len() == h@.len(),
            replay(s0, ts.take(i as int), axioms@) == Some(test_state@),
            test_state@.depth <= i,
            ids_bounded(test_state@.goals, 1 + 1000 * i),
        decreases h.len() - i,
    {
        proof {
            lemma_replay_step(s0, ts, i as int, axioms@);
            assert(ts[i as int] == h@[i as int].0@);
            reveal(apply_opt);
        }
        match FormalVerifier::apply_tactic(&test_state, &h[i].0, axioms) {
            Ok(next) => {
                proof { lemma_apply_bounded(test_state@, ts[i as int], axioms@, i as int); }
                test_state = next;
            },
            Err(_) => {
                proof { lemma_replay_fail(s0, ts, i + 1, axioms@); }
                return false;
            },
        }
        i += 1;
    }
    proof { assert(ts.take(i as int) =~= ts); }
    test_state.is_solved
}

impl FormalVerifier {
    /// Shortens a finished proof: cancels consecutive symmetry steps, then drops, from the last
    /// step to the first, every step whose removal still leaves a proof of `initial`.
    pub fn prune_proof_history(initial: &Equality, history: &Vec<(Tactic, String)>, axioms: &AxiomLibrary) -> (r: Vec<(Tactic, String)>)
        requires 1000 * history@.len() + 1001 <= usize::MAX,
        ensures hist_view(r@) == pruned_history(initial@, hist_view(history@), axioms@),
    {
        let mut pruned = clone_history(history);
        assert(pruned@.len() == hist_view(pruned@).len() && history@.len() == hist_view(history@).len());
        let mut changed = true;
        while changed
            invariant
                pruned@.len() <= history@.len(),
                1000 * history@.len() + 1001 <= usize::MAX,
                changed ==> cancel_symm(hist_view(pruned@)) == cancel_symm(hist_view(history@)),
                !changed ==> hist_view(pruned@) == cancel_symm(hist_view(history@)),
            decreases pruned@.len() + (if changed { 1int } else { 0int }),
        {
            changed = false;
            let ghost hv = hist_view(pruned@);
            let mut i: usize = 0;
            while i + 1 < pruned.len()
                invariant_except_break
                    hv == hist_view(pruned@),
                    i <= pruned@.len(),
                    pruned@.len() <= history@.len(),
                    1000 * history@.len() + 1001 <= usize::MAX,
                    symm_pair_from(hv, 0) == symm_pair_from(hv, i as int),
                    !changed,
                ensures
                    changed ==> hist_view(pruned@).len() < hv.len() && cancel_symm(hist_view(pruned@)) == cancel_symm(hv),
                    !changed ==> hist_view(pruned@) == hv && symm_pair_from(hv, 0) == -1,
                decreases pruned@.len() - i,
            {
                let is_pair = match (&pruned[i].0, &pruned[i + 1].0) {
                    (Tactic::Symmetry, Tactic::Symmetry) => true,
                    _ => false,
                };
                if is_pair {
                    proof { assert(symm_pair_from(hv, i as int) == i); }
                    pruned.remove(i + 1);
                    pruned.remove(i);
                    proof {
                        assert(hist_view(pruned@) =~= hv.remove(i + 1).remove(i as int));
                    }
                    changed = true;
                    break;
                }
                i += 1;
            }
            proof {
                if !changed {
                    assert(cancel_symm(hv) == hv);
                }
            }
        }
        let ghost c = hist_view(pruned@);
        let mut i = pruned.len();
        while i > 0
            invariant
                i <= pruned@.len(),
                pruned@.len() <= history@.len(),
                1000 * history@.len() + 1001 <= usize::MAX,
                drop_pass(initial@, hist_view(pruned@), i as int, axioms@) == drop_pass(initial@, c, c.len() as int, axioms@),
            decreases i,
        {
            i -= 1;
            let mut candidate = clone_history(&pruned);
            candidate.remove(i);
            proof {
                assert(hist_view(candidate@) =~= hist_view(pruned@).remove(i as int));
            }
            if replays_to_proof(initial, &candidate, axioms) {
                pruned = candidate;
            }
        }
        proof { assert(drop_pass(initial@, hist_view(pruned@), 0, axioms@) == hist_view(pruned@)); }
        pruned
    }
}

impl ProofState {
    /// Shortens the history of a solved proof to the steps that are needed, and sets the depth to its length.
    pub fn minimize(&mut self, axioms: &AxiomLibrary)
        requires 1000 * old(self).proof_history@.len() + 1001 <= usize::MAX,
        ensures
            final(self)@ == (match old(self)@.initial {
                Some(init) => if old(self)@.is_solved && old(self)@.history.len() > 0 {
                    let h = pruned_history(init, old(self)@.history, axioms@);
                    SProofState { history: h, depth: h.len() as usize, ..old(self)@ }
                } else {
                    old(self)@
                },
                None => old(self)@,
            }),
    {
        match &self.initial_equality {
            Some(initial) => {
                if self.is_solved && self.proof_history.len() > 0 {
                    let h = FormalVerifier::prune_proof_history(initial, &self.proof_history, axioms);
                    proof { assert(h@.len() == hist_view(h@).len()); }
                    self.proof_history = h;
                    self.depth = self.proof_history.len();
                }
            },
            None => {},
        }
    }
}

} // verus!
