//! Sizes of proof states, by which a search step counts as a simplification.
use vstd::prelude::*;
use crate::fol::size;
use crate::kernel::{ProofState, SGoal};

verus! {

/// The number of term nodes in the open goals, both sides of each.
pub open spec fn goals_size(goals: Seq<SGoal>) -> int
    decreases goals.len(),
{
    if goals.len() == 0 {
        0
    } else {
        goals_size(goals.drop_last()) + size(goals.last().eq.lhs) + size(goals.last().eq.rhs)
    }
}

proof fn lemma_goals_size_prefix(goals: Seq<SGoal>, i: int)
    requires 0 <= i <= goals.len(),
    ensures goals_size(goals.take(i)) <= goals_size(goals),
    decreases goals.len() - i,
{
    if i < goals.len() {
        lemma_goals_size_prefix(goals, i + 1);
        assert(goals.take(i + 1).drop_last() =~= goals.take(i));
    } else {
        assert(goals.take(i) =~= goals);
    }
}

/// The number of term nodes in the open goals of a state.
pub fn state_ast_size(state: &ProofState) -> (r: usize)
    requires goals_size(state@.goals) <= usize::MAX,
    ensures r == goals_size(state@.goals),
{
    let ghost gs = state@.goals;
    let mut total: usize = 0;
    let mut i: usize = 0;
    while i < state.open_goals.len()
        invariant
            i <= state.open_goals@.len(),
            gs == state@.goals,
            gs.len() == state.open_goals@.len(),
            goals_size(gs) <= usize::MAX,
            total == goals_size(gs.take(i as int)),
        decreases state.open_goals@.len() - i,
    {
        proof {
            assert(gs.take(i + 1).drop_last() =~= gs.take(i as int));
            assert(gs.take(i + 1).last() == gs[i as int]);
            assert(gs[i as int] == state.open_goals@[i as int]@);
            lemma_goals_size_prefix(gs, i + 1);
        }
        let g = &state.open_goals[i];
        let a = g.equality.lhs.size();
        let b = g.equality.rhs.size();
        total = total + a + b;
        i += 1;
    }
    proof { assert(gs.take(i as int) =~= gs); }
    total
}

} // verus!
