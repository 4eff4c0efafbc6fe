//! The textual rendering of a proof state for a language model.
use vstd::prelude::*;
use crate::strings::{owned, nat_str, nat_digits};
use crate::fol::display_eq;
use crate::kernel::{ProofState, SGoal, STactic, tactic_display};

verus! {

pub open spec fn goal_lines(goals: Seq<SGoal>) -> Seq<char>
    decreases goals.len(),
{
    if goals.len() == 0 {
        Seq::empty()
    } else {
        let g = goals.last();
        goal_lines(goals.drop_last()) + "  [GOAL] #"@ + nat_digits(g.id as nat) + ": "@ + display_eq(g.eq) + "\n"@
    }
}

pub open spec fn step_lines(h: Seq<(STactic, Seq<char>)>) -> Seq<char>
    decreases h.len(),
{
    if h.len() == 0 {
        Seq::empty()
    } else {
        let e = h.last();
        step_lines(h.drop_last()) + "  "@ + nat_digits(h.len()) + ". "@ + tactic_display(e.0) + " ("@ + e.1 + ")\n"@
    }
}

/// The prompt for a proof state: its goals, the steps applied so far if any, and the request.
pub open spec fn prompt_text(goals: Seq<SGoal>, h: Seq<(STactic, Seq<char>)>) -> Seq<char> {
    "You are an Autonomous Neurosymbolic Prover. Current Proof State:\n"@
        + goal_lines(goals)
        + (if h.len() == 0 { Seq::empty() } else { "Applied Steps so far:\n"@ + step_lines(h) })
        + "Propose the best formal rewrite tactic or lemma application to simplify and prove the goal.\n"@
}

/// Renders a proof state as a prompt.
pub fn format_proof_prompt(state: &ProofState) -> (r: String)
    ensures r@ == prompt_text(state@.goals, state@.history),
{
    let ghost gv = state@.goals;
    let ghost hv = state@.history;
    let mut prompt = owned("You are an Autonomous Neurosymbolic Prover. Current Proof State:\n");
    let ghost head = prompt@;
    let mut i: usize = 0;
    assert(gv.take(0) =~= Seq::<SGoal>::empty());
    while i < state.open_goals.len()
        invariant
            i <= state.open_goals.len(),
            gv == state@.goals,
            prompt@ == head + goal_lines(gv.take(i as int)),
        decreases state.open_goals.len() - i,
    {
        let goal = &state.open_goals[i];
        proof {
            assert(gv.take(i + 1).drop_last() =~= gv.take(i as int));
            assert(gv.take(i + 1).last() == goal@);
        }
        prompt.append("  [GOAL] #");
        prompt.append(nat_str(goal.id as u64).as_str());
        prompt.append(": ");
        prompt.append(goal.equality.to_string().as_str());
        prompt.append("\n");
        i += 1;
    }
    assert(gv.take(i as int) =~= gv);
    let ghost mid = prompt@;
    if state.proof_history.len() > 0 {
        prompt.append("Applied Steps so far:\n");
        let ghost head2 = prompt@;
        let mut k: usize = 0;
        assert(hv.take(0) =~= Seq::<(STactic, Seq<char>)>::empty());
        while k < state.proof_history.len()
            invariant
                k <= state.proof_history.len(),
                hv == state@.history,
                prompt@ == head2 + step_lines(hv.take(k as int)),
            decreases state.proof_history.len() - k,
        {
            proof {
                assert(hv.take(k + 1).drop_last() =~= hv.take(k as int));
                assert(hv.take(k + 1).last() == hv[k as int]);
                assert(hv[k as int] == (state.proof_history@[k as int].0@, state.proof_history@[k as int].1@));
            }
            prompt.append("  ");
            prompt.append(nat_str((k + 1) as u64).as_str());
            prompt.append(". ");
            prompt.append(state.proof_history[k].0.to_string().as_str());
            prompt.append(" (");
            prompt.append(state.proof_history[k].1.as_str());
            prompt.append(")\n");
            k += 1;
        }
        assert(hv.take(k as int) =~= hv);
    }
    prompt.append("Propose the best formal rewrite tactic or lemma application to simplify and prove the goal.\n");
    prompt
}

} // verus!
