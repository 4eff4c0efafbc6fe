//! How the policy network numbers the tactics it scores.
use vstd::prelude::*;
use crate::kernel::{Tactic, STactic, AxiomLibrary, has_rule};
use crate::fol::SEquality;

verus! {

/// The index of the first rule named `name`, or 0 when there is none.
pub open spec fn rule_position(rules: Seq<(Seq<char>, SEquality)>, name: Seq<char>) -> int {
    if has_rule(rules, name) {
        choose|i: int| 0 <= i < rules.len() && rules[i].0 == name
            && forall|j: int| 0 <= j < i ==> #[trigger] rules[j].0 != name
    } else {
        0
    }
}

/// The output slot of a tactic: 0 for reflexivity, 1 for symmetry, 2 to 13 for rewriting the
/// left side and 14 to 25 for rewriting the right side (by the rule's position modulo 12),
/// and 0 for every other tactic.
pub open spec fn tactic_slot(t: STactic, rules: Seq<(Seq<char>, SEquality)>) -> int {
    match t {
        STactic::Reflexivity => 0,
        STactic::Symmetry => 1,
        STactic::RewriteLhs(n) => 2 + rule_position(rules, n) % 12,
        STactic::RewriteRhs(n) => 14 + rule_position(rules, n) % 12,
        _ => 0,
    }
}

fn rule_index(axioms: &AxiomLibrary, name: &str) -> (r: usize)
    ensures r == rule_position(axioms@, name@),
{
    match axioms.position(name) {
        Some(i) => {
            proof {
                let c = choose|c: int| 0 <= c < axioms@.len() && axioms@[c].0 == name@
                    && forall|j: int| 0 <= j < c ==> #[trigger] axioms@[j].0 != name@;
                assert(0 <= i < axioms@.len() && axioms@[i as int].0 == name@);
                if c < i {
                    assert(axioms@[c].0 != name@);
                }
                if i < c {
                    assert(axioms@[i as int].0 != name@);
                }
            }
            i
        },
        None => 0,
    }
}

/// The output slot of the policy network that scores `tactic`.
pub fn tactic_to_index(tactic: &Tactic, axioms: &AxiomLibrary) -> (r: usize)
    ensures r == tactic_slot(tactic@, axioms@),
{
    match tactic {
        Tactic::Reflexivity => 0,
        Tactic::Symmetry => 1,
        Tactic::RewriteLhs(rule_name) => 2 + rule_index(axioms, rule_name.as_str()) % 12,
        Tactic::RewriteRhs(rule_name) => 14 + rule_index(axioms, rule_name.as_str()) % 12,
        _ => 0,
    }
}

} // verus!
