//! The symbolic policy's measure of how far a goal is from solved.
use vstd::prelude::*;
use crate::fol::{Term, size};

verus! {

/// A policy that ranks proof steps by how much they shrink the goal.
#[derive(Debug, Clone, Copy, Default)]
pub struct SymbolicNeuralPolicy;

impl SymbolicNeuralPolicy {
    pub fn new() -> (r: SymbolicNeuralPolicy) {
        SymbolicNeuralPolicy
    }

    /// The number of nodes of a term.
    pub fn term_complexity(term: &Term) -> (r: usize)
        requires size(term@) <= usize::MAX,
        ensures r == size(term@),
    {
        term.size()
    }
}

} // verus!
