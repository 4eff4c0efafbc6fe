//! The knowledge base of proven theorems.
use vstd::prelude::*;
use crate::strings::owned;
use crate::fol::{Equality, SEquality};
use crate::kernel::{AxiomLibrary, ProofState, SProofState};

verus! {

/// The current time in UTC, written in RFC 3339 form.
/// Trusted: calls `chrono::Utc::now().to_rfc3339()`; the value depends on the clock and nothing
/// is stated of it.
#[verifier::external_body]
fn now_rfc3339() -> (r: String)
{
    chrono::Utc::now().to_rfc3339()
}

/// A proven theorem kept in the knowledge base.
#[derive(Debug)]
pub struct VerifiedTheorem {
    pub name: String,
    pub statement: Equality,
    pub proof_length: usize,
    pub proof_state: ProofState,
    pub timestamp: String,
    pub lean_certified: bool,
}

pub struct SVerifiedTheorem {
    pub name: Seq<char>,
    pub statement: SEquality,
    pub proof_length: usize,
    pub proof_state: SProofState,
    pub timestamp: Seq<char>,
    pub lean_certified: bool,
}

impl View for VerifiedTheorem {
    type V = SVerifiedTheorem;

    open spec fn view(&self) -> SVerifiedTheorem {
        SVerifiedTheorem {
            name: self.name@,
            statement: self.statement@,
            proof_length: self.proof_length,
            proof_state: self.proof_state@,
            timestamp: self.timestamp@,
            lean_certified: self.lean_certified,
        }
    }
}

/// The knowledge base: the proven theorems in the order they were recorded.
#[derive(Debug)]
pub struct LemmaDatabase {
    pub theorems: Vec<VerifiedTheorem>,
}

pub open spec fn theorems_view(v: Seq<VerifiedTheorem>) -> Seq<SVerifiedTheorem> {
    Seq::new(v.len(), |i: int| v[i]@)
}

/// The rewrite rules the theorems give: each named by its theorem.
pub open spec fn theorem_rules(v: Seq<SVerifiedTheorem>) -> Seq<(Seq<char>, SEquality)> {
    Seq::new(v.len(), |i: int| (v[i].name, v[i].statement))
}

impl View for LemmaDatabase {
    type V = Seq<SVerifiedTheorem>;

    open spec fn view(&self) -> Seq<SVerifiedTheorem> {
        theorems_view(self.theorems@)
    }
}

impl LemmaDatabase {
    /// An empty knowledge base.
    pub fn new() -> (r: LemmaDatabase)
        ensures r@ == Seq::<SVerifiedTheorem>::empty(),
    {
        let r = LemmaDatabase { theorems: Vec::new() };
        assert(r@ =~= Seq::<SVerifiedTheorem>::empty());
        r
    }

    fn push_theorem(&mut self, name: &str, statement: Equality, proof_state: ProofState, certified: bool)
        ensures
            final(self)@.len() == old(self)@.len() + 1,
            final(self)@.take(old(self)@.len() as int) == old(self)@,
            final(self)@.last().name == name@,
            final(self)@.last().statement == statement@,
            final(self)@.last().proof_length == proof_state@.history.len(),
            final(self)@.last().proof_state == proof_state@,
            final(self)@.last().lean_certified == certified,
    {
        let ghost ps = proof_state@;
        let entry = VerifiedTheorem {
            name: owned(name),
            statement,
            proof_length: proof_state.proof_history.len(),
            proof_state,
            timestamp: now_rfc3339(),
            lean_certified: certified,
        };
        assert(entry@.proof_length == ps.history.len());
        let ghost before = self.theorems@;
        self.theorems.push(entry);
        assert(self@ =~= theorems_view(before).push(entry@));
        assert(self@.take(before.len() as int) =~= theorems_view(before));
    }

    /// Records a proven theorem, stamped with the current time and not yet certified by Lean.
    pub fn record_theorem(&mut self, name: &str, statement: Equality, proof_state: ProofState)
        ensures
            final(self)@.len() == old(self)@.len() + 1,
            final(self)@.take(old(self)@.len() as int) == old(self)@,
            final(self)@.last().name == name@,
            final(self)@.last().statement == statement@,
            final(self)@.last().proof_length == proof_state@.history.len(),
            final(self)@.last().proof_state == proof_state@,
            !final(self)@.last().lean_certified,
    {
        self.push_theorem(name, statement, proof_state, false);
    }

    /// Admits a theorem after its Lean check: refused, leaving the base as it was, when Lean is
    /// available and did not certify the proof; otherwise recorded, marked certified as Lean
    /// found it. Returns whether the theorem was admitted.
    pub fn admit_checked_theorem(
        &mut self,
        name: &str,
        statement: Equality,
        proof_state: ProofState,
        lean_available: bool,
        certified: bool,
    ) -> (r: bool)
        ensures
            r == !(lean_available && !certified),
            !r ==> final(self)@ == old(self)@,
            r ==> ({
                &&& final(self)@.len() == old(self)@.len() + 1
                &&& final(self)@.take(old(self)@.len() as int) == old(self)@
                &&& final(self)@.last().name == name@
                &&& final(self)@.last().statement == statement@
                &&& final(self)@.last().proof_length == proof_state@.history.len()
                &&& final(self)@.last().proof_state == proof_state@
                &&& final(self)@.last().lean_certified == certified
            }),
    {
        if lean_available && !certified {
            return false;
        }
        self.push_theorem(name, statement, proof_state, certified);
        true
    }

    /// Appends the theorems, in order, to a rule library, each under its name.
    pub fn augment_axioms(&self, lib: &mut AxiomLibrary)
        ensures final(lib)@ == old(lib)@ + theorem_rules(self@),
    {
        let ghost start = lib@;
        let mut i: usize = 0;
        while i < self.theorems.len()
            invariant
                i <= self.theorems.len(),
                lib@ == start + theorem_rules(self@).take(i as int),
            decreases self.theorems.len() - i,
        {
            let thm = &self.theorems[i];
            lib.add_rule(thm.name.as_str(), thm.statement.clone());
            proof {
                assert(theorem_rules(self@).take(i + 1) =~= theorem_rules(self@).take(i as int).push((thm.name@, thm.statement@)));
            }
            i += 1;
        }
        assert(theorem_rules(self@).take(i as int) =~= theorem_rules(self@));
    }
}

} // verus!
