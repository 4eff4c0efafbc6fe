//! The handle on the Lean 4 compiler, and how its verdict is read from the compiler's output;
//! the compiler itself runs as an outside process.
use vstd::prelude::*;
use crate::vectordb::{contains_str, has_sub};

verus! {

/// Runs the Lean 4 compiler on exported proofs.
#[derive(Debug, Clone, Copy)]
pub struct Lean4Validator;

/// What a run of the Lean 4 compiler on a proof file established.
#[derive(Debug, Clone, Copy, PartialEq, Eq, Structural)]
pub enum LeanVerdict {
    /// The file compiled without an error and without an unproven step.
    Certified,
    /// The file compiled only by leaving a step unproven (`sorry`).
    UsesSorry,
    /// The compiler failed or reported an error.
    Rejected,
}

/// The warning with which Lean marks an unproven step.
pub open spec fn sorry_warning() -> Seq<char> {
    "warning: declaration uses `sorry`"@
}

/// The verdict on a compiler run: an unproven step anywhere in the output rejects the proof;
/// otherwise it is certified when the compiler succeeded and neither stream reports an error.
pub open spec fn lean_verdict(success: bool, stdout: Seq<char>, stderr: Seq<char>) -> LeanVerdict {
    if has_sub(stdout, sorry_warning()) || has_sub(stderr, sorry_warning()) {
        LeanVerdict::UsesSorry
    } else if success && !has_sub(stderr, "error:"@) && !has_sub(stdout, "error:"@) {
        LeanVerdict::Certified
    } else {
        LeanVerdict::Rejected
    }
}

impl Lean4Validator {
    /// Reads the verdict from a compiler run: whether it exited successfully and what it
    /// printed on its two streams.
    pub fn judge_compiler_output(success: bool, stdout: &str, stderr: &str) -> (r: LeanVerdict)
        ensures r == lean_verdict(success, stdout@, stderr@),
    {
        let sorry = "warning: declaration uses `sorry`";
        proof { assert(sorry@ == sorry_warning()); }
        if contains_str(stdout, sorry) || contains_str(stderr, sorry) {
            LeanVerdict::UsesSorry
        } else if success && !contains_str(stderr, "error:") && !contains_str(stdout, "error:") {
            LeanVerdict::Certified
        } else {
            LeanVerdict::Rejected
        }
    }
}

} // verus!
