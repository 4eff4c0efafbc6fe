//! Random choices, drawn from the thread-local generator of `rand`.
use vstd::prelude::*;
use rand::Rng;

verus! {

/// A uniformly random index below `n`.
/// Trusted: calls `rand::Rng::gen_range(0..n)` on `rand::thread_rng()`; rand documents that the
/// value lies in the half-open range, and it panics only on an empty range, which `n > 0` rules out.
/// Which index comes back is chance and is not stated.
#[verifier::external_body]
pub(crate) fn random_index(n: usize) -> (r: usize)
    requires n > 0,
    ensures r < n,
{
    rand::thread_rng().gen_range(0..n)
}

/// A fair random boolean.
/// Trusted: calls `rand::Rng::gen::<bool>()` on `rand::thread_rng()`; nothing is stated of the value.
#[verifier::external_body]
pub(crate) fn random_bool() -> (r: bool)
{
    rand::thread_rng().gen::<bool>()
}

} // verus!
