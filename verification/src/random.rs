//! The boundary to the `rand` crate.
//!
//! Nothing here is proved: each function below forwards to `rand` and its
//! contract records what the crate's source guarantees of every outcome.

use rand::rngs::StdRng;
use rand::seq::SliceRandom;
use rand::Rng;
use vstd::prelude::*;

verus! {

/// `rand::rngs::StdRng`, the generator that the operators draw from. It is
/// carried through to `rand` and never looked into.
#[verifier::external_type_specification]
#[verifier::external_body]
pub struct ExStdRng(rand::rngs::StdRng);

/// Draws an index below `bound` with `Rng::gen_range(0..bound)`.
///
/// `gen_range` panics on an empty range, so `bound` must be positive; the
/// value it returns lies in the half-open range it was given.
#[verifier::external_body]
pub(crate) fn random_index(rng: &mut StdRng, bound: usize) -> (index: usize)
    requires
        bound > 0,
    ensures
        index < bound,
{
    rng.gen_range(0..bound)
}

/// Picks one symbol of `domain` with `SliceRandom::choose`.
///
/// `choose` returns `None` exactly for an empty slice and otherwise a
/// reference to one of the slice's elements.
#[verifier::external_body]
pub(crate) fn random_symbol(rng: &mut StdRng, domain: &Vec<char>) -> (symbol: Option<char>)
    ensures
        symbol is None <==> domain@.len() == 0,
        symbol matches Some(s) ==> domain@.contains(s),
{
    domain.choose(rng).copied()
}

} // verus!
