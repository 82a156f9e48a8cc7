//! The randomness the state machine draws on, from the `rand` crate.

use rand::rngs::StdRng;
use rand::seq::IndexedRandom;
use rand::Rng;
use vstd::prelude::*;

verus! {

/// The generator the selector draws from; seeded by the caller.
#[verifier::external_type_specification]
#[verifier::external_body]
pub struct ExStdRng(StdRng);

/// Relies on `rand::Rng::random_range` over a half-open range `lo..hi`: the
/// value lies in it (the call panics on an empty range, which `requires` rules out).
#[verifier::external_body]
pub(crate) fn random_in(rng: &mut StdRng, lo: u32, hi: u32) -> (r: u32)
    requires
        lo < hi,
    ensures
        lo <= r < hi,
{
    rng.random_range(lo..hi)
}

/// Relies on `rand::seq::IndexedRandom::choose`: `None` for an empty slice,
/// otherwise one of its items.
#[verifier::external_body]
pub(crate) fn choose_from<T: Copy>(rng: &mut StdRng, items: &Vec<T>) -> (r: Option<T>)
    ensures
        r is None <==> items@.len() == 0,
        r matches Some(x) ==> items@.contains(x),
{
    items.as_slice().choose(rng).copied()
}

} // verus!
