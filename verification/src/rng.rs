//! Trusted wrappers around the `rand` crate. Nothing is promised of a
//! random value itself; each contract states only what holds of every
//! outcome, and the callers are verified for every such outcome.

use vstd::prelude::*;
use rand::seq::SliceRandom;

verus! {

/// Relies on rand::random: returns an arbitrary 64-bit value.
#[verifier::external_body]
pub(crate) fn random_u64() -> u64 {
    rand::random::<u64>()
}

/// Relies on rand::seq::SliceRandom::shuffle (with rand::thread_rng):
/// reorders the elements in place by swaps, so the multiset of elements
/// is unchanged.
#[verifier::external_body]
pub(crate) fn shuffle_indices(v: &mut Vec<usize>)
    ensures
        final(v)@.to_multiset() == old(v)@.to_multiset(),
{
    v.shuffle(&mut rand::thread_rng());
}

/// Relies on rand::seq::SliceRandom::choose (with rand::thread_rng):
/// returns None exactly when the slice is empty, otherwise one of its
/// elements.
#[verifier::external_body]
pub(crate) fn choose_move(v: &Vec<u16>) -> (r: Option<u16>)
    ensures
        r is Some <==> v@.len() > 0,
        r matches Some(m) ==> v@.contains(m),
{
    v.choose(&mut rand::thread_rng()).copied()
}

} // verus!
