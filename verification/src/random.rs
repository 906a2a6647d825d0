use vstd::prelude::*;
use rand::seq::SliceRandom;

verus! {

/// Puts the items of `v` in a random order.
///
/// Trusted: calls `shuffle` of `rand::seq::SliceRandom` with the generator
/// of `rand::thread_rng`. The contract claims what holds of every outcome:
/// the items are the same, each as often as before.
#[verifier::external_body]
pub(crate) fn shuffle(v: &mut Vec<usize>)
    ensures
        final(v)@.to_multiset() == old(v)@.to_multiset(),
{
    v.shuffle(&mut rand::thread_rng());
}

/// A random number.
///
/// Trusted: calls `rand::random`. Nothing is claimed of the number.
#[verifier::external_body]
pub(crate) fn random_u32() -> u32 {
    rand::random::<u32>()
}

} // verus!
