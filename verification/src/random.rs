//! The seeded pseudo-random source. It comes from `rand` and
//! `rand_chacha`; what is said of it here is taken on trust.

use crate::maze::Direction;
use rand::seq::SliceRandom;
use rand::Rng;
use rand::SeedableRng;
use vstd::prelude::*;

verus! {

/// `rand_chacha::ChaCha20Rng`, taken as opaque.
#[verifier::external_type_specification]
#[verifier::external_body]
pub struct ExChaChaRng(rand_chacha::ChaCha20Rng);

/// `SeedableRng::seed_from_u64` for the ChaCha generator with twenty
/// rounds. Nothing is claimed of the generator it returns.
#[verifier::external_body]
pub(crate) fn rng_from_seed(seed: u64) -> (r: rand_chacha::ChaCha20Rng) {
    rand_chacha::ChaCha20Rng::seed_from_u64(seed)
}

/// `Rng::gen_range` on the half-open range from zero to `bound`, which
/// must not be empty: some number below `bound`.
#[verifier::external_body]
pub(crate) fn random_below(rng: &mut rand_chacha::ChaCha20Rng, bound: usize) -> (r: usize)
    requires
        bound > 0,
    ensures
        bound > r,
{
    rng.gen_range(0..bound)
}

/// `SliceRandom::shuffle` on the six directions: the same directions, each
/// as often as before, in some order.
#[verifier::external_body]
pub(crate) fn shuffle_directions(directions: &mut [Direction; 6], rng: &mut rand_chacha::ChaCha20Rng)
    ensures
        final(directions)@.to_multiset() == old(directions)@.to_multiset(),
{
    directions.shuffle(rng)
}

} // verus!
