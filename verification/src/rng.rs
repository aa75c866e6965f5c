//! Randomness for blinding factors, asset-code seeds and signing keys,
//! drawn from a ChaCha stream cipher. Nothing is promised of a draw:
//! every caller's contract holds for every value that comes back.

use vstd::prelude::*;

verus! {

#[verifier::external_type_specification]
#[verifier::external_body]
pub struct ExChaCha20Rng(rand_chacha::ChaCha20Rng);

/// Relies on rand_core::SeedableRng::seed_from_u64, implemented for
/// rand_chacha::ChaCha20Rng: builds a generator from a 64-bit seed.
#[verifier::external_body]
pub fn rng_from_seed(seed: u64) -> (r: rand_chacha::ChaCha20Rng) {
    <rand_chacha::ChaCha20Rng as rand_core::SeedableRng>::seed_from_u64(seed)
}

/// Relies on rand_core::RngCore::next_u64, implemented for
/// rand_chacha::ChaCha20Rng: the next 64 bits of the stream. The draw
/// depends on the generator's state, so nothing is stated of it.
#[verifier::external_body]
pub fn rng_next(rng: &mut rand_chacha::ChaCha20Rng) -> (r: u64) {
    rand_core::RngCore::next_u64(rng)
}

} // verus!
