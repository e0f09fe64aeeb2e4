//! The random-number generator the protocols draw from, held opaque: nothing
//! is promised of a random draw beyond well-formedness, so every proof holds
//! for every outcome.

use vstd::prelude::*;

verus! {

#[verifier::external_type_specification]
#[verifier::external_body]
pub struct ExStdRng(rand::rngs::StdRng);

/// Relies on `ark_std::test_rng`: a seeded generator for deterministic runs.
#[verifier::external_body]
pub fn new_test_rng() -> rand::rngs::StdRng {
    ark_std::test_rng()
}

/// Relies on `rand::Rng::gen` for `u8`: some byte; nothing more is promised
/// of a random draw.
#[verifier::external_body]
pub fn rand_byte(rng: &mut rand::rngs::StdRng) -> u8 {
    rand::Rng::gen(rng)
}

/// A vector of `n` random bytes.
pub fn rand_bytes(rng: &mut rand::rngs::StdRng, n: usize) -> (r: Vec<u8>)
    ensures
        r@.len() == n,
{
    let mut out: Vec<u8> = Vec::new();
    let mut i: usize = 0;
    while i < n
        invariant
            out@.len() == i,
            i <= n,
        decreases n - i,
    {
        out.push(rand_byte(rng));
        i = i + 1;
    }
    out
}

} // verus!
