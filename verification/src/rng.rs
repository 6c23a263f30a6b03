//! Deterministic per-thread random generation, as the workloads use it: a
//! generator seeded from the thread id, drawn from behind trusted wrappers.
//! A draw depends on the generator's hidden state, so no wrapper promises
//! anything about the values; the workloads are verified for every outcome.
use vstd::prelude::*;

use rand::Rng;
use rand::SeedableRng;

verus! {

#[verifier::external_type_specification]
#[verifier::external_body]
pub struct ExStdRng(rand::rngs::StdRng);

/// Relies on rand's `StdRng::seed_from_u64`: a generator determined by the
/// seed.
#[verifier::external_body]
pub fn rng_from_seed(seed: u64) -> rand::rngs::StdRng {
    rand::rngs::StdRng::seed_from_u64(seed)
}

/// Relies on rand's `Rng::gen::<u32>`: a draw advancing the generator.
#[verifier::external_body]
pub fn gen_u32(rng: &mut rand::rngs::StdRng) -> u32 {
    rng.gen()
}

/// Relies on rand's `Rng::gen::<i32>`: a draw advancing the generator.
#[verifier::external_body]
pub fn gen_i32(rng: &mut rand::rngs::StdRng) -> i32 {
    rng.gen()
}

/// Relies on rand's `Rng::gen::<usize>`: a draw advancing the generator.
#[verifier::external_body]
pub fn gen_usize(rng: &mut rand::rngs::StdRng) -> usize {
    rng.gen()
}

/// Relies on rand's `Rng::gen::<bool>`: a draw advancing the generator.
#[verifier::external_body]
pub fn gen_bool(rng: &mut rand::rngs::StdRng) -> bool {
    rng.gen()
}

/// Relies on rand's `thread_rng` sampling the `Alphanumeric` distribution:
/// `take(len)` yields exactly `len` characters, so the result has length
/// `len`; the characters themselves are random.
#[verifier::external_body]
pub fn random_alnum_string(len: usize) -> (r: String)
    ensures
        r@.len() == len,
{
    rand::thread_rng().sample_iter(&rand::distributions::Alphanumeric).take(len).map(
        char::from,
    ).collect()
}

} // verus!
