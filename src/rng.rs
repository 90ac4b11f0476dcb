use rand::rngs::StdRng;
use rand::{Rng, SeedableRng};
use vstd::prelude::*;

verus! {

/// The first `n` values of type `u64` drawn from `StdRng::seed_from_u64(seed)`.
pub uninterp spec fn std_rng_u64_draws(seed: u64, n: nat) -> Seq<u64>;

/// The first value of type `i32` drawn from `StdRng::seed_from_u64(seed)`.
pub uninterp spec fn std_rng_first_i32(seed: u64) -> i32;

/// Relies on rand's `StdRng::seed_from_u64` and `Rng::gen::<u64>`: a generator
/// seeded with a fixed value yields a sequence that depends on the seed alone
/// (rand_core documents a change of `seed_from_u64` as value-breaking).
#[verifier::external_body]
pub(crate) fn seeded_u64_draws(seed: u64, n: usize) -> (r: Vec<u64>)
    ensures
        r@ == std_rng_u64_draws(seed, n as nat),
        r@.len() == n,
{
    let mut rng = StdRng::seed_from_u64(seed);
    let mut r = Vec::with_capacity(n);
    for _ in 0..n {
        r.push(rng.gen::<u64>());
    }
    r
}

/// Relies on rand's `StdRng::seed_from_u64` and `Rng::gen::<i32>`: the first
/// draw of a generator seeded with a fixed value depends on the seed alone.
#[verifier::external_body]
pub(crate) fn seeded_i32_draw(seed: u64) -> (r: i32)
    ensures
        r == std_rng_first_i32(seed),
{
    StdRng::seed_from_u64(seed).gen::<i32>()
}

/// Relies on rand's `StdRng::from_entropy` and `Rng::gen::<i32>`: any `i32`
/// may come back. `from_entropy` panics only when the operating system gives
/// no entropy.
#[verifier::external_body]
pub(crate) fn entropy_i32_draw() -> (r: i32) {
    StdRng::from_entropy().gen::<i32>()
}

} // verus!
