use rand::Rng;
use vstd::prelude::*;

verus! {

#[verifier::external_type_specification]
#[verifier::external_body]
pub struct ExStdRng(rand::rngs::StdRng);

/// Relies on `rand::SeedableRng::seed_from_u64`: a generator whose stream is
/// fixed by the seed.
#[verifier::external_body]
pub(crate) fn rng_from_seed(seed: u64) -> (r: rand::rngs::StdRng) {
    rand::SeedableRng::seed_from_u64(seed)
}

/// Relies on `rand::Rng::gen_ratio(1, 2)`: a fair coin, which never panics
/// for a numerator below a non-zero denominator.
#[verifier::external_body]
pub(crate) fn fair_coin(rng: &mut rand::rngs::StdRng) -> (r: bool) {
    rng.gen_ratio(1, 2)
}

/// Relies on `rand::Rng::gen::<bool>`: a uniformly drawn boolean.
#[verifier::external_body]
pub(crate) fn random_bool(rng: &mut rand::rngs::StdRng) -> (r: bool) {
    rng.gen::<bool>()
}

} // verus!
