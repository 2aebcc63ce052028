use vstd::prelude::*;

verus! {

/// The random source the game draws from: rand's small, fast generator.
#[verifier::external_type_specification]
#[verifier::external_body]
pub struct ExSmallRng(rand::rngs::SmallRng);


/// Relies on `rand::Rng::gen_range` over `0..n`: a value below `n`
/// (it panics on an empty range, so `n` is positive).
#[verifier::external_body]
pub(crate) fn random_below(rng: &mut rand::rngs::SmallRng, n: usize) -> (r: usize)
    requires
        n > 0,
    ensures
        r < n,
{
    rand::Rng::gen_range(rng, 0..n)
}

} // verus!
