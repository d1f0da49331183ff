use vstd::prelude::*;

verus! {

/// The thread-local generator type of the rand crate, carried opaquely:
/// nothing about its inside is stated or relied on.
#[verifier::external_type_specification]
#[verifier::external_body]
pub struct ExThreadRng(rand::rngs::ThreadRng);

/// Relies on rand::rng: hands out the thread-local random generator.
/// Nothing is promised of it; every draw made through it is specified only
/// by the bounds of the draw itself.
#[verifier::external_body]
pub(crate) fn fresh_rng() -> rand::rngs::ThreadRng {
    rand::rng()
}

/// Relies on Rng::random_range over the half-open range `0..n`: the draw
/// lies in that range. `n` must be positive, since the call refuses an
/// empty range. Which value comes back is left open: two draws on equal
/// arguments may differ.
#[verifier::external_body]
pub(crate) fn random_below(rng: &mut rand::rngs::ThreadRng, n: usize) -> (r: usize)
    requires
        n > 0,
    ensures
        r < n,
{
    rand::Rng::random_range(rng, 0..n)
}

} // verus!
