use vstd::prelude::*;

verus! {

#[verifier::external_type_specification]
#[verifier::external_body]
pub struct ExThreadRng(rand::rngs::ThreadRng);

/// Relies on `rand::rng`: a handle on the thread-local generator. Nothing is
/// known of what it will produce.
#[verifier::external_body]
pub(crate) fn thread_rng() -> (r: rand::rngs::ThreadRng) {
    rand::rng()
}

/// Relies on `rand::Rng::random_range` over `0..bound`: a uniform value of the
/// range, which holds something when `bound` is positive.
#[verifier::external_body]
pub(crate) fn draw_below(rng: &mut rand::rngs::ThreadRng, bound: u32) -> (r: u32)
    requires
        0 < bound,
    ensures
        r < bound,
{
    rand::Rng::random_range(rng, 0..bound)
}

} // verus!
