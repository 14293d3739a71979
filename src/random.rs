//! The game's source of randomness.
use vstd::prelude::*;

verus! {

/// The largest bound that `random_below` accepts: below it every draw is exact.
pub const RANDOM_BOUND_MAX: usize = 0x20_0000;

/// Relies on macroquad::rand::gen_range (quad-rand) for `usize`: it scales a 32-bit draw
/// `k` to `n * k / 2^32`, which for `n <= 2^21` is computed exactly and truncated, so the
/// result lies in `[0, n)`.
#[verifier::external_body]
pub(crate) fn random_below(n: usize) -> (r: usize)
    requires
        0 < n <= RANDOM_BOUND_MAX,
    ensures
        r < n,
{
    macroquad::rand::gen_range(0usize, n)
}

} // verus!
