use vstd::prelude::*;

verus! {

/// Largest magnitude of a bound handed to `random_between`: within it the
/// generator's floating-point arithmetic is exact.
pub const RANDOM_BOUND_LIMIT: i64 = 1_048_576;

/// Relies on `macroquad::rand::gen_range` for `i64` (quad-rand's global
/// generator): it computes `low + (high - low) * u` in `f64` for a draw `u`
/// in `[0, 1)` and truncates toward zero. Within the bound limit that
/// arithmetic is exact, so the result never leaves `[low, high]`, and for a
/// non-negative `low` below `high` it stays below `high`.
#[verifier::external_body]
pub(crate) fn random_between(low: i64, high: i64) -> (r: i64)
    requires
        -RANDOM_BOUND_LIMIT <= low <= high <= RANDOM_BOUND_LIMIT,
    ensures
        low <= r <= high,
        0 <= low < high ==> r < high,
{
    macroquad::rand::gen_range(low, high)
}

} // verus!
