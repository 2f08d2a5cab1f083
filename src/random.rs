use vstd::prelude::*;
use rand::Rng;

verus! {

/// rand's per-thread generator, carried through opaquely.
#[verifier::external_type_specification]
#[verifier::external_body]
pub struct ExThreadRng(rand::rngs::ThreadRng);

/// Relies on rand::Rng::gen_range over a half-open range, which returns a
/// value in `[lo, hi)` and panics on an empty range.
#[verifier::external_body]
pub(crate) fn draw_range(rng: &mut rand::rngs::ThreadRng, lo: i64, hi: i64) -> (r: i64)
    requires
        lo < hi,
    ensures
        lo <= r < hi,
{
    rng.gen_range(lo..hi)
}

/// Relies on rand::Rng::gen_ratio(1, 2): a fair coin.
#[verifier::external_body]
pub(crate) fn draw_coin(rng: &mut rand::rngs::ThreadRng) -> (r: bool) {
    rng.gen_ratio(1, 2)
}

} // verus!
