//! The pseudo-random source behind matrix generation and particle
//! placement: rand's `SmallRng`, reproducible from a 32-byte seed.
use vstd::prelude::*;
use rand::rngs::SmallRng;
use rand::{Rng, SeedableRng};

verus! {

/// rand's small, fast generator, carried through opaquely.
#[verifier::external_type_specification]
#[verifier::external_body]
pub struct ExSmallRng(SmallRng);

/// Relies on `SeedableRng::from_seed` for rand's `SmallRng`, which accepts
/// every 32-byte seed.
#[verifier::external_body]
pub(crate) fn seeded_rng(seed: [u8; 32]) -> (r: SmallRng) {
    SmallRng::from_seed(seed)
}

/// Relies on rand's `Rng::gen_range` on a half-open integer range: a value
/// in `[lo, hi)`. It panics on an empty range.
#[verifier::external_body]
pub(crate) fn draw_in_range(rng: &mut SmallRng, lo: i64, hi: i64) -> (r: i64)
    requires
        lo < hi,
    ensures
        lo <= r < hi,
{
    rng.gen_range(lo..hi)
}

} // verus!
