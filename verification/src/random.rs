//! The random source, from the `rand` crate. Nothing in this file is proved:
//! each function states what the crate's documentation says of the call it
//! makes, and the rest of the library is verified against those statements
//! for every value that a draw may return.

use rand::rngs::OsRng;
use rand::rngs::StdRng;
use rand::Rng;
use rand::SeedableRng;
use vstd::prelude::*;

verus! {

/// `rand::rngs::StdRng`, the generator that the library draws from. Its state
/// is hidden: nothing is known of the next value but what each draw states.
#[verifier::external_type_specification]
#[verifier::external_body]
pub struct ExStdRng(rand::rngs::StdRng);

/// `SeedableRng::from_rng` for `StdRng`, fed from `rand::rngs::OsRng`: a
/// generator seeded by the operating system, or `None` where the system
/// hands back an error in place of a seed. Nothing is claimed of which of the
/// two comes back, nor of the generator.
#[verifier::external_body]
pub(crate) fn system_rng() -> Option<StdRng> {
    StdRng::from_rng(OsRng).ok()
}

/// `Rng::gen_range(low, high)` for `u32`: some value in the range from `low`
/// up to, but not including, `high`. The call panics when `low >= high`, so
/// the range must not be empty.
#[verifier::external_body]
pub(crate) fn draw_below(rng: &mut StdRng, low: u32, high: u32) -> (r: u32)
    requires
        low < high,
    ensures
        low <= r < high,
{
    rng.gen_range(low, high)
}

/// `Rng::gen` for `bool`: either value. Nothing is claimed of it.
#[verifier::external_body]
pub(crate) fn draw_flag(rng: &mut StdRng) -> bool {
    rng.gen()
}

} // verus!
