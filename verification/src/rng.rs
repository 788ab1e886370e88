//! Dice. The engine never draws a random number itself: it asks the
//! caller's generator for a roll and decides on what comes back.

use vstd::prelude::*;

verus! {

/// `rltk::RandomNumberGenerator`, the caller's dice. Nothing is known of
/// its state here.
#[verifier::external_type_specification]
#[verifier::external_body]
pub struct ExRandomNumberGenerator(rltk::RandomNumberGenerator);

/// `RandomNumberGenerator::roll_dice`: the sum of `n` dice that each show 1
/// to `die_type`. Nothing is claimed of which of the possible sums comes.
#[verifier::external_body]
pub(crate) fn roll_dice(rng: &mut rltk::RandomNumberGenerator, n: i32, die_type: i32) -> (roll:
    i32)
    requires
        0 <= n,
        1 <= die_type < i32::MAX,
        n * die_type <= i32::MAX,
    ensures
        n <= roll <= n * die_type,
{
    rng.roll_dice(n, die_type)
}

} // verus!
