//! Scattering the stars of the background sky.
//!
//! Where a star falls is drawn from a seeded generator, so the same seed
//! gives the same sky in every frame. The generator decides the pixel; this
//! module only sees to it that the pixel lies in the frame.

use vstd::prelude::*;
use rand::rngs::StdRng;
use rand::Rng;

verus! {

/// The seeded generator of `rand`, `rand::rngs::StdRng`. Its state is
/// opaque here: it is handed through to the calls that draw from it.
#[verifier::external_type_specification]
#[verifier::external_body]
pub struct ExStdRng(StdRng);

/// Calls `rand::Rng::gen_range` on the half-open range from zero to
/// `bound`. The contract claims what the method documents: it panics on an
/// empty range, which `requires` leaves out, and otherwise returns a value
/// of the range. Which value depends on the generator's state, of which
/// nothing is claimed.
#[verifier::external_body]
fn below(rng: &mut StdRng, bound: u32) -> (drawn: u32)
    requires
        bound > 0,
    ensures
        drawn < bound,
{
    rng.gen_range(0..bound)
}

/// Draws the pixel of the next star for a frame of `width` by `height`
/// pixels: first the column, then the row. Whatever the generator gives, the
/// pixel lies in the frame.
pub fn star_position(rng: &mut StdRng, width: u32, height: u32) -> (pixel: (u32, u32))
    requires
        width > 0,
        height > 0,
    ensures
        pixel.0 < width,
        pixel.1 < height,
{
    let x = below(rng, width);
    let y = below(rng, height);
    (x, y)
}

} // verus!
