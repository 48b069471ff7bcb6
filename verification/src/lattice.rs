//! Integer hashing of lattice coordinates.
//!
//! Both noise fields place their pseudo-random features on the integer
//! lattice and derive them from one scrambling function of the cell's
//! coordinates. The function has no state: the same cell always scrambles to
//! the same word.

use vstd::prelude::*;

verus! {

/// Multiplier applied to the first coordinate.
pub const MIX_X: u32 = 374761393;

/// Multiplier applied after the first fold.
pub const MIX_FOLD: u32 = 1274126177;

/// The unsigned word that has the bits of `v` in two's complement.
pub open spec fn word_of(v: i32) -> u32 {
    if v < 0 {
        (v + 0x1_0000_0000) as u32
    } else {
        v as u32
    }
}

/// The product of two words, reduced to its low 32 bits.
pub open spec fn mul32(a: u32, b: u32) -> u32 {
    ((a as nat * b as nat) % 0x1_0000_0000) as u32
}

/// The sum of two words, reduced to its low 32 bits.
pub open spec fn add32(a: u32, b: u32) -> u32 {
    ((a + b) % 0x1_0000_0000) as u32
}

/// The scrambled word of the lattice cell `(x, y)`.
pub open spec fn spec_scramble(x: i32, y: i32) -> u32 {
    let a = add32(mul32(word_of(x), MIX_X), word_of(y));
    let b = a ^ (a >> 13);
    let c = mul32(b, MIX_FOLD);
    c ^ (c >> 16)
}

/// Reinterprets a signed coordinate as the unsigned word with the same bits.
pub fn to_word(v: i32) -> (w: u32)
    ensures
        w == word_of(v),
{
    let w = #[verifier::truncate] (v as u32);
    assert(v < 0 ==> v as u32 == (v + 0x1_0000_0000) as u32) by (bit_vector);
    assert(v >= 0 ==> v as u32 == v) by (bit_vector);
    w
}

/// Scrambles the lattice cell `(x, y)` into a 32-bit word.
pub fn scramble(x: i32, y: i32) -> (h: u32)
    ensures
        h == spec_scramble(x, y),
{
    let p = to_word(x).wrapping_mul(MIX_X);
    let a = p.wrapping_add(to_word(y));
    let b = a ^ (a >> 13);
    let c = b.wrapping_mul(MIX_FOLD);
    c ^ (c >> 16)
}

} // verus!
