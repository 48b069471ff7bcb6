//! Ordering of single-precision values held as their bit patterns.
//!
//! Depths and distances travel through this crate as the 32-bit encoding of
//! a binary32 number: one sign bit above 31 bits of magnitude. Among the
//! encodings that are numbers, a larger magnitude means a larger absolute
//! value, so the order of the encoded values is the order of their signed
//! magnitudes. The two zeros have the same rank. An encoding whose magnitude
//! exceeds that of infinity is not a number and is unordered with everything,
//! itself included.

use vstd::prelude::*;

verus! {

/// The sign bit of an encoding.
pub const SIGN_BIT: u32 = 0x8000_0000;

/// The encoding of positive infinity.
pub const INFINITY: u32 = 0x7F80_0000;

/// The encoding with the sign bit cleared.
pub open spec fn magnitude(bits: u32) -> int {
    if bits >= SIGN_BIT {
        bits - SIGN_BIT
    } else {
        bits as int
    }
}

/// Whether the encoding is not a number.
pub open spec fn nan(bits: u32) -> bool {
    magnitude(bits) > INFINITY
}

/// The signed magnitude of an encoding: an integer that orders the numbers
/// as their values are ordered.
pub open spec fn rank(bits: u32) -> int {
    if bits >= SIGN_BIT {
        -magnitude(bits)
    } else {
        magnitude(bits)
    }
}

/// Whether `a` encodes a number strictly below the number that `b` encodes.
pub open spec fn less(a: u32, b: u32) -> bool {
    &&& !nan(a)
    &&& !nan(b)
    &&& rank(a) < rank(b)
}

/// Tells whether the encoding is not a number.
pub fn is_nan(bits: u32) -> (r: bool)
    ensures
        r == nan(bits),
{
    let m: u32 = if bits >= SIGN_BIT { bits - SIGN_BIT } else { bits };
    m > INFINITY
}

/// The signed magnitude of an encoding.
pub fn signed_magnitude(bits: u32) -> (r: i64)
    ensures
        r == rank(bits),
{
    if bits >= SIGN_BIT {
        let m: i64 = (bits - SIGN_BIT) as i64;
        -m
    } else {
        bits as i64
    }
}

/// Compares two encodings as the numbers they stand for: `true` exactly when
/// both are numbers and the first is strictly below the second.
pub fn lt(a: u32, b: u32) -> (r: bool)
    ensures
        r == less(a, b),
{
    !is_nan(a) && !is_nan(b) && signed_magnitude(a) < signed_magnitude(b)
}

} // verus!
