//! The lattice side of the coherent noise field.
//!
//! The field is evaluated over a skewed triangular lattice. Which cell a
//! point falls in, and how far it lies from the cell's corners, is real
//! arithmetic and belongs to the caller; what each corner contributes is
//! decided here: a byte hashed from the corner's lattice coordinates, whose
//! two low bits pick one of four diagonal gradient directions.

use vstd::prelude::*;
use crate::lattice::{scramble, spec_scramble};

verus! {

/// The coherent noise field. It has no state: every value is a function of
/// the coordinates alone.
pub struct Simplex {}

/// The gradient byte of the lattice corner `(x, y)`: the low byte of its
/// scrambled word.
pub open spec fn spec_hash(x: i32, y: i32) -> u8 {
    (spec_scramble(x, y) % 256) as u8
}

/// The gradient direction that a byte selects, as the signs of its two
/// components: bit 0 turns the first component negative, bit 1 the second.
pub open spec fn spec_gradient(hash: u8) -> (int, int) {
    (
        if hash % 2 == 1 {
            -1int
        } else {
            1int
        },
        if (hash / 2) % 2 == 1 {
            -1int
        } else {
            1int
        },
    )
}

/// The lattice coordinates of the middle corner of the simplex that holds a
/// point of cell `(i, j)`: one step along the first axis when the point lies
/// nearer that axis, else one step along the second.
pub open spec fn middle_corner(i: int, j: int, x_major: bool) -> (int, int) {
    if x_major {
        (i + 1, j)
    } else {
        (i, j + 1)
    }
}

impl Simplex {
    /// Makes the field.
    pub fn new() -> (field: Self)
        ensures
            field == (Simplex {  }),
    {
        Simplex {  }
    }

    /// Hashes the lattice corner `(x, y)` to its gradient byte.
    pub fn hash(x: i32, y: i32) -> (h: u8)
        ensures
            h == spec_hash(x, y),
    {
        let word = scramble(x, y);
        assert(word & 0xFF == word % 256) by (bit_vector);
        (word & 0xFF) as u8
    }

    /// The signs of the gradient that a byte selects. The gradient's
    /// contribution at an offset `(x, y)` from the corner is the first sign
    /// times `x` plus the second sign times `y`.
    pub fn gradient(hash: u8) -> (signs: (i8, i8))
        ensures
            signs.0 == spec_gradient(hash).0,
            signs.1 == spec_gradient(hash).1,
    {
        assert(hash & 3 == hash % 4) by (bit_vector);
        match hash & 3 {
            0 => (1, 1),
            1 => (-1, 1),
            2 => (1, -1),
            _ => (-1, -1),
        }
    }

    /// The gradient bytes of the three corners of the simplex that holds a
    /// point of cell `(i, j)`: the cell's own corner, the middle corner, and
    /// the corner diagonally opposite.
    pub fn corner_hashes(i: i32, j: i32, x_major: bool) -> (h: (u8, u8, u8))
        requires
            i < i32::MAX,
            j < i32::MAX,
        ensures
            h.0 == spec_hash(i, j),
            h.1 == spec_hash(
                middle_corner(i as int, j as int, x_major).0 as i32,
                middle_corner(i as int, j as int, x_major).1 as i32,
            ),
            h.2 == spec_hash((i + 1) as i32, (j + 1) as i32),
    {
        let first = Self::hash(i, j);
        let middle = if x_major {
            Self::hash(i + 1, j)
        } else {
            Self::hash(i, j + 1)
        };
        let last = Self::hash(i + 1, j + 1);
        (first, middle, last)
    }
}

} // verus!
