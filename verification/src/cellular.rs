//! The lattice side of the cellular noise field.
//!
//! Every unit cell of the plane holds one feature point, displaced from the
//! cell's corner by a pair of 16-bit fractions hashed from the cell's
//! coordinates. The field at a point is read off the distances to the
//! feature points of the nine cells around it. Measuring a distance is real
//! arithmetic and belongs to the caller; placing the points and keeping the
//! two smallest distances happens here, on the distances' encodings.

use vstd::prelude::*;
use crate::ieee::{less, lt, nan, rank, INFINITY};
use crate::lattice::{mul32, scramble, spec_scramble};

verus! {

/// Multiplier that derives the second fraction's word from the first.
pub const MIX_SECOND: u32 = 668265263;

/// The denominator of a feature point's fractions.
pub const FRACTION_SCALE: u16 = 65535;

/// The cellular noise field. It has no state: every value is a function of
/// the coordinates alone.
pub struct CellularNoise {}

/// The feature point of one cell: it lies at
/// `(cell_x + frac_x / 65535, cell_y + frac_y / 65535)`.
#[derive(Clone, Copy, Debug, PartialEq, Eq, Structural)]
pub struct FeaturePoint {
    pub cell_x: i32,
    pub cell_y: i32,
    pub frac_x: u16,
    pub frac_y: u16,
}

/// The two fractions of the feature point of cell `(x, y)`: the low halves of
/// the cell's scrambled word and of that word multiplied once more.
pub open spec fn spec_hash2d(x: i32, y: i32) -> (u16, u16) {
    let h = spec_scramble(x, y);
    ((h % 0x1_0000) as u16, (mul32(h, MIX_SECOND) % 0x1_0000) as u16)
}

/// The feature point of cell `(x, y)`.
pub open spec fn spec_feature(x: i32, y: i32) -> FeaturePoint {
    FeaturePoint {
        cell_x: x,
        cell_y: y,
        frac_x: spec_hash2d(x, y).0,
        frac_y: spec_hash2d(x, y).1,
    }
}

/// The `k`-th of the nine cells around `(xi, yi)`, row by row from the row
/// below, each row from the left.
pub open spec fn neighbor(xi: int, yi: int, k: int) -> (int, int) {
    (xi + k % 3 - 1, yi + k / 3 - 1)
}

/// The state of a search for the two nearest feature points: the encodings
/// of the smallest and the second smallest distance seen.
pub struct NearestView {
    pub first: u32,
    pub second: u32,
}

/// The search before any distance was seen: both slots at infinity.
pub open spec fn nearest_start() -> NearestView {
    NearestView { first: INFINITY, second: INFINITY }
}

/// The search after one more distance: a distance below the smallest moves
/// the smallest to second place and takes its slot; otherwise one below the
/// second smallest takes that slot; any other is passed over.
pub open spec fn nearest_step(state: NearestView, distance: u32) -> NearestView {
    if less(distance, state.first) {
        NearestView { first: distance, second: state.first }
    } else if less(distance, state.second) {
        NearestView { first: state.first, second: distance }
    } else {
        state
    }
}

/// The search after the distances of `seen`, in order.
pub open spec fn nearest_after(seen: Seq<u32>) -> NearestView
    decreases seen.len(),
{
    if seen.len() == 0 {
        nearest_start()
    } else {
        nearest_step(nearest_after(seen.drop_last()), seen.last())
    }
}

/// Whether both slots hold numbers and the second is not below the first.
pub open spec fn nearest_ordered(state: NearestView) -> bool {
    &&& !nan(state.first)
    &&& !nan(state.second)
    &&& rank(state.first) <= rank(state.second)
}

impl CellularNoise {
    /// Makes the field.
    pub fn new() -> (field: Self)
        ensures
            field == (CellularNoise {  }),
    {
        CellularNoise {  }
    }

    /// Hashes cell `(x, y)` to the two fractions of its feature point, each
    /// a numerator over 65535.
    pub fn hash2d(x: i32, y: i32) -> (f: (u16, u16))
        ensures
            f == spec_hash2d(x, y),
    {
        let h = scramble(x, y);
        let h2 = h.wrapping_mul(MIX_SECOND);
        assert(h & 0xFFFF == h % 0x1_0000) by (bit_vector);
        assert(h2 & 0xFFFF == h2 % 0x1_0000) by (bit_vector);
        ((h & 0xFFFF) as u16, (h2 & 0xFFFF) as u16)
    }

    /// The feature points of the nine cells around `(xi, yi)`, row by row
    /// from `yi - 1`, each row from `xi - 1`.
    pub fn feature_points(xi: i32, yi: i32) -> (points: Vec<FeaturePoint>)
        requires
            i32::MIN < xi < i32::MAX,
            i32::MIN < yi < i32::MAX,
        ensures
            points@.len() == 9,
            forall|k: int|
                0 <= k < 9 ==> #[trigger] points@[k] == spec_feature(
                    neighbor(xi as int, yi as int, k).0 as i32,
                    neighbor(xi as int, yi as int, k).1 as i32,
                ),
    {
        let mut points: Vec<FeaturePoint> = Vec::new();
        let mut k: i32 = 0;
        while k < 9
            invariant
                0 <= k <= 9,
                i32::MIN < xi < i32::MAX,
                i32::MIN < yi < i32::MAX,
                points@.len() == k,
                forall|m: int|
                    0 <= m < k ==> #[trigger] points@[m] == spec_feature(
                        neighbor(xi as int, yi as int, m).0 as i32,
                        neighbor(xi as int, yi as int, m).1 as i32,
                    ),
            decreases 9 - k,
        {
            let cell_x = xi + (k % 3 - 1);
            let cell_y = yi + (k / 3 - 1);
            let f = Self::hash2d(cell_x, cell_y);
            points.push(FeaturePoint { cell_x, cell_y, frac_x: f.0, frac_y: f.1 });
            k = k + 1;
        }
        points
    }
}

/// A running search for the two nearest feature points.
pub struct Nearest {
    first: u32,
    second: u32,
}

impl View for Nearest {
    type V = NearestView;

    closed spec fn view(&self) -> NearestView {
        NearestView { first: self.first, second: self.second }
    }
}

impl Nearest {
    #[verifier::type_invariant]
    spec fn ordered(self) -> bool {
        nearest_ordered(self@)
    }

    /// Starts a search: nothing seen, both slots at infinity.
    pub fn new() -> (search: Self)
        ensures
            search@ == nearest_start(),
    {
        Nearest { first: INFINITY, second: INFINITY }
    }

    /// Takes one more distance, given by its encoding, into account.
    pub fn observe(&mut self, distance: u32)
        ensures
            final(self)@ == nearest_step(old(self)@, distance),
    {
        proof {
            use_type_invariant(&*self);
        }
        if lt(distance, self.first) {
            self.second = self.first;
            self.first = distance;
        } else if lt(distance, self.second) {
            self.second = distance;
        }
    }

    /// Runs a search over a list of distances, given by their encodings, in
    /// the order of the list.
    pub fn among(distances: &Vec<u32>) -> (search: Self)
        ensures
            search@ == nearest_after(distances@),
    {
        let mut search = Nearest::new();
        let mut i: usize = 0;
        while i < distances.len()
            invariant
                i <= distances@.len(),
                search@ == nearest_after(distances@.subrange(0, i as int)),
            decreases distances@.len() - i,
        {
            proof {
                let seen = distances@.subrange(0, i + 1);
                assert(seen.drop_last() =~= distances@.subrange(0, i as int));
                assert(seen.last() == distances@[i as int]);
            }
            search.observe(distances[i]);
            i = i + 1;
        }
        assert(distances@.subrange(0, i as int) =~= distances@);
        search
    }

    /// The encoding of the smallest distance seen, or of infinity.
    pub fn first(&self) -> (d: u32)
        ensures
            d == self@.first,
            !nan(d),
    {
        proof {
            use_type_invariant(self);
        }
        self.first
    }

    /// The encoding of the second smallest distance seen, or of infinity. It
    /// is never below the smallest.
    pub fn second(&self) -> (d: u32)
        ensures
            d == self@.second,
            !nan(d),
            !less(d, self@.first),
            rank(self@.first) <= rank(d),
    {
        proof {
            use_type_invariant(self);
        }
        self.second
    }
}

/// A step keeps the slots in order.
pub proof fn lemma_step_ordered(state: NearestView, distance: u32)
    requires
        nearest_ordered(state),
    ensures
        nearest_ordered(nearest_step(state, distance)),
{
}

/// Whatever distances a search has seen, in whatever order, its second slot
/// is never below its first: the gap between the two nearest feature points
/// is not negative.
pub proof fn lemma_second_not_below_first(seen: Seq<u32>)
    ensures
        nearest_ordered(nearest_after(seen)),
        !less(nearest_after(seen).second, nearest_after(seen).first),
    decreases seen.len(),
{
    if seen.len() > 0 {
        lemma_second_not_below_first(seen.drop_last());
        lemma_step_ordered(nearest_after(seen.drop_last()), seen.last());
    }
}

/// Both slots hold infinity or a distance that was seen.
pub proof fn lemma_slots_were_seen(seen: Seq<u32>)
    ensures
        nearest_after(seen).first == INFINITY || seen.contains(nearest_after(seen).first),
        nearest_after(seen).second == INFINITY || seen.contains(nearest_after(seen).second),
    decreases seen.len(),
{
    if seen.len() > 0 {
        let rest = seen.drop_last();
        lemma_slots_were_seen(rest);
        assert(seen[seen.len() - 1] == seen.last());
        assert forall|v: u32| rest.contains(v) implies seen.contains(v) by {
            let i = choose|i: int| 0 <= i < rest.len() && rest[i] == v;
            assert(seen[i] == v);
        }
    }
}

/// No distance that was seen is below the first slot: the first slot is the
/// distance to the nearest feature point.
pub proof fn lemma_first_is_least(seen: Seq<u32>, i: int)
    requires
        0 <= i < seen.len(),
    ensures
        !less(seen[i], nearest_after(seen).first),
    decreases seen.len(),
{
    let rest = seen.drop_last();
    lemma_second_not_below_first(rest);
    if i < seen.len() - 1 {
        lemma_first_is_least(rest, i);
        assert(rest[i] == seen[i]);
    }
}

/// Of the distances that were seen, at most one is below the second slot:
/// the second slot is the distance to the second nearest feature point.
pub proof fn lemma_second_is_second_least(seen: Seq<u32>, i: int, j: int)
    requires
        0 <= i < j < seen.len(),
    ensures
        !(less(seen[i], nearest_after(seen).second) && less(seen[j], nearest_after(seen).second)),
    decreases seen.len(),
{
    let rest = seen.drop_last();
    lemma_second_not_below_first(rest);
    assert(rest[i] == seen[i]);
    lemma_first_is_least(rest, i);
    if j < seen.len() - 1 {
        assert(rest[j] == seen[j]);
        lemma_first_is_least(rest, j);
        lemma_second_is_second_least(rest, i, j);
    }
}

} // verus!
