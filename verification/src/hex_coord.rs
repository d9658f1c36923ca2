//! Axial hex coordinates of map tiles.
use vstd::prelude::*;

use crate::sorted_set::StrictOrder;

verus! {

/// An axial hex coordinate `(q, r)`.
#[derive(Debug, Clone, Copy, PartialEq, Eq, Hash, PartialOrd, Ord, Structural)]
pub struct HexCoord {
    pub q: i32,
    pub r: i32,
}

/// Offsets of the six neighbors, in the order `neighbors` lists them:
/// `+X`, `+X -Z`, `-Z`, `-X`, `-X +Z`, `+Z`.
pub open spec fn neighbor_offset(index: int) -> (int, int) {
    if index == 0 {
        (1, 0)
    } else if index == 1 {
        (1, -1)
    } else if index == 2 {
        (0, -1)
    } else if index == 3 {
        (-1, 0)
    } else if index == 4 {
        (-1, 1)
    } else {
        (0, 1)
    }
}

impl HexCoord {
    /// The neighbor in direction `index` (`0..6`).
    pub open spec fn neighbor(self, index: int) -> HexCoord {
        HexCoord {
            q: (self.q + neighbor_offset(index).0) as i32,
            r: (self.r + neighbor_offset(index).1) as i32,
        }
    }

    /// All six neighbors exist as coordinates (no axis is at an `i32` limit).
    pub open spec fn has_neighbors(self) -> bool {
        &&& i32::MIN < self.q < i32::MAX
        &&& i32::MIN < self.r < i32::MAX
    }

    /// `self` comes before `other` in `(q, r)` order.
    pub open spec fn precedes(self, other: HexCoord) -> bool {
        self.q < other.q || (self.q == other.q && self.r < other.r)
    }

    /// Whether `other` is one of the six neighbors.
    pub open spec fn is_neighbor_of(self, other: HexCoord) -> bool {
        exists|i: int| 0 <= i < 6 && self.neighbor(i) == other
    }

    pub fn new(q: i32, r: i32) -> (coord: Self)
        ensures
            coord.q == q,
            coord.r == r,
    {
        HexCoord { q, r }
    }

    /// The six neighbors in direction order.
    pub fn neighbors(self) -> (neighbors: [HexCoord; 6])
        requires
            self.has_neighbors(),
        ensures
            forall|i: int| 0 <= i < 6 ==> #[trigger] neighbors[i] == self.neighbor(i),
    {
        [
            HexCoord { q: self.q + 1, r: self.r },
            HexCoord { q: self.q + 1, r: self.r - 1 },
            HexCoord { q: self.q, r: self.r - 1 },
            HexCoord { q: self.q - 1, r: self.r },
            HexCoord { q: self.q - 1, r: self.r + 1 },
            HexCoord { q: self.q, r: self.r + 1 },
        ]
    }

    /// The number of steps between `self` and `other` on the hex grid.
    pub open spec fn distance_spec(self, other: HexCoord) -> int {
        let dq = self.q - other.q;
        let dr = self.r - other.r;
        (crate::fixed_point::abs(dq) + crate::fixed_point::abs(dr) + crate::fixed_point::abs(dq + dr)) / 2
    }

    /// The number of steps between `self` and `other` on the hex grid.
    pub fn distance(self, other: HexCoord) -> (steps: i64)
        ensures
            steps == self.distance_spec(other),
            steps >= 0,
    {
        let dq = self.q as i64 - other.q as i64;
        let dr = self.r as i64 - other.r as i64;
        let s = dq + dr;
        let aq = if dq < 0 { -dq } else { dq };
        let ar = if dr < 0 { -dr } else { dr };
        let as_sum = if s < 0 { -s } else { s };
        (aq + ar + as_sum) / 2
    }

    /// Whether `other` is one of the six neighbors.
    pub fn is_adjacent_to(self, other: HexCoord) -> (adjacent: bool)
        requires
            self.has_neighbors(),
        ensures
            adjacent == self.is_neighbor_of(other),
    {
        let neighbors = self.neighbors();
        let mut i: usize = 0;
        while i < 6
            invariant
                i <= 6,
                forall|j: int| 0 <= j < 6 ==> #[trigger] neighbors[j] == self.neighbor(j),
                forall|j: int| 0 <= j < i ==> self.neighbor(j) != other,
            decreases 6 - i,
        {
            if neighbors[i] == other {
                return true;
            }
            i += 1;
        }
        false
    }

    /// Whether `self` comes before `other` in `(q, r)` order.
    pub(crate) fn is_before(self, other: HexCoord) -> (before: bool)
        ensures
            before == self.precedes(other),
    {
        self.q < other.q || (self.q == other.q && self.r < other.r)
    }
}

/// A lossless 64-bit key of a coordinate: the bits of `q` over those of `r`.
pub open spec fn coord_key(coord: HexCoord) -> u64 {
    (((coord.q as u32) as u64) << 32u64) | ((coord.r as u32) as u64)
}

/// Distinct coordinates have distinct keys.
pub proof fn lemma_coord_key_injective(a: HexCoord, b: HexCoord)
    ensures
        coord_key(a) == coord_key(b) <==> a == b,
{
    let (aq, ar, bq, br) = (a.q, a.r, b.q, b.r);
    assert((((aq as u32) as u64) << 32u64) | ((ar as u32) as u64) == (((bq as u32) as u64)
        << 32u64) | ((br as u32) as u64) ==> aq == bq && ar == br) by (bit_vector);
}

/// The lossless 64-bit key of a coordinate.
pub fn hex_key(coord: HexCoord) -> (key: u64)
    ensures
        key == coord_key(coord),
{
    (((coord.q as u32) as u64) << 32u64) | ((coord.r as u32) as u64)
}

impl StrictOrder for HexCoord {
    open spec fn ordered_before(self, other: Self) -> bool {
        self.precedes(other)
    }

    proof fn ordered_before_transitive(a: Self, b: Self, c: Self) {
    }

    proof fn ordered_before_trichotomy(a: Self, b: Self) {
    }

    fn comes_before(&self, other: &Self) -> (before: bool) {
        self.is_before(*other)
    }
}

} // verus!
