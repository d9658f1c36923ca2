//! Identifier and key types of the hex face topology.
use vstd::prelude::*;

use crate::hex_coord::HexCoord;
use crate::sorted_set::StrictOrder;

verus! {

#[derive(Debug, Clone, Copy, PartialEq, Eq, Hash, PartialOrd, Ord, Structural)]
pub struct VertexId(pub usize);

impl VertexId {
    pub fn new(id: usize) -> (vertex: Self)
        ensures
            vertex.0 == id,
    {
        Self(id)
    }

    pub fn index(self) -> (index: usize)
        ensures
            index == self.0,
    {
        self.0
    }
}

#[derive(Debug, Clone, Copy, PartialEq, Eq, Hash, PartialOrd, Ord, Structural)]
pub struct HalfEdgeId(pub usize);

impl HalfEdgeId {
    pub fn new(id: usize) -> (edge: Self)
        ensures
            edge.0 == id,
    {
        Self(id)
    }

    pub fn index(self) -> (index: usize)
        ensures
            index == self.0,
    {
        self.0
    }
}

#[derive(Debug, Clone, Copy, PartialEq, Eq, Hash, PartialOrd, Ord, Structural)]
pub struct FaceId(pub usize);

impl FaceId {
    pub fn new(id: usize) -> (face: Self)
        ensures
            face.0 == id,
    {
        Self(id)
    }

    pub fn index(self) -> (index: usize)
        ensures
            index == self.0,
    {
        self.0
    }
}

/// The three hex cells meeting at one corner, in ascending `(q, r)` order.
#[derive(Debug, Clone, Copy, PartialEq, Eq, Hash, PartialOrd, Ord, Structural)]
pub struct SharedCornerKey(pub HexCoord, pub HexCoord, pub HexCoord);

impl SharedCornerKey {
    pub fn new(c0: HexCoord, c1: HexCoord, c2: HexCoord) -> (key: Self)
        ensures
            key.0 == c0,
            key.1 == c1,
            key.2 == c2,
    {
        Self(c0, c1, c2)
    }

    pub fn first(self) -> (cell: HexCoord)
        ensures
            cell == self.0,
    {
        self.0
    }

    pub fn second(self) -> (cell: HexCoord)
        ensures
            cell == self.1,
    {
        self.1
    }

    pub fn third(self) -> (cell: HexCoord)
        ensures
            cell == self.2,
    {
        self.2
    }
}

/// Keys are ordered by their three cells in turn, each by `(q, r)`.
impl StrictOrder for SharedCornerKey {
    open spec fn ordered_before(self, other: Self) -> bool {
        ||| self.0.precedes(other.0)
        ||| (self.0 == other.0 && self.1.precedes(other.1))
        ||| (self.0 == other.0 && self.1 == other.1 && self.2.precedes(other.2))
    }

    proof fn ordered_before_transitive(a: Self, b: Self, c: Self) {
    }

    proof fn ordered_before_trichotomy(a: Self, b: Self) {
    }

    fn comes_before(&self, other: &Self) -> (before: bool) {
        if self.0.is_before(other.0) {
            true
        } else if other.0.is_before(self.0) {
            false
        } else if self.1.is_before(other.1) {
            true
        } else if other.1.is_before(self.1) {
            false
        } else {
            self.2.is_before(other.2)
        }
    }
}

/// The bit patterns of a vertex position's two `f32` components
/// (`f32::to_bits`), which is all that hashing and connectivity read of it.
#[derive(Debug, Clone, Copy, PartialEq, Eq, Hash, Structural)]
pub struct PositionBits {
    pub x: u32,
    pub y: u32,
}

/// A shared corner vertex: its position and the three cells meeting there.
#[derive(Debug, Clone, Copy, PartialEq, Eq, Structural)]
pub struct MapVertex {
    pub position: PositionBits,
    pub canonical_key: SharedCornerKey,
}

/// One directed boundary edge of a face.
#[derive(Debug, Clone, Copy, PartialEq, Eq, Structural)]
pub struct HalfEdge {
    pub origin: VertexId,
    pub destination: VertexId,
    pub next: HalfEdgeId,
    pub prev: HalfEdgeId,
    pub twin: Option<HalfEdgeId>,
    pub incident_face: FaceId,
}

/// The face of one hex tile: its cell, first boundary edge and six corners.
#[derive(Debug, Clone, Copy, PartialEq, Eq)]
pub struct HexFace {
    pub hex: HexCoord,
    pub boundary: HalfEdgeId,
    pub vertices: [VertexId; 6],
}

} // verus!
