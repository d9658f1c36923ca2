//! Directed cliff edge binding between logical map edges and the reciprocal
//! half-edges of the face topology.
use vstd::prelude::*;

use crate::hex_coord::HexCoord;
use crate::map_layout::MapLayout;
use crate::sorted_set::{insert_sorted, strictly_ascending, StrictOrder};
use crate::topology::HexFaceTopology;
use crate::types::{FaceId, HalfEdgeId, VertexId};
use crate::validation::mapped_face;

verus! {

/// A logical edge of the map between two neighboring tile cells.
#[derive(Debug, Clone, Copy, PartialEq, Eq, Hash, Structural)]
pub struct EdgeCoord {
    pub a: HexCoord,
    pub b: HexCoord,
}

/// The edge between two cells, its cells in ascending `(q, r)` order.
pub open spec fn edge_between(x: HexCoord, y: HexCoord) -> EdgeCoord {
    if y.precedes(x) {
        EdgeCoord { a: y, b: x }
    } else {
        EdgeCoord { a: x, b: y }
    }
}

impl EdgeCoord {
    /// The canonical edge between two cells: the earlier cell in `(q, r)`
    /// order is `a`.
    pub fn new(x: HexCoord, y: HexCoord) -> (edge: Self)
        ensures
            edge == edge_between(x, y),
    {
        if y.is_before(x) {
            EdgeCoord { a: y, b: x }
        } else {
            EdgeCoord { a: x, b: y }
        }
    }
}

/// Edges are ordered by their first cell, then their second.
impl StrictOrder for EdgeCoord {
    open spec fn ordered_before(self, other: Self) -> bool {
        ||| self.a.precedes(other.a)
        ||| (self.a == other.a && self.b.precedes(other.b))
    }

    proof fn ordered_before_transitive(a: Self, b: Self, c: Self) {
    }

    proof fn ordered_before_trichotomy(a: Self, b: Self) {
    }

    fn comes_before(&self, other: &Self) -> (before: bool) {
        self.a.is_before(other.a) || (self.a == other.a && self.b.is_before(other.b))
    }
}

/// Which side of a cliff edge is the lower one.
#[derive(Debug, Clone, Copy, PartialEq, Eq, Hash, Structural)]
pub enum CliffLowerSide {
    A,
    B,
    Unresolved,
}

/// One cliff edge of the map and its lower side.
#[derive(Debug, Clone, Copy, PartialEq, Eq, Structural)]
pub struct CliffEdgeEntry {
    pub edge: EdgeCoord,
    pub lower_side: CliffLowerSide,
}

/// The rank of a lower side, which orders entries on the same edge.
pub open spec fn side_rank(side: CliffLowerSide) -> int {
    match side {
        CliffLowerSide::A => 0,
        CliffLowerSide::B => 1,
        CliffLowerSide::Unresolved => 2,
    }
}

fn side_rank_of(side: CliffLowerSide) -> (rank: u8)
    ensures
        rank == side_rank(side),
{
    match side {
        CliffLowerSide::A => 0,
        CliffLowerSide::B => 1,
        CliffLowerSide::Unresolved => 2,
    }
}

/// Entries are ordered by their edge's first cell, then its second cell.
impl StrictOrder for CliffEdgeEntry {
    open spec fn ordered_before(self, other: Self) -> bool {
        ||| self.edge.a.precedes(other.edge.a)
        ||| (self.edge.a == other.edge.a && self.edge.b.precedes(other.edge.b))
        ||| (self.edge == other.edge && side_rank(self.lower_side) < side_rank(other.lower_side))
    }

    proof fn ordered_before_transitive(a: Self, b: Self, c: Self) {
    }

    proof fn ordered_before_trichotomy(a: Self, b: Self) {
    }

    fn comes_before(&self, other: &Self) -> (before: bool) {
        if self.edge.a.is_before(other.edge.a) {
            true
        } else if other.edge.a.is_before(self.edge.a) {
            false
        } else if self.edge.b.is_before(other.edge.b) {
            true
        } else if other.edge.b.is_before(self.edge.b) {
            false
        } else {
            side_rank_of(self.lower_side) < side_rank_of(other.lower_side)
        }
    }
}

/// A cliff edge bound to the reciprocal half-edges of its two faces.
#[derive(Debug, Clone, Copy, PartialEq, Eq, Structural)]
pub struct BoundCliffEdge {
    pub logical_edge: EdgeCoord,
    pub face_a: FaceId,
    pub face_b: FaceId,
    pub half_edge_a: HalfEdgeId,
    pub half_edge_b: HalfEdgeId,
    pub lower_side: CliffLowerSide,
}

/// All bound cliff edges, in ascending logical edge order.
#[derive(Debug, Clone, PartialEq, Eq, Default)]
pub struct BoundCliffEdges {
    pub edges: Vec<BoundCliffEdge>,
}

/// Why a cliff edge could not be bound.
#[derive(Debug, Clone, Copy, PartialEq, Eq, Structural)]
pub enum CliffBindingError {
    MissingTileA(EdgeCoord),
    MissingTileB(EdgeCoord),
    MissingFaceA(EdgeCoord),
    MissingFaceB(EdgeCoord),
    MissingAdjacency(EdgeCoord),
    MissingTwin(HalfEdgeId),
    NonReciprocalTwin { edge_a: HalfEdgeId, edge_b: HalfEdgeId },
    IncidentFaceMismatch { edge: EdgeCoord, expected_face: FaceId, actual_face: FaceId },
    ReversedEndpointMismatch {
        edge: EdgeCoord,
        origin_a: VertexId,
        dest_a: VertexId,
        origin_b: VertexId,
        dest_b: VertexId,
    },
}

/// Walks at most `steps` `next` links from `current`, stopping at an
/// out-of-range id: the first half-edge whose in-range twin lies on face
/// `target`, with that twin.
pub open spec fn adjacency_scan(
    topology: HexFaceTopology,
    current: HalfEdgeId,
    target: FaceId,
    steps: nat,
) -> Option<(HalfEdgeId, HalfEdgeId)>
    decreases steps,
{
    let edges = topology.half_edges@;
    if steps == 0 || current.0 >= edges.len() {
        None
    } else {
        let edge = edges[current.0 as int];
        match edge.twin {
            Some(twin) => if twin.0 < edges.len() && edges[twin.0 as int].incident_face == target {
                Some((current, twin))
            } else {
                adjacency_scan(topology, edge.next, target, (steps - 1) as nat)
            },
            None => adjacency_scan(topology, edge.next, target, (steps - 1) as nat),
        }
    }
}

/// The binding of one cliff edge, or the first failed check: both cells are
/// tiles with mapped faces, face A's boundary walk reaches a half-edge whose
/// twin lies on face B, the twin links back, both lie on their faces, and
/// they run between the same vertices in opposite directions.
pub open spec fn bind_spec(layout: MapLayout, topology: HexFaceTopology, entry: CliffEdgeEntry) -> Result<
    BoundCliffEdge,
    CliffBindingError,
> {
    let edge = entry.edge;
    let edges = topology.half_edges@;
    if !layout.has_tile(edge.a) {
        Err(CliffBindingError::MissingTileA(edge))
    } else if !layout.has_tile(edge.b) {
        Err(CliffBindingError::MissingTileB(edge))
    } else if mapped_face(topology, edge.a) is None {
        Err(CliffBindingError::MissingFaceA(edge))
    } else if mapped_face(topology, edge.b) is None {
        Err(CliffBindingError::MissingFaceB(edge))
    } else {
        let face_a = mapped_face(topology, edge.a).unwrap();
        let face_b = mapped_face(topology, edge.b).unwrap();
        if face_a.0 >= topology.faces@.len() {
            Err(CliffBindingError::MissingFaceA(edge))
        } else if face_b.0 >= topology.faces@.len() {
            Err(CliffBindingError::MissingFaceB(edge))
        } else {
            match adjacency_scan(topology, topology.faces@[face_a.0 as int].boundary, face_b, 6) {
                None => Err(CliffBindingError::MissingAdjacency(edge)),
                Some((id_a, id_b)) => {
                    let he_a = edges[id_a.0 as int];
                    let he_b = edges[id_b.0 as int];
                    if he_b.twin != Some(id_a) {
                        Err(CliffBindingError::NonReciprocalTwin { edge_a: id_a, edge_b: id_b })
                    } else if he_a.incident_face != face_a {
                        Err(
                            CliffBindingError::IncidentFaceMismatch {
                                edge,
                                expected_face: face_a,
                                actual_face: he_a.incident_face,
                            },
                        )
                    } else if he_b.incident_face != face_b {
                        Err(
                            CliffBindingError::IncidentFaceMismatch {
                                edge,
                                expected_face: face_b,
                                actual_face: he_b.incident_face,
                            },
                        )
                    } else if he_a.origin != he_b.destination || he_a.destination != he_b.origin {
                        Err(
                            CliffBindingError::ReversedEndpointMismatch {
                                edge,
                                origin_a: he_a.origin,
                                dest_a: he_a.destination,
                                origin_b: he_b.origin,
                                dest_b: he_b.destination,
                            },
                        )
                    } else {
                        Ok(
                            BoundCliffEdge {
                                logical_edge: edge,
                                face_a,
                                face_b,
                                half_edge_a: id_a,
                                half_edge_b: id_b,
                                lower_side: entry.lower_side,
                            },
                        )
                    }
                },
            }
        }
    }
}

proof fn lemma_adjacency_scan_in_range(
    topology: HexFaceTopology,
    current: HalfEdgeId,
    target: FaceId,
    steps: nat,
)
    ensures
        adjacency_scan(topology, current, target, steps) matches Some((a, b)) ==> a.0
            < topology.half_edges@.len() && b.0 < topology.half_edges@.len(),
    decreases steps,
{
    if steps > 0 && current.0 < topology.half_edges@.len() {
        lemma_adjacency_scan_in_range(
            topology,
            topology.half_edges@[current.0 as int].next,
            target,
            (steps - 1) as nat,
        );
    }
}

/// Finds the half-edge of face A's boundary walk whose twin lies on face B.
fn scan_adjacency(topology: &HexFaceTopology, start: HalfEdgeId, target: FaceId) -> (found: Option<
    (HalfEdgeId, HalfEdgeId),
>)
    ensures
        found == adjacency_scan(*topology, start, target, 6),
{
    let mut current = start;
    let mut step: usize = 0;
    while step < 6
        invariant
            step <= 6,
            adjacency_scan(*topology, start, target, 6) == adjacency_scan(
                *topology,
                current,
                target,
                (6 - step) as nat,
            ),
        decreases 6 - step,
    {
        if current.0 >= topology.half_edges.len() {
            return None;
        }
        let edge = topology.half_edges[current.0];
        if let Some(twin_id) = edge.twin {
            if twin_id.0 < topology.half_edges.len()
                && topology.half_edges[twin_id.0].incident_face == target {
                return Some((current, twin_id));
            }
        }
        current = edge.next;
        step += 1;
    }
    None
}

/// Binds one cliff edge.
fn bind_one(layout: &MapLayout, topology: &HexFaceTopology, entry: CliffEdgeEntry) -> (bound: Result<
    BoundCliffEdge,
    CliffBindingError,
>)
    ensures
        bound == bind_spec(*layout, *topology, entry),
{
    let logical_edge = entry.edge;
    if !layout.contains_tile(logical_edge.a) {
        return Err(CliffBindingError::MissingTileA(logical_edge));
    }
    if !layout.contains_tile(logical_edge.b) {
        return Err(CliffBindingError::MissingTileB(logical_edge));
    }
    let face_a = match topology.face_for(logical_edge.a) {
        Some(face) => face,
        None => {
            return Err(CliffBindingError::MissingFaceA(logical_edge));
        },
    };
    let face_b = match topology.face_for(logical_edge.b) {
        Some(face) => face,
        None => {
            return Err(CliffBindingError::MissingFaceB(logical_edge));
        },
    };
    if face_a.0 >= topology.faces.len() {
        return Err(CliffBindingError::MissingFaceA(logical_edge));
    }
    if face_b.0 >= topology.faces.len() {
        return Err(CliffBindingError::MissingFaceB(logical_edge));
    }
    let (id_a, id_b) = match scan_adjacency(topology, topology.faces[face_a.0].boundary, face_b) {
        Some(pair) => pair,
        None => {
            return Err(CliffBindingError::MissingAdjacency(logical_edge));
        },
    };
    proof {
        lemma_adjacency_scan_in_range(*topology, topology.faces@[face_a.0 as int].boundary, face_b, 6);
    }
    let he_a = topology.half_edges[id_a.0];
    let he_b = topology.half_edges[id_b.0];
    let reciprocal = match he_b.twin {
        Some(back) => back == id_a,
        None => false,
    };
    if !reciprocal {
        return Err(CliffBindingError::NonReciprocalTwin { edge_a: id_a, edge_b: id_b });
    }
    if he_a.incident_face != face_a {
        return Err(
            CliffBindingError::IncidentFaceMismatch {
                edge: logical_edge,
                expected_face: face_a,
                actual_face: he_a.incident_face,
            },
        );
    }
    if he_b.incident_face != face_b {
        return Err(
            CliffBindingError::IncidentFaceMismatch {
                edge: logical_edge,
                expected_face: face_b,
                actual_face: he_b.incident_face,
            },
        );
    }
    if he_a.origin != he_b.destination || he_a.destination != he_b.origin {
        return Err(
            CliffBindingError::ReversedEndpointMismatch {
                edge: logical_edge,
                origin_a: he_a.origin,
                dest_a: he_a.destination,
                origin_b: he_b.origin,
                dest_b: he_b.destination,
            },
        );
    }
    Ok(
        BoundCliffEdge {
            logical_edge,
            face_a,
            face_b,
            half_edge_a: id_a,
            half_edge_b: id_b,
            lower_side: entry.lower_side,
        },
    )
}

/// The cliff entries in ascending logical edge order.
fn sorted_cliffs(cliffs: &Vec<CliffEdgeEntry>) -> (sorted: Vec<CliffEdgeEntry>)
    ensures
        strictly_ascending(sorted@),
        sorted@.to_set() == cliffs@.to_set(),
{
    let mut sorted: Vec<CliffEdgeEntry> = Vec::with_capacity(cliffs.len());
    let mut i: usize = 0;
    while i < cliffs.len()
        invariant
            i <= cliffs@.len(),
            strictly_ascending(sorted@),
            sorted@.to_set() == cliffs@.take(i as int).to_set(),
        decreases cliffs@.len() - i,
    {
        insert_sorted(&mut sorted, cliffs[i]);
        proof {
            assert(cliffs@.take(i as int + 1) =~= cliffs@.take(i as int).push(cliffs@[i as int]));
            cliffs@.take(i as int).lemma_push_to_set_commute(cliffs@[i as int]);
        }
        i += 1;
    }
    assert(cliffs@.take(i as int) =~= cliffs@);
    sorted
}

/// The bindings of `entries` in order, or the first failure.
pub open spec fn bind_all(layout: MapLayout, topology: HexFaceTopology, entries: Seq<CliffEdgeEntry>) -> Result<
    Seq<BoundCliffEdge>,
    CliffBindingError,
>
    decreases entries.len(),
{
    if entries.len() == 0 {
        Ok(Seq::empty())
    } else {
        match bind_all(layout, topology, entries.drop_last()) {
            Err(error) => Err(error),
            Ok(bound) => match bind_spec(layout, topology, entries.last()) {
                Err(error) => Err(error),
                Ok(edge) => Ok(bound.push(edge)),
            },
        }
    }
}

/// Binds every cliff edge of the map, in ascending logical edge order, to the
/// reciprocal half-edges of its two faces; fails on the first edge that
/// cannot be bound.
pub fn bind_cliff_edges(
    layout: &MapLayout,
    cliffs: &Vec<CliffEdgeEntry>,
    topology: &HexFaceTopology,
) -> (bound: Result<BoundCliffEdges, CliffBindingError>)
    ensures
        exists|order: Seq<CliffEdgeEntry>|
            {
                &&& strictly_ascending(order)
                &&& order.to_set() == cliffs@.to_set()
                &&& match bound {
                    Ok(edges) => bind_all(*layout, *topology, order) == Ok::<
                        Seq<BoundCliffEdge>,
                        CliffBindingError,
                    >(edges.edges@),
                    Err(error) => bind_all(*layout, *topology, order) == Err::<
                        Seq<BoundCliffEdge>,
                        CliffBindingError,
                    >(error),
                }
            },
{
    let sorted = sorted_cliffs(cliffs);
    let mut edges: Vec<BoundCliffEdge> = Vec::with_capacity(sorted.len());
    let mut i: usize = 0;
    while i < sorted.len()
        invariant
            i <= sorted@.len(),
            strictly_ascending(sorted@),
            sorted@.to_set() == cliffs@.to_set(),
            bind_all(*layout, *topology, sorted@.take(i as int)) == Ok::<
                Seq<BoundCliffEdge>,
                CliffBindingError,
            >(edges@),
        decreases sorted@.len() - i,
    {
        proof {
            assert(sorted@.take(i as int + 1).drop_last() =~= sorted@.take(i as int));
        }
        match bind_one(layout, topology, sorted[i]) {
            Ok(edge) => {
                edges.push(edge);
            },
            Err(error) => {
                proof {
                    assert(sorted@.take(i as int + 1).last() == sorted@[i as int]);
                    assert(bind_all(*layout, *topology, sorted@.take(i as int + 1)) == Err::<
                        Seq<BoundCliffEdge>,
                        CliffBindingError,
                    >(error));
                    lemma_bind_all_stops(*layout, *topology, sorted@, i as int + 1);
                    assert(strictly_ascending(sorted@) && sorted@.to_set() == cliffs@.to_set());
                }
                return Err(error);
            },
        }
        i += 1;
    }
    assert(sorted@.take(i as int) =~= sorted@);
    assert(strictly_ascending(sorted@) && sorted@.to_set() == cliffs@.to_set());
    Ok(BoundCliffEdges { edges })
}

/// Once a prefix fails, every longer prefix fails with the same error.
proof fn lemma_bind_all_stops(
    layout: MapLayout,
    topology: HexFaceTopology,
    entries: Seq<CliffEdgeEntry>,
    n: int,
)
    requires
        0 < n <= entries.len(),
        bind_all(layout, topology, entries.take(n)) is Err,
    ensures
        bind_all(layout, topology, entries) == bind_all(layout, topology, entries.take(n)),
    decreases entries.len() - n,
{
    if n == entries.len() {
        assert(entries.take(n) =~= entries);
    } else {
        assert(entries.take(n + 1).drop_last() =~= entries.take(n));
        lemma_bind_all_stops(layout, topology, entries, n + 1);
    }
}

} // verus!
