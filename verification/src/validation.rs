//! Complete structural validation of a generated hex face topology.
//!
//! Every check reads indices only after proving them in range, so malformed
//! data yields a typed error instead of a panic. The per-face geometric
//! verdicts (convexity, winding, edge length, area) are measured on `f32`
//! positions outside this library and handed in as values.
use vstd::prelude::*;
use std::collections::{HashMap, HashSet};

use crate::hex_coord::{coord_key, hex_key, HexCoord};
use crate::map_layout::MapLayout;
use crate::topology::{
    direction_key, direction_key_of, lemma_direction_key_injective, same_direction, twinned_count,
    tiles_have_neighbors, HexFaceTopology, HexFaceTopologyError, TopologyViolation,
};
use crate::types::{FaceId, HalfEdge, HalfEdgeId};
use crate::logical_adjacency::{logical_adjacency_fault, logical_adjacency_ok, validate_logical_adjacency};

verus! {

broadcast use vstd::std_specs::hash::group_hash_axioms;

fn invalid(violation: TopologyViolation) -> (error: HexFaceTopologyError)
    ensures
        error == HexFaceTopologyError::ValidationFailed(violation),
{
    HexFaceTopologyError::ValidationFailed(violation)
}

/// One face per tile, six half-edges per face, one index entry per tile.
pub open spec fn counts_ok(topology: HexFaceTopology, tile_count: int) -> bool {
    &&& topology.faces@.len() == tile_count
    &&& topology.half_edges@.len() == 6 * tile_count
    &&& topology.hex_to_face@.len() == tile_count
}

/// The first count fault: faces against tiles, the half-edge count overflowing
/// or against six per face, then index entries against tiles.
pub open spec fn counts_fault(topology: HexFaceTopology, tile_count: int) -> Option<HexFaceTopologyError> {
    let faces = topology.faces@.len();
    if faces != tile_count {
        Some(
            invalid_spec(
                TopologyViolation::FaceCountMismatch { faces: faces as usize, tiles: tile_count as usize },
            ),
        )
    } else if faces * 6 > usize::MAX {
        Some(invalid_spec(TopologyViolation::EdgeCountOverflow))
    } else if topology.half_edges@.len() != faces * 6 {
        Some(
            invalid_spec(
                TopologyViolation::EdgeCountMismatch {
                    half_edges: topology.half_edges@.len() as usize,
                    faces: faces as usize,
                },
            ),
        )
    } else if topology.hex_to_face@.len() != tile_count {
        Some(
            invalid_spec(
                TopologyViolation::MappingCountMismatch {
                    mappings: topology.hex_to_face@.len() as usize,
                    tiles: tile_count as usize,
                },
            ),
        )
    } else {
        None
    }
}

/// Checks the face, half-edge and index counts against the tile count.
fn check_counts(topology: &HexFaceTopology, layout: &MapLayout) -> (checked: Result<
    (),
    HexFaceTopologyError,
>)
    ensures
        checked is Ok <==> counts_ok(*topology, layout.tile_seq().len() as int),
        topology.faces@.len() != layout.tile_seq().len() ==> checked == Err::<(), HexFaceTopologyError>(
            invalid_spec(
                TopologyViolation::FaceCountMismatch {
                    faces: topology.faces@.len() as usize,
                    tiles: layout.tile_seq().len() as usize,
                },
            ),
        ),
        checked == outcome(counts_fault(*topology, layout.tile_seq().len() as int)),
{
    let tiles = layout.tile_count();
    let faces = topology.faces.len();
    if faces != tiles {
        return Err(invalid(TopologyViolation::FaceCountMismatch { faces, tiles }));
    }
    let expected_edges = match faces.checked_mul(6) {
        Some(count) => count,
        None => {
            assert(topology.half_edges@.len() == topology.half_edges.len());
            return Err(invalid(TopologyViolation::EdgeCountOverflow));
        },
    };
    if topology.half_edges.len() != expected_edges {
        return Err(
            invalid(
                TopologyViolation::EdgeCountMismatch {
                    half_edges: topology.half_edges.len(),
                    faces,
                },
            ),
        );
    }
    if topology.hex_to_face.len() != tiles {
        return Err(
            invalid(
                TopologyViolation::MappingCountMismatch {
                    mappings: topology.hex_to_face.len(),
                    tiles,
                },
            ),
        );
    }
    Ok(())
}

/// The validation error carrying `violation`.
pub open spec fn invalid_spec(violation: TopologyViolation) -> HexFaceTopologyError {
    HexFaceTopologyError::ValidationFailed(violation)
}

/// Face `f`'s cell is a tile and the index maps that cell to `f`.
pub open spec fn face_mapped(topology: HexFaceTopology, layout: MapLayout, f: int) -> bool {
    let cell = topology.faces@[f].hex;
    &&& layout.has_tile(cell)
    &&& topology.hex_to_face@.contains_key(coord_key(cell))
    &&& topology.hex_to_face@[coord_key(cell)] == FaceId(f as usize)
}

/// The index is a bijection between tile cells and faces: with equal counts,
/// every face's cell is a tile mapped to that face.
pub open spec fn mapping_ok(topology: HexFaceTopology, layout: MapLayout) -> bool {
    forall|f: int| 0 <= f < topology.faces@.len() ==> #[trigger] face_mapped(topology, layout, f)
}

/// Checks the tile-to-face bijection face by face; reports the first face
/// whose cell is not a tile or is not mapped back to it.
fn check_mapping(topology: &HexFaceTopology, layout: &MapLayout) -> (checked: Result<
    (),
    HexFaceTopologyError,
>)
    ensures
        checked is Ok <==> mapping_ok(*topology, *layout),
        match checked {
            Ok(()) => true,
            Err(error) => exists|f: int|
                0 <= f < topology.faces@.len() && !face_mapped(*topology, *layout, f) && (forall|g: int|
                    0 <= g < f ==> #[trigger] face_mapped(*topology, *layout, g)) && error
                    == invalid_spec(TopologyViolation::FaceOutsideBijection(f as usize)),
        },
{
    let mut f: usize = 0;
    while f < topology.faces.len()
        invariant
            f <= topology.faces@.len(),
            forall|g: int| 0 <= g < f ==> #[trigger] face_mapped(*topology, *layout, g),
        decreases topology.faces@.len() - f,
    {
        let cell = topology.faces[f].hex;
        let key = hex_key(cell);
        let mapped = layout.contains_tile(cell) && match topology.hex_to_face.get(&key) {
            Some(id) => id.0 == f,
            None => false,
        };
        if !mapped {
            assert(!face_mapped(*topology, *layout, f as int));
            return Err(invalid(TopologyViolation::FaceOutsideBijection(f)));
        }
        assert(face_mapped(*topology, *layout, f as int));
        f += 1;
    }
    Ok(())
}

/// The first reference of half-edge `e` that is out of range, if any:
/// endpoints, then cycle neighbours, then face, then twin.
pub open spec fn edge_reference_fault(topology: HexFaceTopology, e: int) -> Option<
    TopologyViolation,
> {
    let edge = topology.half_edges@[e];
    let vertex_count = topology.vertices@.len();
    let edge_count = topology.half_edges@.len();
    if edge.origin.0 >= vertex_count || edge.destination.0 >= vertex_count {
        Some(TopologyViolation::EdgeReferencesInvalidVertices(e as usize))
    } else if edge.next.0 >= edge_count || edge.prev.0 >= edge_count {
        Some(TopologyViolation::EdgeReferencesInvalidCycle(e as usize))
    } else if edge.incident_face.0 >= topology.faces@.len() {
        Some(TopologyViolation::EdgeReferencesInvalidFace(e as usize))
    } else if edge.twin matches Some(twin) && twin.0 >= edge_count {
        Some(TopologyViolation::EdgeReferencesInvalidTwin(e as usize))
    } else {
        None
    }
}

/// The violation a validation error carries.
pub open spec fn violation_of(error: HexFaceTopologyError) -> TopologyViolation
    recommends
        error is ValidationFailed,
{
    match error {
        HexFaceTopologyError::ValidationFailed(violation) => violation,
        _ => TopologyViolation::UnreferencedHalfEdge,
    }
}

/// Every id that a half-edge holds is in range.
pub open spec fn edge_references_ok(topology: HexFaceTopology) -> bool {
    forall|e: int| 0 <= e < topology.half_edges@.len() ==> #[trigger] edge_reference_fault(topology, e) is None
}

/// Checks every half-edge's references; reports the first fault.
fn check_edge_references(topology: &HexFaceTopology) -> (checked: Result<(), HexFaceTopologyError>)
    ensures
        checked is Ok <==> edge_references_ok(*topology),
        match checked {
            Ok(()) => true,
            Err(error) => exists|e: int|
                {
                    &&& 0 <= e < topology.half_edges@.len()
                    &&& forall|d: int|
                        0 <= d < e ==> #[trigger] edge_reference_fault(*topology, d) is None
                    &&& edge_reference_fault(*topology, e) == Some(violation_of(error))
                    &&& error is ValidationFailed
                },
        },
{
    let vertex_count = topology.vertices.len();
    let edge_count = topology.half_edges.len();
    let face_count = topology.faces.len();
    let mut e: usize = 0;
    while e < edge_count
        invariant
            e <= edge_count,
            vertex_count == topology.vertices@.len(),
            edge_count == topology.half_edges@.len(),
            face_count == topology.faces@.len(),
            forall|d: int| 0 <= d < e ==> #[trigger] edge_reference_fault(*topology, d) is None,
        decreases edge_count - e,
    {
        let edge = topology.half_edges[e];
        let ghost fault = edge_reference_fault(*topology, e as int);
        if edge.origin.0 >= vertex_count || edge.destination.0 >= vertex_count {
            return Err(invalid(TopologyViolation::EdgeReferencesInvalidVertices(e)));
        }
        if edge.next.0 >= edge_count || edge.prev.0 >= edge_count {
            return Err(invalid(TopologyViolation::EdgeReferencesInvalidCycle(e)));
        }
        if edge.incident_face.0 >= face_count {
            return Err(invalid(TopologyViolation::EdgeReferencesInvalidFace(e)));
        }
        if let Some(twin) = edge.twin {
            if twin.0 >= edge_count {
                return Err(invalid(TopologyViolation::EdgeReferencesInvalidTwin(e)));
            }
        }
        e += 1;
    }
    Ok(())
}

/// The half-edge reached from `start` by following `next` links `steps` times.
pub open spec fn next_walk(edges: Seq<HalfEdge>, start: int, steps: nat) -> int
    decreases steps,
{
    if steps == 0 {
        start
    } else {
        edges[next_walk(edges, start, (steps - 1) as nat)].next.0 as int
    }
}

/// The half-edge reached from `start` by following `prev` links `steps` times.
pub open spec fn prev_walk(edges: Seq<HalfEdge>, start: int, steps: nat) -> int
    decreases steps,
{
    if steps == 0 {
        start
    } else {
        edges[prev_walk(edges, start, (steps - 1) as nat)].prev.0 as int
    }
}

/// Face `f` has six distinct corner vertices, all in range.
pub open spec fn corners_ok(topology: HexFaceTopology, f: int) -> bool {
    let corners = topology.faces@[f].vertices;
    &&& forall|i: int, j: int| 0 <= i < j < 6 ==> corners[i] != corners[j]
    &&& forall|i: int| 0 <= i < 6 ==> (#[trigger] corners[i]).0 < topology.vertices@.len()
}

/// Step `k` of face `f`'s `next` cycle: the half-edge belongs to `f`, runs
/// from corner `k` to corner `k + 1`, and its successor's `prev` leads back.
pub open spec fn next_link_ok(topology: HexFaceTopology, f: int, k: nat) -> bool {
    let edges = topology.half_edges@;
    let face = topology.faces@[f];
    let current = next_walk(edges, face.boundary.0 as int, k);
    &&& edges[current].incident_face == FaceId(f as usize)
    &&& edges[current].origin == face.vertices[k as int]
    &&& edges[current].destination == face.vertices[((k + 1) % 6) as int]
    &&& edges[edges[current].next.0 as int].prev.0 == current
}

/// Face `f`'s `next` links from its boundary visit six distinct half-edges
/// that follow its corners, and return to the boundary.
pub open spec fn next_cycle_ok(topology: HexFaceTopology, f: int) -> bool {
    let edges = topology.half_edges@;
    let start = topology.faces@[f].boundary.0 as int;
    &&& start < edges.len()
    &&& forall|j: nat, k: nat| j < k < 6 ==> next_walk(edges, start, j) != next_walk(edges, start, k)
    &&& forall|k: nat| k < 6 ==> #[trigger] next_link_ok(topology, f, k)
    &&& next_walk(edges, start, 6) == start
}

/// Step `k` of face `f`'s `prev` cycle: the half-edge belongs to `f` and its
/// predecessor's `next` leads back.
pub open spec fn prev_link_ok(topology: HexFaceTopology, f: int, k: nat) -> bool {
    let edges = topology.half_edges@;
    let current = prev_walk(edges, topology.faces@[f].boundary.0 as int, k);
    &&& edges[current].incident_face == FaceId(f as usize)
    &&& edges[edges[current].prev.0 as int].next.0 == current
}

/// Face `f`'s `prev` links from its boundary visit six distinct half-edges of
/// the face and return to the boundary.
pub open spec fn prev_cycle_ok(topology: HexFaceTopology, f: int) -> bool {
    let edges = topology.half_edges@;
    let start = topology.faces@[f].boundary.0 as int;
    &&& start < edges.len()
    &&& forall|j: nat, k: nat| j < k < 6 ==> prev_walk(edges, start, j) != prev_walk(edges, start, k)
    &&& forall|k: nat| k < 6 ==> #[trigger] prev_link_ok(topology, f, k)
    &&& prev_walk(edges, start, 6) == start
}

/// The outcome of a check whose first fault, if any, is `fault`.
pub open spec fn outcome(fault: Option<HexFaceTopologyError>) -> Result<(), HexFaceTopologyError> {
    match fault {
        Some(error) => Err(error),
        None => Ok(()),
    }
}

/// The first fault among the indices `from..to`, in ascending order.
pub open spec fn first_fault(
    faults: spec_fn(int) -> Option<HexFaceTopologyError>,
    from: int,
    to: int,
) -> Option<HexFaceTopologyError>
    decreases to - from,
{
    if from >= to {
        None
    } else {
        match faults(from) {
            Some(error) => Some(error),
            None => first_fault(faults, from + 1, to),
        }
    }
}

/// The first fault is the fault at the first faulty index.
pub proof fn lemma_first_fault_at(
    faults: spec_fn(int) -> Option<HexFaceTopologyError>,
    from: int,
    to: int,
    at: int,
)
    requires
        from <= at < to,
        forall|d: int| from <= d < at ==> (#[trigger] faults(d)) is None,
        faults(at) is Some,
    ensures
        first_fault(faults, from, to) == faults(at),
    decreases at - from,
{
    if from < at {
        assert(faults(from) is None);
        lemma_first_fault_at(faults, from + 1, to, at);
    }
}

/// Without a faulty index there is no first fault.
pub proof fn lemma_first_fault_none(faults: spec_fn(int) -> Option<HexFaceTopologyError>, from: int, to: int)
    requires
        forall|d: int| from <= d < to ==> (#[trigger] faults(d)) is None,
    ensures
        first_fault(faults, from, to) is None,
    decreases to - from,
{
    if from < to {
        assert(faults(from) is None);
        lemma_first_fault_none(faults, from + 1, to);
    }
}

/// The first fault of face `f`'s corners: a repeated vertex id, else one out
/// of range.
pub open spec fn corner_fault(topology: HexFaceTopology, f: int) -> Option<HexFaceTopologyError> {
    let corners = topology.faces@[f].vertices;
    if exists|i: int, j: int| 0 <= i < j < 6 && #[trigger] corners[i] == #[trigger] corners[j] {
        Some(invalid_spec(TopologyViolation::FaceVerticesNotUnique(f as usize)))
    } else if exists|i: int| 0 <= i < 6 && (#[trigger] corners[i]).0 >= topology.vertices@.len() {
        Some(invalid_spec(TopologyViolation::FaceReferencesInvalidVertex(f as usize)))
    } else {
        None
    }
}

/// The fault of step `k` of face `f`'s `next` cycle, given the half-edges
/// `seen` on earlier faces' cycles and the directions `directed` they took:
/// the walk repeats, leaves the face, breaks the corner order, reaches a
/// half-edge seen before, repeats a direction, or its successor's `prev`
/// does not lead back.
pub open spec fn next_step_fault(
    topology: HexFaceTopology,
    f: int,
    k: nat,
    seen: Seq<bool>,
    directed: Set<u128>,
) -> Option<HexFaceTopologyError> {
    let edges = topology.half_edges@;
    let face = topology.faces@[f];
    let b = face.boundary.0 as int;
    let current = next_walk(edges, b, k);
    let edge = edges[current];
    let id = HalfEdgeId(current as usize);
    if exists|j: nat| j < k && #[trigger] next_walk(edges, b, j) == current {
        Some(invalid_spec(TopologyViolation::NextCycleRepeats(FaceId(f as usize))))
    } else if edge.incident_face.0 != f {
        Some(invalid_spec(TopologyViolation::WrongIncidentFace(id)))
    } else if edge.origin != face.vertices[k as int] || edge.destination != face.vertices[((k + 1)
        % 6) as int] {
        Some(invalid_spec(TopologyViolation::EdgeOrderInconsistent(FaceId(f as usize))))
    } else if seen[current] {
        Some(invalid_spec(TopologyViolation::EdgeInMultipleFaces(id)))
    } else if directed.contains(edge_direction(edges, current)) || exists|j: nat|
        j < k && edge_direction(edges, #[trigger] next_walk(edges, b, j)) == edge_direction(edges, current) {
        Some(
            invalid_spec(
                TopologyViolation::DuplicateDirectedEdge { origin: edge.origin, destination: edge.destination },
            ),
        )
    } else if edges[edge.next.0 as int].prev.0 != current {
        Some(invalid_spec(TopologyViolation::NextPrevInconsistent(id)))
    } else {
        None
    }
}

/// The first fault of face `f`'s `next` cycle from step `k` on, then the
/// cycle not closing after six steps.
pub open spec fn next_cycle_fault_from(
    topology: HexFaceTopology,
    f: int,
    k: nat,
    seen: Seq<bool>,
    directed: Set<u128>,
) -> Option<HexFaceTopologyError>
    decreases 6 - k,
{
    if k >= 6 {
        let b = topology.faces@[f].boundary.0 as int;
        if next_walk(topology.half_edges@, b, 6) != b {
            Some(invalid_spec(TopologyViolation::NextCycleNotSix(FaceId(f as usize))))
        } else {
            None
        }
    } else {
        match next_step_fault(topology, f, k, seen, directed) {
            Some(error) => Some(error),
            None => next_cycle_fault_from(topology, f, k + 1, seen, directed),
        }
    }
}

/// The first fault of face `f`'s `next` cycle: a boundary id out of range,
/// else the first faulty step.
pub open spec fn next_cycle_fault(
    topology: HexFaceTopology,
    f: int,
    seen: Seq<bool>,
    directed: Set<u128>,
) -> Option<HexFaceTopologyError> {
    let boundary = topology.faces@[f].boundary;
    if boundary.0 >= topology.half_edges@.len() {
        Some(invalid_spec(TopologyViolation::InvalidEdgeId(boundary)))
    } else {
        next_cycle_fault_from(topology, f, 0, seen, directed)
    }
}

/// The fault of step `k` of face `f`'s `prev` cycle: the walk repeats, leaves
/// the face, or its predecessor's `next` does not lead back.
pub open spec fn prev_step_fault(topology: HexFaceTopology, f: int, k: nat) -> Option<HexFaceTopologyError> {
    let edges = topology.half_edges@;
    let b = topology.faces@[f].boundary.0 as int;
    let current = prev_walk(edges, b, k);
    let edge = edges[current];
    let id = HalfEdgeId(current as usize);
    if exists|j: nat| j < k && #[trigger] prev_walk(edges, b, j) == current {
        Some(invalid_spec(TopologyViolation::PrevCycleRepeats(FaceId(f as usize))))
    } else if edge.incident_face.0 != f {
        Some(invalid_spec(TopologyViolation::WrongIncidentFace(id)))
    } else if edges[edge.prev.0 as int].next.0 != current {
        Some(invalid_spec(TopologyViolation::PrevNextInconsistent(id)))
    } else {
        None
    }
}

/// The first fault of face `f`'s `prev` cycle from step `k` on, then the
/// cycle not closing after six steps.
pub open spec fn prev_cycle_fault_from(topology: HexFaceTopology, f: int, k: nat) -> Option<
    HexFaceTopologyError,
>
    decreases 6 - k,
{
    if k >= 6 {
        let b = topology.faces@[f].boundary.0 as int;
        if prev_walk(topology.half_edges@, b, 6) != b {
            Some(invalid_spec(TopologyViolation::PrevCycleNotSix(FaceId(f as usize))))
        } else {
            None
        }
    } else {
        match prev_step_fault(topology, f, k) {
            Some(error) => Some(error),
            None => prev_cycle_fault_from(topology, f, k + 1),
        }
    }
}

/// The first fault of face `f`: its corners, its geometric verdict, its
/// `next` cycle, then its `prev` cycle.
pub open spec fn face_fault(
    topology: HexFaceTopology,
    geometry: Seq<Option<HexFaceTopologyError>>,
    f: int,
    seen: Seq<bool>,
    directed: Set<u128>,
) -> Option<HexFaceTopologyError> {
    match corner_fault(topology, f) {
        Some(error) => Some(error),
        None => match geometry[f] {
            Some(error) => Some(error),
            None => match next_cycle_fault(topology, f, seen, directed) {
                Some(error) => Some(error),
                None => prev_cycle_fault_from(topology, f, 0),
            },
        },
    }
}

/// The `next` walk stays in range when every `next` link is in range.
proof fn lemma_next_walk_in_range(topology: HexFaceTopology, start: int, k: nat)
    requires
        edge_references_ok(topology),
        0 <= start < topology.half_edges@.len(),
    ensures
        0 <= next_walk(topology.half_edges@, start, k) < topology.half_edges@.len(),
    decreases k,
{
    if k > 0 {
        lemma_next_walk_in_range(topology, start, (k - 1) as nat);
        assert(edge_reference_fault(topology, next_walk(topology.half_edges@, start, (k - 1) as nat)) is None);
    }
}

/// The `prev` walk stays in range when every `prev` link is in range.
proof fn lemma_prev_walk_in_range(topology: HexFaceTopology, start: int, k: nat)
    requires
        edge_references_ok(topology),
        0 <= start < topology.half_edges@.len(),
    ensures
        0 <= prev_walk(topology.half_edges@, start, k) < topology.half_edges@.len(),
    decreases k,
{
    if k > 0 {
        lemma_prev_walk_in_range(topology, start, (k - 1) as nat);
        assert(edge_reference_fault(topology, prev_walk(topology.half_edges@, start, (k - 1) as nat)) is None);
    }
}

fn contains_index(items: &Vec<usize>, target: usize) -> (found: bool)
    ensures
        found == items@.contains(target),
{
    let mut i: usize = 0;
    while i < items.len()
        invariant
            i <= items@.len(),
            forall|j: int| 0 <= j < i ==> items@[j] != target,
        decreases items@.len() - i,
    {
        if items[i] == target {
            return true;
        }
        i += 1;
    }
    false
}

/// The direction key of half-edge `e`.
pub open spec fn edge_direction(edges: Seq<HalfEdge>, e: int) -> u128 {
    direction_key(edges[e].origin.0, edges[e].destination.0)
}

/// None of face `f`'s cycle half-edges was seen before, and none of their
/// directions was taken before.
pub open spec fn cycle_fresh(
    topology: HexFaceTopology,
    f: int,
    seen: Seq<bool>,
    directed: Set<u128>,
) -> bool {
    let edges = topology.half_edges@;
    let start = topology.faces@[f].boundary.0 as int;
    forall|k: nat|
        k < 6 ==> !seen[#[trigger] next_walk(edges, start, k)] && !directed.contains(
            edge_direction(edges, next_walk(edges, start, k)),
        )
}

/// `seen` marks exactly the earlier marks and face `f`'s cycle half-edges.
pub open spec fn marks_cycle(
    topology: HexFaceTopology,
    f: int,
    before: Seq<bool>,
    after: Seq<bool>,
    count: nat,
) -> bool {
    let edges = topology.half_edges@;
    let start = topology.faces@[f].boundary.0 as int;
    &&& after.len() == before.len()
    &&& forall|e: int|
        0 <= e < before.len() ==> #[trigger] after[e] == (before[e] || exists|k: nat|
            k < count && next_walk(edges, start, k) == e)
}

/// `after` holds exactly the earlier directions and those of face `f`'s
/// cycle half-edges.
pub open spec fn adds_cycle_directions(
    topology: HexFaceTopology,
    f: int,
    before: Set<u128>,
    after: Set<u128>,
    count: nat,
) -> bool {
    let edges = topology.half_edges@;
    let start = topology.faces@[f].boundary.0 as int;
    forall|x: u128|
        #[trigger] after.contains(x) == (before.contains(x) || exists|k: nat|
            k < count && x == edge_direction(edges, next_walk(edges, start, k)))
}

/// Walks face `f`'s `next` cycle, marking its half-edges and recording their
/// directions.
fn check_next_cycle(
    topology: &HexFaceTopology,
    f: usize,
    seen: &mut Vec<bool>,
    directed: &mut HashSet<u128>,
) -> (checked: Result<(), HexFaceTopologyError>)
    requires
        f < topology.faces@.len(),
        edge_references_ok(*topology),
        corners_ok(*topology, f as int),
        old(seen)@.len() == topology.half_edges@.len(),
    ensures
        checked is Ok <==> next_cycle_ok(*topology, f as int) && cycle_fresh(
            *topology,
            f as int,
            old(seen)@,
            old(directed)@,
        ),
        checked is Ok ==> marks_cycle(*topology, f as int, old(seen)@, final(seen)@, 6)
            && adds_cycle_directions(*topology, f as int, old(directed)@, final(directed)@, 6),
        checked == outcome(next_cycle_fault(*topology, f as int, old(seen)@, old(directed)@)),
{
    let ghost edges = topology.half_edges@;
    let ghost old_seen = seen@;
    let ghost old_directed = directed@;
    let face = topology.faces[f];
    let start = face.boundary;
    let ghost b = start.0 as int;
    if start.0 >= topology.half_edges.len() {
        return Err(invalid(TopologyViolation::InvalidEdgeId(start)));
    }
    let mut visited: Vec<usize> = Vec::new();
    let mut current = start;
    let mut k: usize = 0;
    while k < 6
        invariant
            k <= 6,
            f < topology.faces@.len(),
            face == topology.faces@[f as int],
            start == face.boundary,
            b == start.0,
            b < edges.len(),
            edges == topology.half_edges@,
            old_seen == old(seen)@,
            old_directed == old(directed)@,
            old_seen.len() == edges.len(),
            edge_references_ok(*topology),
            corners_ok(*topology, f as int),
            current.0 == next_walk(edges, b, k as nat),
            visited@ == Seq::new(k as nat, |j: int| next_walk(edges, b, j as nat) as usize),
            forall|j: nat| j < k ==> #[trigger] next_link_ok(*topology, f as int, j),
            forall|i: nat, j: nat| i < j < k ==> next_walk(edges, b, i) != next_walk(edges, b, j),
            forall|j: nat|
                j < k ==> !old_seen[#[trigger] next_walk(edges, b, j)] && !old_directed.contains(
                    edge_direction(edges, next_walk(edges, b, j)),
                ),
            marks_cycle(*topology, f as int, old_seen, seen@, k as nat),
            adds_cycle_directions(*topology, f as int, old_directed, directed@, k as nat),
            next_cycle_fault_from(*topology, f as int, 0, old_seen, old_directed) == next_cycle_fault_from(
                *topology,
                f as int,
                k as nat,
                old_seen,
                old_directed,
            ),
        decreases 6 - k,
    {
        proof {
            lemma_next_walk_in_range(*topology, b, k as nat);
        }
        let ghost step = next_step_fault(*topology, f as int, k as nat, old_seen, old_directed);
        if contains_index(&visited, current.0) {
            proof {
                let j = choose|j: int| 0 <= j < visited@.len() && visited@[j] == current.0;
                assert(next_walk(edges, b, j as nat) == next_walk(edges, b, k as nat));
                assert(step == Some(invalid_spec(TopologyViolation::NextCycleRepeats(FaceId(f)))));
            }
            return Err(invalid(TopologyViolation::NextCycleRepeats(FaceId(f))));
        }
        proof {
            assert forall|j: nat| j < k implies #[trigger] next_walk(edges, b, j) != next_walk(edges, b, k as nat) by {
                assert(visited@[j as int] == next_walk(edges, b, j) as usize);
                lemma_next_walk_in_range(*topology, b, j);
            }
        }
        let edge = topology.half_edges[current.0];
        assert(edge_reference_fault(*topology, current.0 as int) is None);
        if edge.incident_face.0 != f {
            assert(!next_link_ok(*topology, f as int, k as nat));
            assert(step == Some(invalid_spec(TopologyViolation::WrongIncidentFace(current))));
            return Err(invalid(TopologyViolation::WrongIncidentFace(current)));
        }
        if edge.origin != face.vertices[k] || edge.destination != face.vertices[(k + 1) % 6] {
            assert(!next_link_ok(*topology, f as int, k as nat));
            assert(step == Some(invalid_spec(TopologyViolation::EdgeOrderInconsistent(FaceId(f)))));
            return Err(invalid(TopologyViolation::EdgeOrderInconsistent(FaceId(f))));
        }
        if seen[current.0] {
            proof {
                assert(!(exists|j: nat| j < k && next_walk(edges, b, j) == current.0)) by {
                    if exists|j: nat| j < k && next_walk(edges, b, j) == current.0 {
                        let j = choose|j: nat| j < k && next_walk(edges, b, j) == current.0;
                        assert(visited@[j as int] == current.0);
                        assert(visited@.contains(current.0));
                    }
                }
                assert(seen@[current.0 as int] == (old_seen[current.0 as int] || exists|j: nat|
                    j < k && next_walk(edges, b, j) == current.0));
                assert(old_seen[next_walk(edges, b, k as nat)]);
                assert(!cycle_fresh(*topology, f as int, old_seen, old_directed));
                assert(step == Some(invalid_spec(TopologyViolation::EdgeInMultipleFaces(current))));
            }
            return Err(invalid(TopologyViolation::EdgeInMultipleFaces(current)));
        }
        assert(!old_seen[next_walk(edges, b, k as nat)]) by {
            assert(seen@[current.0 as int] == (old_seen[current.0 as int] || exists|j: nat|
                j < k && next_walk(edges, b, j) == current.0));
        }
        seen[current.0] = true;
        let key = direction_key_of(edge.origin.0, edge.destination.0);
        let ghost directed_before = directed@;
        if !directed.insert(key) {
            proof {
                if !old_directed.contains(key) {
                    let j = choose|j: nat|
                        j < k && key == edge_direction(edges, next_walk(edges, b, j));
                    assert(next_link_ok(*topology, f as int, j));
                    lemma_direction_key_injective(
                        edge.origin.0,
                        edge.destination.0,
                        edges[next_walk(edges, b, j)].origin.0,
                        edges[next_walk(edges, b, j)].destination.0,
                    );
                    assert(face.vertices[j as int] == face.vertices[k as int]);
                }
                assert(old_directed.contains(edge_direction(edges, next_walk(edges, b, k as nat))));
                assert(!cycle_fresh(*topology, f as int, old_seen, old_directed));
                assert(step == Some(
                    invalid_spec(
                        TopologyViolation::DuplicateDirectedEdge {
                            origin: edge.origin,
                            destination: edge.destination,
                        },
                    ),
                ));
            }
            return Err(
                invalid(
                    TopologyViolation::DuplicateDirectedEdge {
                        origin: edge.origin,
                        destination: edge.destination,
                    },
                ),
            );
        }
        proof {
            assert(!directed_before.contains(key));
            assert(key == edge_direction(edges, next_walk(edges, b, k as nat)));
            assert(directed_before.contains(key) == (old_directed.contains(key) || exists|j: nat|
                j < k && key == edge_direction(edges, next_walk(edges, b, j))));
        }
        if topology.half_edges[edge.next.0].prev != current {
            assert(!next_link_ok(*topology, f as int, k as nat));
            assert(step == Some(invalid_spec(TopologyViolation::NextPrevInconsistent(current))));
            return Err(invalid(TopologyViolation::NextPrevInconsistent(current)));
        }
        proof {
            assert(step is None);
            assert(next_link_ok(*topology, f as int, k as nat));
            assert(!old_seen[next_walk(edges, b, k as nat)]);
            assert(!old_directed.contains(edge_direction(edges, next_walk(edges, b, k as nat))));
            assert forall|e: int| 0 <= e < old_seen.len() implies #[trigger] seen@[e] == (old_seen[e]
                || exists|j: nat| j < k + 1 && next_walk(edges, b, j) == e) by {
                if e == current.0 {
                    assert(next_walk(edges, b, k as nat) == e);
                }
            }
            assert forall|x: u128| #[trigger] directed@.contains(x) == (old_directed.contains(x)
                || exists|j: nat| j < k + 1 && x == edge_direction(edges, next_walk(edges, b, j))) by {
                if x == key {
                    assert(x == edge_direction(edges, next_walk(edges, b, k as nat)));
                }
            }
            assert(visited@.push(current.0) =~= Seq::new(
                (k + 1) as nat,
                |j: int| next_walk(edges, b, j as nat) as usize,
            ));
        }
        visited.push(current.0);
        current = edge.next;
        k += 1;
    }
    if current != start {
        return Err(invalid(TopologyViolation::NextCycleNotSix(FaceId(f))));
    }
    Ok(())
}

/// Walks face `f`'s `prev` cycle.
fn check_prev_cycle(topology: &HexFaceTopology, f: usize) -> (checked: Result<
    (),
    HexFaceTopologyError,
>)
    requires
        f < topology.faces@.len(),
        edge_references_ok(*topology),
        topology.faces@[f as int].boundary.0 < topology.half_edges@.len(),
    ensures
        checked is Ok <==> prev_cycle_ok(*topology, f as int),
        checked == outcome(prev_cycle_fault_from(*topology, f as int, 0)),
{
    let ghost edges = topology.half_edges@;
    let start = topology.faces[f].boundary;
    let ghost b = start.0 as int;
    let mut visited: Vec<usize> = Vec::new();
    let mut current = start;
    let mut k: usize = 0;
    while k < 6
        invariant
            k <= 6,
            f < topology.faces@.len(),
            start == topology.faces@[f as int].boundary,
            b == start.0,
            b < edges.len(),
            edges == topology.half_edges@,
            edge_references_ok(*topology),
            current.0 == prev_walk(edges, b, k as nat),
            visited@ == Seq::new(k as nat, |j: int| prev_walk(edges, b, j as nat) as usize),
            forall|j: nat| j < k ==> #[trigger] prev_link_ok(*topology, f as int, j),
            forall|i: nat, j: nat| i < j < k ==> prev_walk(edges, b, i) != prev_walk(edges, b, j),
            prev_cycle_fault_from(*topology, f as int, 0) == prev_cycle_fault_from(*topology, f as int, k as nat),
        decreases 6 - k,
    {
        proof {
            lemma_prev_walk_in_range(*topology, b, k as nat);
        }
        let ghost step = prev_step_fault(*topology, f as int, k as nat);
        if contains_index(&visited, current.0) {
            proof {
                let j = choose|j: int| 0 <= j < visited@.len() && visited@[j] == current.0;
                assert(prev_walk(edges, b, j as nat) == prev_walk(edges, b, k as nat));
                assert(step == Some(invalid_spec(TopologyViolation::PrevCycleRepeats(FaceId(f)))));
            }
            return Err(invalid(TopologyViolation::PrevCycleRepeats(FaceId(f))));
        }
        proof {
            assert forall|j: nat| j < k implies #[trigger] prev_walk(edges, b, j) != prev_walk(edges, b, k as nat) by {
                assert(visited@[j as int] == prev_walk(edges, b, j) as usize);
                lemma_prev_walk_in_range(*topology, b, j);
            }
        }
        let edge = topology.half_edges[current.0];
        assert(edge_reference_fault(*topology, current.0 as int) is None);
        if edge.incident_face.0 != f {
            assert(!prev_link_ok(*topology, f as int, k as nat));
            assert(step == Some(invalid_spec(TopologyViolation::WrongIncidentFace(current))));
            return Err(invalid(TopologyViolation::WrongIncidentFace(current)));
        }
        if topology.half_edges[edge.prev.0].next != current {
            assert(!prev_link_ok(*topology, f as int, k as nat));
            assert(step == Some(invalid_spec(TopologyViolation::PrevNextInconsistent(current))));
            return Err(invalid(TopologyViolation::PrevNextInconsistent(current)));
        }
        proof {
            assert(step is None);
            assert(prev_link_ok(*topology, f as int, k as nat));
            assert forall|j: nat| j < k implies prev_walk(edges, b, j) != prev_walk(
                edges,
                b,
                k as nat,
            ) by {
                assert(visited@[j as int] == prev_walk(edges, b, j) as usize);
                lemma_prev_walk_in_range(*topology, b, j);
            }
            assert(visited@.push(current.0) =~= Seq::new(
                (k + 1) as nat,
                |j: int| prev_walk(edges, b, j as nat) as usize,
            ));
        }
        visited.push(current.0);
        current = edge.prev;
        k += 1;
    }
    if current != start {
        return Err(invalid(TopologyViolation::PrevCycleNotSix(FaceId(f))));
    }
    Ok(())
}

/// Face `f` passes every per-face check: distinct corners in range, a
/// geometric verdict without fault, and both boundary cycles.
pub open spec fn face_ok(
    topology: HexFaceTopology,
    geometry: Seq<Option<HexFaceTopologyError>>,
    f: int,
) -> bool {
    &&& corners_ok(topology, f)
    &&& geometry[f] is None
    &&& next_cycle_ok(topology, f)
    &&& prev_cycle_ok(topology, f)
}

/// Checks the corners of face `f`: six distinct vertex ids, then all in range.
fn check_corners(topology: &HexFaceTopology, f: usize) -> (checked: Result<
    (),
    HexFaceTopologyError,
>)
    requires
        f < topology.faces@.len(),
    ensures
        checked is Ok <==> corners_ok(*topology, f as int),
        checked == outcome(corner_fault(*topology, f as int)),
{
    let corners = topology.faces[f].vertices;
    let mut i: usize = 0;
    while i < 6
        invariant
            i <= 6,
            f < topology.faces@.len(),
            corners == topology.faces@[f as int].vertices,
            forall|a: int, b: int| 0 <= a < b < 6 && a < i ==> corners[a] != corners[b],
        decreases 6 - i,
    {
        let mut j: usize = i + 1;
        while j < 6
            invariant
                i < j <= 6,
                f < topology.faces@.len(),
                corners == topology.faces@[f as int].vertices,
                forall|a: int, b: int| 0 <= a < b < 6 && a < i ==> corners[a] != corners[b],
                forall|b: int| i < b < j ==> corners[i as int] != corners[b],
            decreases 6 - j,
        {
            if corners[i] == corners[j] {
                assert(corners[i as int] == corners[j as int]);
                return Err(invalid(TopologyViolation::FaceVerticesNotUnique(f)));
            }
            j += 1;
        }
        i += 1;
    }
    let mut c: usize = 0;
    while c < 6
        invariant
            c <= 6,
            f < topology.faces@.len(),
            corners == topology.faces@[f as int].vertices,
            forall|a: int, b: int| 0 <= a < b < 6 ==> corners[a] != corners[b],
            forall|a: int| 0 <= a < c ==> (#[trigger] corners[a]).0 < topology.vertices@.len(),
        decreases 6 - c,
    {
        if corners[c].0 >= topology.vertices.len() {
            assert((corners[c as int]).0 >= topology.vertices@.len());
            return Err(invalid(TopologyViolation::FaceReferencesInvalidVertex(f)));
        }
        c += 1;
    }
    Ok(())
}

/// Runs every per-face check on face `f`, marking its cycle half-edges and
/// recording their directions.
fn check_face(
    topology: &HexFaceTopology,
    geometry: &Vec<Option<HexFaceTopologyError>>,
    f: usize,
    seen: &mut Vec<bool>,
    directed: &mut HashSet<u128>,
) -> (checked: Result<(), HexFaceTopologyError>)
    requires
        f < topology.faces@.len(),
        geometry@.len() == topology.faces@.len(),
        edge_references_ok(*topology),
        old(seen)@.len() == topology.half_edges@.len(),
    ensures
        checked is Ok <==> face_ok(*topology, geometry@, f as int) && cycle_fresh(
            *topology,
            f as int,
            old(seen)@,
            old(directed)@,
        ),
        checked is Ok ==> marks_cycle(*topology, f as int, old(seen)@, final(seen)@, 6)
            && adds_cycle_directions(*topology, f as int, old(directed)@, final(directed)@, 6),
        checked == outcome(face_fault(*topology, geometry@, f as int, old(seen)@, old(directed)@)),
{
    check_corners(topology, f)?;
    if let Some(fault) = geometry[f] {
        return Err(fault);
    }
    check_next_cycle(topology, f, seen, directed)?;
    check_prev_cycle(topology, f)?;
    Ok(())
}

/// Half-edge `e` is on the `next` cycle of one of the first `count` faces.
pub open spec fn on_some_cycle(topology: HexFaceTopology, e: int, count: int) -> bool {
    exists|g: int, k: nat|
        0 <= g < count && k < 6 && #[trigger] next_walk(
            topology.half_edges@,
            topology.faces@[g].boundary.0 as int,
            k,
        ) == e
}

/// No two half-edges run between the same vertices in the same direction.
pub open spec fn directions_distinct(edges: Seq<HalfEdge>) -> bool {
    forall|a: int, b: int|
        0 <= a < b < edges.len() ==> !same_direction(#[trigger] edges[a], #[trigger] edges[b])
}

/// Every face passes its checks, no direction repeats, and every half-edge
/// lies on some face's cycle.
pub open spec fn faces_ok(topology: HexFaceTopology, geometry: Seq<Option<HexFaceTopologyError>>) -> bool {
    &&& forall|f: int| 0 <= f < topology.faces@.len() ==> #[trigger] face_ok(topology, geometry, f)
    &&& directions_distinct(topology.half_edges@)
    &&& forall|e: int|
        0 <= e < topology.half_edges@.len() ==> #[trigger] on_some_cycle(
            topology,
            e,
            topology.faces@.len() as int,
        )
}

/// Which half-edges lie on the `next` cycles of the first `count` faces.
pub open spec fn cycle_marks(topology: HexFaceTopology, count: int) -> Seq<bool> {
    Seq::new(topology.half_edges@.len(), |e: int| on_some_cycle(topology, e, count))
}

/// The directions of the half-edges on the `next` cycles of the first
/// `count` faces.
pub open spec fn cycle_directions(topology: HexFaceTopology, count: int) -> Set<u128> {
    Set::new(
        |x: u128|
            exists|e: int|
                0 <= e < topology.half_edges@.len() && on_some_cycle(topology, e, count) && x
                    == edge_direction(topology.half_edges@, e),
    )
}

/// The first fault of the per-face checks from face `f` on, each face judged
/// against the cycles of the faces before it, then a half-edge on no face's
/// cycle.
pub open spec fn faces_fault_from(
    topology: HexFaceTopology,
    geometry: Seq<Option<HexFaceTopologyError>>,
    f: int,
) -> Option<HexFaceTopologyError>
    decreases topology.faces@.len() - f,
{
    let count = topology.faces@.len() as int;
    if f >= count {
        if exists|e: int| 0 <= e < topology.half_edges@.len() && !#[trigger] on_some_cycle(topology, e, count) {
            Some(invalid_spec(TopologyViolation::UnreferencedHalfEdge))
        } else {
            None
        }
    } else {
        match face_fault(topology, geometry, f, cycle_marks(topology, f), cycle_directions(topology, f)) {
            Some(error) => Some(error),
            None => faces_fault_from(topology, geometry, f + 1),
        }
    }
}

/// Same directions give the same direction key, and only those.
proof fn lemma_edge_direction(edges: Seq<HalfEdge>, a: int, b: int)
    ensures
        edge_direction(edges, a) == edge_direction(edges, b) <==> same_direction(edges[a], edges[b]),
{
    lemma_direction_key_injective(
        edges[a].origin.0,
        edges[a].destination.0,
        edges[b].origin.0,
        edges[b].destination.0,
    );
}

/// Runs the per-face checks on every face, then requires every half-edge to
/// have been reached.
fn check_faces(topology: &HexFaceTopology, geometry: &Vec<Option<HexFaceTopologyError>>) -> (checked:
    Result<(), HexFaceTopologyError>)
    requires
        geometry@.len() == topology.faces@.len(),
        edge_references_ok(*topology),
    ensures
        checked is Ok <==> faces_ok(*topology, geometry@),
        checked == outcome(faces_fault_from(*topology, geometry@, 0)),
{
    let ghost edges = topology.half_edges@;
    let ghost faces = topology.faces@;
    let mut seen: Vec<bool> = vec![false; topology.half_edges.len()];
    let mut directed: HashSet<u128> = HashSet::new();
    let mut f: usize = 0;
    while f < topology.faces.len()
        invariant
            f <= faces.len(),
            edges == topology.half_edges@,
            faces == topology.faces@,
            geometry@.len() == faces.len(),
            edge_references_ok(*topology),
            seen@.len() == edges.len(),
            forall|g: int| 0 <= g < f ==> #[trigger] face_ok(*topology, geometry@, g),
            forall|e: int| 0 <= e < edges.len() ==> #[trigger] seen@[e] == on_some_cycle(*topology, e, f as int),
            forall|x: u128|
                #[trigger] directed@.contains(x) <==> exists|e: int|
                    0 <= e < edges.len() && seen@[e] && x == edge_direction(edges, e),
            forall|a: int, b: int|
                0 <= a < b < edges.len() && seen@[a] && seen@[b] ==> !same_direction(
                    #[trigger] edges[a],
                    #[trigger] edges[b],
                ),
            forall|e: int| 0 <= e < edges.len() && seen@[e] ==> (#[trigger] edges[e]).incident_face.0 < f,
            faces_ok(*topology, geometry@) ==> forall|g: int| 0 <= g < faces.len() ==> #[trigger] face_ok(*topology, geometry@, g),
            faces_fault_from(*topology, geometry@, 0) == faces_fault_from(*topology, geometry@, f as int),
        decreases faces.len() - f,
    {
        let ghost seen_before = seen@;
        let ghost directed_before = directed@;
        proof {
            assert(seen_before =~= cycle_marks(*topology, f as int));
            assert(directed_before =~= cycle_directions(*topology, f as int));
        }
        proof {
            if faces_ok(*topology, geometry@) {
                let b = faces[f as int].boundary.0 as int;
                assert(face_ok(*topology, geometry@, f as int));
                assert forall|k: nat| k < 6 implies !seen_before[#[trigger] next_walk(edges, b, k)]
                    && !directed_before.contains(edge_direction(edges, next_walk(edges, b, k))) by {
                    assert(next_link_ok(*topology, f as int, k));
                    let c = next_walk(edges, b, k);
                    lemma_next_walk_in_range(*topology, b, k);
                    if directed_before.contains(edge_direction(edges, c)) {
                        let e = choose|e: int|
                            0 <= e < edges.len() && seen_before[e] && edge_direction(edges, c)
                                == edge_direction(edges, e);
                        lemma_edge_direction(edges, c, e);
                        if e < c {
                            assert(!same_direction(edges[e], edges[c]));
                        } else if c < e {
                            assert(!same_direction(edges[c], edges[e]));
                        }
                    }
                }
            }
        }
        match check_face(topology, geometry, f, &mut seen, &mut directed) {
            Ok(()) => {},
            Err(error) => {
                return Err(error);
            },
        }
        proof {
            let b = faces[f as int].boundary.0 as int;
            assert(face_ok(*topology, geometry@, f as int));
            assert forall|e: int| 0 <= e < edges.len() implies #[trigger] seen@[e] == on_some_cycle(
                *topology,
                e,
                f + 1,
            ) by {
                assert(seen@[e] == (seen_before[e] || exists|k: nat| k < 6 && next_walk(edges, b, k) == e));
                if exists|k: nat| k < 6 && next_walk(edges, b, k) == e {
                    let k = choose|k: nat| k < 6 && next_walk(edges, b, k) == e;
                    assert(next_walk(edges, faces[f as int].boundary.0 as int, k) == e);
                }
                if on_some_cycle(*topology, e, f + 1) {
                    let (g, k) = choose|g: int, k: nat|
                        0 <= g < f + 1 && k < 6 && #[trigger] next_walk(
                            edges,
                            faces[g].boundary.0 as int,
                            k,
                        ) == e;
                    if g < f {
                        assert(on_some_cycle(*topology, e, f as int));
                    }
                }
            }
            assert forall|e: int| 0 <= e < edges.len() && seen@[e] implies (#[trigger] edges[e]).incident_face.0 < f + 1 by {
                if !seen_before[e] {
                    let k = choose|k: nat| k < 6 && next_walk(edges, b, k) == e;
                    assert(next_link_ok(*topology, f as int, k));
                }
            }
            assert forall|x: u128|
                #[trigger] directed@.contains(x) <==> exists|e: int|
                    0 <= e < edges.len() && seen@[e] && x == edge_direction(edges, e) by {
                if directed@.contains(x) && !directed_before.contains(x) {
                    let k = choose|k: nat| k < 6 && x == edge_direction(edges, next_walk(edges, b, k));
                    lemma_next_walk_in_range(*topology, b, k);
                    assert(seen@[next_walk(edges, b, k)]);
                }
                if exists|e: int| 0 <= e < edges.len() && seen@[e] && x == edge_direction(edges, e) {
                    let e = choose|e: int| 0 <= e < edges.len() && seen@[e] && x == edge_direction(edges, e);
                    if !seen_before[e] {
                        let k = choose|k: nat| k < 6 && next_walk(edges, b, k) == e;
                    }
                }
            }
            assert forall|a: int, c: int|
                0 <= a < c < edges.len() && seen@[a] && seen@[c] implies !same_direction(
                    #[trigger] edges[a],
                    #[trigger] edges[c],
                ) by {
                lemma_edge_direction(edges, a, c);
                if !seen_before[a] && !seen_before[c] {
                    let ka = choose|k: nat| k < 6 && next_walk(edges, b, k) == a;
                    let kc = choose|k: nat| k < 6 && next_walk(edges, b, k) == c;
                    assert(next_link_ok(*topology, f as int, ka));
                    assert(next_link_ok(*topology, f as int, kc));
                    assert(corners_ok(*topology, f as int));
                    if ka < kc {
                        assert(faces[f as int].vertices[ka as int] != faces[f as int].vertices[kc as int]);
                    } else if kc < ka {
                        assert(faces[f as int].vertices[kc as int] != faces[f as int].vertices[ka as int]);
                    }
                } else if !seen_before[a] {
                    let ka = choose|k: nat| k < 6 && next_walk(edges, b, k) == a;
                    assert(directed_before.contains(edge_direction(edges, c)));
                } else if !seen_before[c] {
                    let kc = choose|k: nat| k < 6 && next_walk(edges, b, k) == c;
                    assert(directed_before.contains(edge_direction(edges, a)));
                }
            }
        }
        f += 1;
    }
    let mut e: usize = 0;
    while e < topology.half_edges.len()
        invariant
            e <= edges.len(),
            f == faces.len(),
            edges == topology.half_edges@,
            faces == topology.faces@,
            seen@.len() == edges.len(),
            forall|d: int| 0 <= d < edges.len() ==> #[trigger] seen@[d] == on_some_cycle(*topology, d, f as int),
            forall|d: int| 0 <= d < e ==> #[trigger] on_some_cycle(*topology, d, f as int),
            faces_fault_from(*topology, geometry@, 0) == faces_fault_from(*topology, geometry@, f as int),
        decreases edges.len() - e,
    {
        if !seen[e] {
            assert(!on_some_cycle(*topology, e as int, f as int));
            return Err(invalid(TopologyViolation::UnreferencedHalfEdge));
        }
        e += 1;
    }
    proof {
        assert forall|a: int, c: int| 0 <= a < c < edges.len() implies !same_direction(
            #[trigger] edges[a],
            #[trigger] edges[c],
        ) by {
            assert(seen@[a] && seen@[c]);
        }
    }
    Ok(())
}

/// The first fault of half-edge `e`'s twin link, if any: the twin must link
/// back, run the other way, and belong to a neighboring cell's face.
pub open spec fn twin_fault(topology: HexFaceTopology, e: int) -> Option<HexFaceTopologyError> {
    let edges = topology.half_edges@;
    let edge = edges[e];
    match edge.twin {
        None => None,
        Some(twin_id) => {
            let twin = edges[twin_id.0 as int];
            let cell = topology.faces@[edge.incident_face.0 as int].hex;
            let twin_cell = topology.faces@[twin.incident_face.0 as int].hex;
            if twin.twin != Some(HalfEdgeId(e as usize)) {
                Some(HexFaceTopologyError::InconsistentTwin { edge: HalfEdgeId(e as usize), twin: twin_id })
            } else if twin.origin != edge.destination || twin.destination != edge.origin {
                Some(invalid_spec(TopologyViolation::TwinNotReversed { twin: twin_id, of_edge: HalfEdgeId(e as usize) }))
            } else if !cell.is_neighbor_of(twin_cell) {
                Some(invalid_spec(TopologyViolation::TwinFacesNotNeighbors { edge_cell: cell, twin_cell }))
            } else {
                None
            }
        },
    }
}

/// Every twin link is symmetric, reversed and between neighboring cells.
pub open spec fn twins_ok(topology: HexFaceTopology) -> bool {
    forall|e: int| 0 <= e < topology.half_edges@.len() ==> #[trigger] twin_fault(topology, e) is None
}

/// Every face's cell has all six neighbors as coordinates.
pub open spec fn face_cells_have_neighbors(topology: HexFaceTopology) -> bool {
    forall|f: int| 0 <= f < topology.faces@.len() ==> (#[trigger] topology.faces@[f]).hex.has_neighbors()
}

/// Checks every twin link; reports the first fault.
fn check_twins(topology: &HexFaceTopology) -> (checked: Result<(), HexFaceTopologyError>)
    requires
        edge_references_ok(*topology),
        face_cells_have_neighbors(*topology),
    ensures
        checked is Ok <==> twins_ok(*topology),
        match checked {
            Ok(()) => true,
            Err(error) => exists|e: int|
                {
                    &&& 0 <= e < topology.half_edges@.len()
                    &&& forall|d: int| 0 <= d < e ==> #[trigger] twin_fault(*topology, d) is None
                    &&& twin_fault(*topology, e) == Some(error)
                },
        },
{
    let mut e: usize = 0;
    while e < topology.half_edges.len()
        invariant
            e <= topology.half_edges@.len(),
            edge_references_ok(*topology),
            face_cells_have_neighbors(*topology),
            forall|d: int| 0 <= d < e ==> #[trigger] twin_fault(*topology, d) is None,
        decreases topology.half_edges@.len() - e,
    {
        let edge = topology.half_edges[e];
        assert(edge_reference_fault(*topology, e as int) is None);
        if let Some(twin_id) = edge.twin {
            let twin = topology.half_edges[twin_id.0];
            assert(edge_reference_fault(*topology, twin_id.0 as int) is None);
            let links_back = match twin.twin {
                Some(back) => back.0 == e,
                None => false,
            };
            if !links_back {
                assert(twin.twin != Some(HalfEdgeId(e)));
                assert(twin_fault(*topology, e as int) == Some(
                    HexFaceTopologyError::InconsistentTwin { edge: HalfEdgeId(e), twin: twin_id },
                ));
                return Err(HexFaceTopologyError::InconsistentTwin { edge: HalfEdgeId(e), twin: twin_id });
            }
            if twin.origin != edge.destination || twin.destination != edge.origin {
                return Err(
                    invalid(TopologyViolation::TwinNotReversed { twin: twin_id, of_edge: HalfEdgeId(e) }),
                );
            }
            let cell = topology.faces[edge.incident_face.0].hex;
            let twin_cell = topology.faces[twin.incident_face.0].hex;
            if !cell.is_adjacent_to(twin_cell) {
                return Err(
                    invalid(TopologyViolation::TwinFacesNotNeighbors { edge_cell: cell, twin_cell }),
                );
            }
        }
        e += 1;
    }
    Ok(())
}

/// The counters agree with the half-edges: half of the twinned ones are the
/// paired edges, the rest are border edges, and the total matches.
pub open spec fn stats_ok(topology: HexFaceTopology) -> bool {
    let edge_count = topology.half_edges@.len();
    let paired = twinned_count(topology.half_edges@);
    let border = edge_count - paired;
    let stats = topology.stats;
    &&& paired % 2 == 0
    &&& paired / 2 == stats.paired_edge_count
    &&& border == stats.border_edge_count
    &&& stats.half_edge_count == edge_count
    &&& stats.paired_edge_count * 2 + stats.border_edge_count == edge_count
}

proof fn lemma_twinned_count_bound(edges: Seq<HalfEdge>)
    ensures
        twinned_count(edges) <= edges.len(),
    decreases edges.len(),
{
    if edges.len() > 0 {
        lemma_twinned_count_bound(edges.drop_last());
    }
}

/// Checks the paired, border and total counters against the half-edges.
fn check_stats(topology: &HexFaceTopology) -> (checked: Result<(), HexFaceTopologyError>)
    ensures
        checked is Ok <==> stats_ok(*topology),
        checked is Err ==> checked == Err::<(), HexFaceTopologyError>(
            invalid_spec(
                TopologyViolation::EdgeStatisticsInconsistent {
                    paired: topology.stats.paired_edge_count,
                    border: topology.stats.border_edge_count,
                    half_edges: topology.half_edges@.len() as usize,
                },
            ),
        ),
{
    let ghost edges = topology.half_edges@;
    let mut paired: usize = 0;
    let mut border: usize = 0;
    let mut e: usize = 0;
    while e < topology.half_edges.len()
        invariant
            e <= edges.len(),
            edges == topology.half_edges@,
            paired == twinned_count(edges.take(e as int)),
            paired + border == e,
        decreases edges.len() - e,
    {
        proof {
            assert(edges.take(e as int + 1).drop_last() =~= edges.take(e as int));
        }
        if topology.half_edges[e].twin.is_some() {
            paired += 1;
        } else {
            border += 1;
        }
        e += 1;
    }
    proof {
        assert(edges.take(e as int) =~= edges);
    }
    let stats = topology.stats;
    let total = match stats.paired_edge_count.checked_mul(2) {
        Some(doubled) => doubled.checked_add(stats.border_edge_count),
        None => None,
    };
    if paired % 2 != 0 || paired / 2 != stats.paired_edge_count || border != stats.border_edge_count
        || stats.half_edge_count != topology.half_edges.len() || total != Some(
        topology.half_edges.len(),
    ) {
        return Err(
            invalid(
                TopologyViolation::EdgeStatisticsInconsistent {
                    paired: stats.paired_edge_count,
                    border: stats.border_edge_count,
                    half_edges: topology.half_edges.len(),
                },
            ),
        );
    }
    Ok(())
}

/// Face `f` exists and its `next` links from the boundary visit six distinct
/// in-range half-edges of the face and return to the boundary.
pub open spec fn face_walk_ok(topology: HexFaceTopology, f: int) -> bool {
    let edges = topology.half_edges@;
    let start = topology.faces@[f].boundary.0 as int;
    &&& 0 <= f < topology.faces@.len()
    &&& forall|k: nat| k < 6 ==> 0 <= #[trigger] next_walk(edges, start, k) < edges.len()
    &&& forall|j: nat, k: nat| j < k < 6 ==> next_walk(edges, start, j) != next_walk(edges, start, k)
    &&& forall|k: nat| k < 6 ==> edges[#[trigger] next_walk(edges, start, k)].incident_face == FaceId(f as usize)
    &&& next_walk(edges, start, 6) == start
}

/// The six half-edge ids of face `f`'s boundary walk.
pub open spec fn face_walk(topology: HexFaceTopology, f: int) -> Seq<HalfEdgeId> {
    Seq::new(
        6,
        |k: int| HalfEdgeId(next_walk(topology.half_edges@, topology.faces@[f].boundary.0 as int, k as nat) as usize),
    )
}

/// The first fault of face `face_id`'s boundary walk from step `k` on: the
/// walk repeats, leaves the half-edges, or leaves the face; then the walk not
/// closing after six steps.
pub open spec fn walk_fault_from(topology: HexFaceTopology, face_id: FaceId, k: nat) -> Option<
    HexFaceTopologyError,
>
    decreases 6 - k,
{
    let edges = topology.half_edges@;
    let b = topology.faces@[face_id.0 as int].boundary.0 as int;
    let current = next_walk(edges, b, k);
    if k >= 6 {
        if current != b {
            Some(invalid_spec(TopologyViolation::FaceCycleNotSix(face_id)))
        } else {
            None
        }
    } else if exists|j: nat| j < k && #[trigger] next_walk(edges, b, j) == current {
        Some(invalid_spec(TopologyViolation::FaceCycleRepeats(face_id)))
    } else if current >= edges.len() {
        Some(invalid_spec(TopologyViolation::InvalidEdgeId(HalfEdgeId(current as usize))))
    } else if edges[current].incident_face != face_id {
        Some(invalid_spec(TopologyViolation::WrongIncidentFace(HalfEdgeId(current as usize))))
    } else {
        walk_fault_from(topology, face_id, k + 1)
    }
}

/// The first fault of face `face_id`'s boundary walk: an id out of range,
/// else the first faulty step.
pub open spec fn walk_fault(topology: HexFaceTopology, face_id: FaceId) -> Option<HexFaceTopologyError> {
    if face_id.0 >= topology.faces@.len() {
        Some(invalid_spec(TopologyViolation::InvalidFaceId(face_id)))
    } else {
        walk_fault_from(topology, face_id, 0)
    }
}

/// Collects the six half-edges of face `face_id`'s boundary walk.
fn edges_for_face(topology: &HexFaceTopology, face_id: FaceId) -> (found: Result<
    Vec<HalfEdgeId>,
    HexFaceTopologyError,
>)
    ensures
        found is Ok <==> face_walk_ok(*topology, face_id.0 as int),
        found matches Ok(ids) ==> ids@ == face_walk(*topology, face_id.0 as int),
        found matches Err(error) ==> walk_fault(*topology, face_id) == Some(error),
        found is Ok ==> walk_fault(*topology, face_id) is None,
{
    let ghost edges = topology.half_edges@;
    if face_id.0 >= topology.faces.len() {
        return Err(invalid(TopologyViolation::InvalidFaceId(face_id)));
    }
    let start = topology.faces[face_id.0].boundary;
    let ghost b = start.0 as int;
    let mut result: Vec<HalfEdgeId> = Vec::with_capacity(6);
    let mut current = start;
    let mut k: usize = 0;
    while k < 6
        invariant
            k <= 6,
            face_id.0 < topology.faces@.len(),
            start == topology.faces@[face_id.0 as int].boundary,
            b == start.0,
            edges == topology.half_edges@,
            current.0 == next_walk(edges, b, k as nat),
            result@ == Seq::new(k as nat, |j: int| HalfEdgeId(next_walk(edges, b, j as nat) as usize)),
            forall|j: nat| j < k ==> 0 <= #[trigger] next_walk(edges, b, j) < edges.len(),
            forall|i: nat, j: nat| i < j < k ==> next_walk(edges, b, i) != next_walk(edges, b, j),
            forall|j: nat| j < k ==> edges[#[trigger] next_walk(edges, b, j)].incident_face == face_id,
            walk_fault_from(*topology, face_id, 0) == walk_fault_from(*topology, face_id, k as nat),
        decreases 6 - k,
    {
        let mut j: usize = 0;
        while j < result.len()
            invariant
                j <= result@.len(),
                k < 6,
                face_id.0 < topology.faces@.len(),
                start == topology.faces@[face_id.0 as int].boundary,
                b == start.0,
                edges == topology.half_edges@,
                current.0 == next_walk(edges, b, k as nat),
                result@ == Seq::new(k as nat, |i: int| HalfEdgeId(next_walk(edges, b, i as nat) as usize)),
                forall|i: nat| i < j ==> next_walk(edges, b, i) != current.0,
                forall|i: nat| i < k ==> 0 <= #[trigger] next_walk(edges, b, i) < edges.len(),
                walk_fault_from(*topology, face_id, 0) == walk_fault_from(*topology, face_id, k as nat),
            decreases result@.len() - j,
        {
            if result[j].0 == current.0 {
                assert(result@[j as int] == HalfEdgeId(next_walk(edges, b, j as nat) as usize));
                assert(0 <= next_walk(edges, b, j as nat) < edges.len());
                assert(edges.len() == topology.half_edges.len());
                assert(next_walk(edges, b, j as nat) == next_walk(edges, b, k as nat));
                return Err(invalid(TopologyViolation::FaceCycleRepeats(face_id)));
            }
            j += 1;
        }
        assert(!exists|i: nat| i < k && #[trigger] next_walk(edges, b, i) == current.0);
        if current.0 >= topology.half_edges.len() {
            return Err(invalid(TopologyViolation::InvalidEdgeId(current)));
        }
        let edge = topology.half_edges[current.0];
        if edge.incident_face != face_id {
            return Err(invalid(TopologyViolation::WrongIncidentFace(current)));
        }
        proof {
            assert(result@.push(current) =~= Seq::new(
                (k + 1) as nat,
                |j: int| HalfEdgeId(next_walk(edges, b, j as nat) as usize),
            ));
        }
        result.push(current);
        current = edge.next;
        k += 1;
    }
    if current != start {
        return Err(invalid(TopologyViolation::FaceCycleNotSix(face_id)));
    }
    assert(result@ =~= face_walk(*topology, face_id.0 as int));
    Ok(result)
}

/// Half-edge `id` has no twin, or an in-range twin on another face than `target`.
pub open spec fn twin_elsewhere(topology: HexFaceTopology, id: HalfEdgeId, target: FaceId) -> bool {
    let edges = topology.half_edges@;
    match edges[id.0 as int].twin {
        None => true,
        Some(twin) => twin.0 < edges.len() && edges[twin.0 as int].incident_face != target,
    }
}

/// Half-edge `id` has an in-range twin on face `target`.
pub open spec fn twin_on(topology: HexFaceTopology, id: HalfEdgeId, target: FaceId) -> bool {
    let edges = topology.half_edges@;
    edges[id.0 as int].twin matches Some(twin) && twin.0 < edges.len() && edges[twin.0 as int].incident_face
        == target
}

/// Half-edge `id`'s twin runs the other way and links back to it.
pub open spec fn twin_symmetric(topology: HexFaceTopology, id: HalfEdgeId) -> bool {
    let edges = topology.half_edges@;
    edges[id.0 as int].twin matches Some(twin) && {
        let edge = edges[id.0 as int];
        let other = edges[twin.0 as int];
        &&& other.origin == edge.destination
        &&& other.destination == edge.origin
        &&& other.twin == Some(id)
    }
}

/// In the walk `ids`, the first half-edge whose twin lies on face `target`
/// exists, every earlier one has no twin or an in-range twin elsewhere, and
/// that twin pair is symmetric.
pub open spec fn linked_to(topology: HexFaceTopology, ids: Seq<HalfEdgeId>, target: FaceId) -> bool {
    exists|m: int|
        0 <= m < ids.len() && (forall|k: int| 0 <= k < m ==> #[trigger] twin_elsewhere(topology, ids[k], target))
            && twin_on(topology, ids[m], target) && twin_symmetric(topology, ids[m])
}

/// The outcome of searching the walk `ids` from position `k` on for the
/// first half-edge whose twin lies on face `target`: `Ok(true)` when that
/// twin pair runs the other way and links back, `Ok(false)` when no twin
/// lies there, an error for a twin id out of range on the way, or a found
/// pair that is not reversed or does not link back.
pub open spec fn twin_search_from(topology: HexFaceTopology, ids: Seq<HalfEdgeId>, target: FaceId, k: int) -> Result<
    bool,
    HexFaceTopologyError,
>
    decreases ids.len() - k,
{
    let edges = topology.half_edges@;
    if k >= ids.len() || k < 0 {
        Ok(false)
    } else {
        let id = ids[k];
        let edge = edges[id.0 as int];
        match edge.twin {
            None => twin_search_from(topology, ids, target, k + 1),
            Some(twin_id) => if twin_id.0 >= edges.len() {
                Err(invalid_spec(TopologyViolation::InvalidEdgeId(twin_id)))
            } else if edges[twin_id.0 as int].incident_face != target {
                twin_search_from(topology, ids, target, k + 1)
            } else if edges[twin_id.0 as int].origin != edge.destination || edges[twin_id.0 as int].destination
                != edge.origin {
                Err(invalid_spec(TopologyViolation::TwinNotReversed { twin: twin_id, of_edge: id }))
            } else if edges[twin_id.0 as int].twin != Some(id) {
                Err(HexFaceTopologyError::InconsistentTwin { edge: id, twin: twin_id })
            } else {
                Ok(true)
            },
        }
    }
}

/// Searches the walk `ids` of one face for the twin pair into face `target`.
fn find_symmetric_twin(topology: &HexFaceTopology, ids: &Vec<HalfEdgeId>, target: FaceId) -> (found:
    Result<bool, HexFaceTopologyError>)
    requires
        forall|k: int| 0 <= k < ids@.len() ==> (#[trigger] ids@[k]).0 < topology.half_edges@.len(),
    ensures
        found == Ok::<bool, HexFaceTopologyError>(true) <==> linked_to(*topology, ids@, target),
        found == twin_search_from(*topology, ids@, target, 0),
{
    let mut k: usize = 0;
    while k < ids.len()
        invariant
            k <= ids@.len(),
            forall|j: int| 0 <= j < ids@.len() ==> (#[trigger] ids@[j]).0 < topology.half_edges@.len(),
            forall|j: int| 0 <= j < k ==> #[trigger] twin_elsewhere(*topology, ids@[j], target),
            twin_search_from(*topology, ids@, target, 0) == twin_search_from(*topology, ids@, target, k as int),
        decreases ids@.len() - k,
    {
        let id = ids[k];
        let edge = topology.half_edges[id.0];
        if let Some(twin_id) = edge.twin {
            if twin_id.0 >= topology.half_edges.len() || topology.half_edges[twin_id.0].incident_face
                == target {
                proof {
                    if linked_to(*topology, ids@, target) {
                        let m = choose|m: int|
                            0 <= m < ids@.len() && (forall|j: int|
                                0 <= j < m ==> #[trigger] twin_elsewhere(*topology, ids@[j], target))
                                && twin_on(*topology, ids@[m], target) && twin_symmetric(*topology, ids@[m]);
                        if m > k {
                            assert(twin_elsewhere(*topology, ids@[k as int], target));
                        } else if m < k {
                            assert(twin_elsewhere(*topology, ids@[m], target));
                        }
                    }
                }
            }
            if twin_id.0 >= topology.half_edges.len() {
                return Err(invalid(TopologyViolation::InvalidEdgeId(twin_id)));
            }
            let twin = topology.half_edges[twin_id.0];
            if twin.incident_face == target {
                if twin.origin != edge.destination || twin.destination != edge.origin {
                    return Err(invalid(TopologyViolation::TwinNotReversed { twin: twin_id, of_edge: id }));
                }
                let links_back = match twin.twin {
                    Some(back) => back == id,
                    None => false,
                };
                if !links_back {
                    return Err(HexFaceTopologyError::InconsistentTwin { edge: id, twin: twin_id });
                }
                return Ok(true);
            }
        }
        k += 1;
    }
    proof {
        if linked_to(*topology, ids@, target) {
            let m = choose|m: int|
                0 <= m < ids@.len() && (forall|j: int|
                    0 <= j < m ==> #[trigger] twin_elsewhere(*topology, ids@[j], target))
                    && twin_on(*topology, ids@[m], target) && twin_symmetric(*topology, ids@[m]);
            assert(twin_elsewhere(*topology, ids@[m], target));
        }
    }
    Ok(false)
}

/// The face that the index assigns to `coord`, if any.
pub open spec fn mapped_face(topology: HexFaceTopology, coord: HexCoord) -> Option<FaceId> {
    if topology.hex_to_face@.contains_key(coord_key(coord)) {
        Some(topology.hex_to_face@[coord_key(coord)])
    } else {
        None
    }
}

/// For tile `coord` mapped to face `f`, its neighbor in direction `i`: when
/// that neighbor comes later in `(q, r)` order and is a tile, it is mapped
/// and `f`'s walk has a symmetric twin pair into its face.
pub open spec fn neighbor_pair_ok(
    topology: HexFaceTopology,
    layout: MapLayout,
    coord: HexCoord,
    f: int,
    i: int,
) -> bool {
    let neighbor = coord.neighbor(i);
    coord.precedes(neighbor) && layout.has_tile(neighbor) ==> (mapped_face(topology, neighbor) matches Some(
        other,
    ) && linked_to(topology, face_walk(topology, f), other))
}

/// Tile `coord` is mapped to a face with a valid walk, and each later
/// neighboring tile is linked to it by a symmetric twin pair.
pub open spec fn tile_twins_ok(topology: HexFaceTopology, layout: MapLayout, coord: HexCoord) -> bool {
    mapped_face(topology, coord) matches Some(face) && face_walk_ok(topology, face.0 as int) && forall|
        i: int,
    |
        0 <= i < 6 ==> #[trigger] neighbor_pair_ok(topology, layout, coord, face.0 as int, i)
}

/// Every pair of neighboring tiles is linked by a symmetric, reversed twin pair.
pub open spec fn neighbor_twins_ok(topology: HexFaceTopology, layout: MapLayout) -> bool {
    forall|t: int|
        0 <= t < layout.tile_seq().len() ==> #[trigger] tile_twins_ok(topology, layout, layout.tile_seq()[t])
}

/// The fault of tile `coord` (whose face is `face`) toward its neighbor in
/// direction `i`: when that neighbor comes later and is a tile, it must be
/// mapped and the face's walk must hold a symmetric twin pair into its face.
pub open spec fn neighbor_direction_fault(
    topology: HexFaceTopology,
    layout: MapLayout,
    coord: HexCoord,
    face: FaceId,
    i: int,
) -> Option<HexFaceTopologyError> {
    let neighbor = coord.neighbor(i);
    if coord.precedes(neighbor) && layout.has_tile(neighbor) {
        match mapped_face(topology, neighbor) {
            None => Some(invalid_spec(TopologyViolation::MissingFaceMapping(neighbor))),
            Some(other) => match twin_search_from(topology, face_walk(topology, face.0 as int), other, 0) {
                Ok(true) => None,
                Ok(false) => Some(invalid_spec(TopologyViolation::NoSymmetricTwin { coord, neighbor })),
                Err(error) => Some(error),
            },
        }
    } else {
        None
    }
}

/// The first fault of tile `coord`'s directions from `i` on.
pub open spec fn neighbor_directions_fault_from(
    topology: HexFaceTopology,
    layout: MapLayout,
    coord: HexCoord,
    face: FaceId,
    i: int,
) -> Option<HexFaceTopologyError>
    decreases 6 - i,
{
    if i >= 6 || i < 0 {
        None
    } else {
        match neighbor_direction_fault(topology, layout, coord, face, i) {
            Some(error) => Some(error),
            None => neighbor_directions_fault_from(topology, layout, coord, face, i + 1),
        }
    }
}

/// The first fault of tile `coord`: no face mapped, a broken walk, else the
/// first faulty direction.
pub open spec fn tile_twins_fault(topology: HexFaceTopology, layout: MapLayout, coord: HexCoord) -> Option<
    HexFaceTopologyError,
> {
    match mapped_face(topology, coord) {
        None => Some(invalid_spec(TopologyViolation::MissingFaceMapping(coord))),
        Some(face) => match walk_fault(topology, face) {
            Some(error) => Some(error),
            None => neighbor_directions_fault_from(topology, layout, coord, face, 0),
        },
    }
}

/// The first fault of the neighbor twin check from tile `t` on.
pub open spec fn neighbor_twins_fault_from(topology: HexFaceTopology, layout: MapLayout, t: int) -> Option<
    HexFaceTopologyError,
>
    decreases layout.tile_seq().len() - t,
{
    if t >= layout.tile_seq().len() || t < 0 {
        None
    } else {
        match tile_twins_fault(topology, layout, layout.tile_seq()[t]) {
            Some(error) => Some(error),
            None => neighbor_twins_fault_from(topology, layout, t + 1),
        }
    }
}

fn face_of(topology: &HexFaceTopology, coord: HexCoord) -> (found: Result<FaceId, HexFaceTopologyError>)
    ensures
        match found {
            Ok(face) => mapped_face(*topology, coord) == Some(face),
            Err(error) => mapped_face(*topology, coord) is None && error == invalid_spec(
                TopologyViolation::MissingFaceMapping(coord),
            ),
        },
{
    match topology.face_for(coord) {
        Some(face) => Ok(face),
        None => Err(invalid(TopologyViolation::MissingFaceMapping(coord))),
    }
}

/// For every tile, confirms each later neighboring tile has a symmetric
/// reversed twin pair between the two faces.
pub fn validate_neighbor_twins(topology: &HexFaceTopology, layout: &MapLayout) -> (checked: Result<
    (),
    HexFaceTopologyError,
>)
    requires
        tiles_have_neighbors(layout.tile_seq()),
    ensures
        checked is Ok <==> neighbor_twins_ok(*topology, *layout),
        checked == outcome(neighbor_twins_fault_from(*topology, *layout, 0)),
{
    let tiles = layout.tiles();
    let mut t: usize = 0;
    while t < tiles.len()
        invariant
            t <= tiles@.len(),
            tiles@ == layout.tile_seq(),
            tiles_have_neighbors(tiles@),
            forall|u: int| 0 <= u < t ==> #[trigger] tile_twins_ok(*topology, *layout, tiles@[u]),
            neighbor_twins_fault_from(*topology, *layout, 0) == neighbor_twins_fault_from(*topology, *layout, t as int),
        decreases tiles@.len() - t,
    {
        let coord = tiles[t];
        let face = match face_of(topology, coord) {
            Ok(face) => face,
            Err(error) => {
                assert(!tile_twins_ok(*topology, *layout, tiles@[t as int]));
                return Err(error);
            },
        };
        let face_edges = match edges_for_face(topology, face) {
            Ok(ids) => ids,
            Err(error) => {
                assert(!tile_twins_ok(*topology, *layout, tiles@[t as int]));
                return Err(error);
            },
        };
        let neighbors = coord.neighbors();
        let mut i: usize = 0;
        while i < 6
            invariant
                i <= 6,
                t < tiles@.len(),
                tiles@ == layout.tile_seq(),
                coord == tiles@[t as int],
                coord.has_neighbors(),
                mapped_face(*topology, coord) == Some(face),
                face_walk_ok(*topology, face.0 as int),
                face_edges@ == face_walk(*topology, face.0 as int),
                forall|j: int| 0 <= j < 6 ==> #[trigger] neighbors[j] == coord.neighbor(j),
                forall|j: int| 0 <= j < i ==> #[trigger] neighbor_pair_ok(*topology, *layout, coord, face.0 as int, j),
                walk_fault(*topology, face) is None,
                neighbor_twins_fault_from(*topology, *layout, 0) == neighbor_twins_fault_from(*topology, *layout, t as int),
                tile_twins_fault(*topology, *layout, coord) == neighbor_directions_fault_from(
                    *topology,
                    *layout,
                    coord,
                    face,
                    i as int,
                ),
            decreases 6 - i,
        {
            let neighbor = neighbors[i];
            if coord.is_before(neighbor) && layout.contains_tile(neighbor) {
                let other = match face_of(topology, neighbor) {
                    Ok(other) => other,
                    Err(error) => {
                        assert(!neighbor_pair_ok(*topology, *layout, coord, face.0 as int, i as int));
                        assert(!tile_twins_ok(*topology, *layout, tiles@[t as int]));
                        return Err(error);
                    },
                };
                proof {
                    assert forall|k: int| 0 <= k < face_edges@.len() implies (#[trigger] face_edges@[k]).0
                        < topology.half_edges@.len() by {
                        assert(0 <= next_walk(
                            topology.half_edges@,
                            topology.faces@[face.0 as int].boundary.0 as int,
                            k as nat,
                        ) < topology.half_edges@.len());
                        assert(topology.half_edges@.len() == topology.half_edges.len());
                    }
                }
                match find_symmetric_twin(topology, &face_edges, other) {
                    Ok(true) => {},
                    Ok(false) => {
                        assert(!neighbor_pair_ok(*topology, *layout, coord, face.0 as int, i as int));
                        assert(!tile_twins_ok(*topology, *layout, tiles@[t as int]));
                        return Err(invalid(TopologyViolation::NoSymmetricTwin { coord, neighbor }));
                    },
                    Err(error) => {
                        assert(!neighbor_pair_ok(*topology, *layout, coord, face.0 as int, i as int));
                        assert(!tile_twins_ok(*topology, *layout, tiles@[t as int]));
                        return Err(error);
                    },
                }
            }
            i += 1;
        }
        t += 1;
    }
    Ok(())
}

/// Some half-edge of face `f`'s walk runs the other way along `edge`.
pub open spec fn reversed_in_walk(topology: HexFaceTopology, f: int, edge: HalfEdge) -> bool {
    exists|k: int|
        0 <= k < 6 && reverses_edge(edge, topology.half_edges@[#[trigger] face_walk(topology, f)[k].0 as int])
}

/// `other` runs between the same vertices as `edge`, the other way.
pub open spec fn reverses_edge(edge: HalfEdge, other: HalfEdge) -> bool {
    other.origin == edge.destination && other.destination == edge.origin
}

/// Scans the neighbors of `cell` from direction `i` on: the face of the first
/// neighboring tile whose walk holds the reverse of `edge` (`Some(Some(..))`),
/// no such face (`Some(None)`), or `None` when a neighboring tile on the way
/// is unmapped or its face's walk is broken.
pub open spec fn scan_neighbors(
    topology: HexFaceTopology,
    layout: MapLayout,
    cell: HexCoord,
    edge: HalfEdge,
    i: nat,
) -> Option<Option<FaceId>>
    decreases 6 - i,
{
    if i >= 6 {
        Some(None)
    } else if !layout.has_tile(cell.neighbor(i as int)) {
        scan_neighbors(topology, layout, cell, edge, i + 1)
    } else {
        match mapped_face(topology, cell.neighbor(i as int)) {
            None => None,
            Some(other) => if !face_walk_ok(topology, other.0 as int) {
                None
            } else if reversed_in_walk(topology, other.0 as int, edge) {
                Some(Some(other))
            } else {
                scan_neighbors(topology, layout, cell, edge, i + 1)
            },
        }
    }
}

/// The logical neighbor face across half-edge `e`: the scan of its face's
/// cell's neighbors, or `None` when its face id is out of range.
pub open spec fn logical_neighbor(topology: HexFaceTopology, layout: MapLayout, e: int) -> Option<
    Option<FaceId>,
> {
    let edge = topology.half_edges@[e];
    if edge.incident_face.0 >= topology.faces@.len() {
        None
    } else {
        scan_neighbors(topology, layout, topology.faces@[edge.incident_face.0 as int].hex, edge, 0)
    }
}

/// The outcome of scanning the neighbors of `cell` from direction `i` on for
/// the first neighboring tile whose face's walk holds the reverse of `edge`:
/// that face, no face, or the fault of the first neighboring tile on the way
/// that is unmapped or whose face's walk is broken.
pub open spec fn neighbor_scan(
    topology: HexFaceTopology,
    layout: MapLayout,
    cell: HexCoord,
    edge: HalfEdge,
    i: nat,
) -> Result<Option<FaceId>, HexFaceTopologyError>
    decreases 6 - i,
{
    if i >= 6 {
        Ok(None)
    } else if !layout.has_tile(cell.neighbor(i as int)) {
        neighbor_scan(topology, layout, cell, edge, i + 1)
    } else {
        match mapped_face(topology, cell.neighbor(i as int)) {
            None => Err(invalid_spec(TopologyViolation::MissingFaceMapping(cell.neighbor(i as int)))),
            Some(other) => match walk_fault(topology, other) {
                Some(error) => Err(error),
                None => if reversed_in_walk(topology, other.0 as int, edge) {
                    Ok(Some(other))
                } else {
                    neighbor_scan(topology, layout, cell, edge, i + 1)
                },
            },
        }
    }
}

/// The outcome of finding the logical neighbor face across `edge`, whose
/// face is `face_id`.
pub open spec fn logical_neighbor_outcome(
    topology: HexFaceTopology,
    layout: MapLayout,
    face_id: FaceId,
    edge: HalfEdge,
) -> Result<Option<FaceId>, HexFaceTopologyError> {
    if face_id.0 >= topology.faces@.len() {
        Err(invalid_spec(TopologyViolation::InvalidFaceId(face_id)))
    } else {
        neighbor_scan(topology, layout, topology.faces@[face_id.0 as int].hex, edge, 0)
    }
}

/// Finds the logical neighbor face across `edge`, whose face is `face_id`.
fn logical_neighbor_for_edge(
    topology: &HexFaceTopology,
    layout: &MapLayout,
    face_id: FaceId,
    edge: HalfEdge,
) -> (found: Result<Option<FaceId>, HexFaceTopologyError>)
    requires
        face_cells_have_neighbors(*topology),
    ensures
        match found {
            Ok(neighbor) => face_id.0 < topology.faces@.len() && scan_neighbors(
                *topology,
                *layout,
                topology.faces@[face_id.0 as int].hex,
                edge,
                0,
            ) == Some(neighbor),
            Err(_) => face_id.0 >= topology.faces@.len() || scan_neighbors(
                *topology,
                *layout,
                topology.faces@[face_id.0 as int].hex,
                edge,
                0,
            ) is None,
        },
        found == logical_neighbor_outcome(*topology, *layout, face_id, edge),
{
    if face_id.0 >= topology.faces.len() {
        return Err(invalid(TopologyViolation::InvalidFaceId(face_id)));
    }
    let cell = topology.faces[face_id.0].hex;
    let neighbors = cell.neighbors();
    let mut i: usize = 0;
    while i < 6
        invariant
            i <= 6,
            face_id.0 < topology.faces@.len(),
            cell == topology.faces@[face_id.0 as int].hex,
            cell.has_neighbors(),
            forall|j: int| 0 <= j < 6 ==> #[trigger] neighbors[j] == cell.neighbor(j),
            scan_neighbors(*topology, *layout, cell, edge, 0) == scan_neighbors(
                *topology,
                *layout,
                cell,
                edge,
                i as nat,
            ),
            logical_neighbor_outcome(*topology, *layout, face_id, edge) == neighbor_scan(
                *topology,
                *layout,
                cell,
                edge,
                i as nat,
            ),
        decreases 6 - i,
    {
        let neighbor = neighbors[i];
        if layout.contains_tile(neighbor) {
            let other = face_of(topology, neighbor)?;
            let ids = edges_for_face(topology, other)?;
            let mut k: usize = 0;
            while k < 6
                invariant
                    k <= 6,
                    i < 6,
                    neighbor == cell.neighbor(i as int),
                    layout.has_tile(neighbor),
                    mapped_face(*topology, neighbor) == Some(other),
                    face_id.0 < topology.faces@.len(),
                    cell == topology.faces@[face_id.0 as int].hex,
                    scan_neighbors(*topology, *layout, cell, edge, 0) == scan_neighbors(
                        *topology,
                        *layout,
                        cell,
                        edge,
                        i as nat,
                    ),
                    logical_neighbor_outcome(*topology, *layout, face_id, edge) == neighbor_scan(
                        *topology,
                        *layout,
                        cell,
                        edge,
                        i as nat,
                    ),
                    walk_fault(*topology, other) is None,
                    ids@ == face_walk(*topology, other.0 as int),
                    face_walk_ok(*topology, other.0 as int),
                    forall|j: int| 0 <= j < k ==> !reverses_edge(
                        edge,
                        topology.half_edges@[#[trigger] face_walk(*topology, other.0 as int)[j].0 as int],
                    ),
                decreases 6 - k,
            {
                proof {
                    assert(0 <= next_walk(
                        topology.half_edges@,
                        topology.faces@[other.0 as int].boundary.0 as int,
                        k as nat,
                    ) < topology.half_edges@.len());
                    assert(topology.half_edges@.len() == topology.half_edges.len());
                }
                let candidate = topology.half_edges[ids[k].0];
                if candidate.origin == edge.destination && candidate.destination == edge.origin {
                    assert(reversed_in_walk(*topology, other.0 as int, edge));
                    return Ok(Some(other));
                }
                k += 1;
            }
        }
        i += 1;
    }
    Ok(None)
}

/// The key of the undirected edge between a half-edge's two vertices.
pub open spec fn undirected_key(edge: HalfEdge) -> u128 {
    if edge.origin.0 < edge.destination.0 {
        direction_key(edge.origin.0, edge.destination.0)
    } else {
        direction_key(edge.destination.0, edge.origin.0)
    }
}

/// How many half-edges lie on the undirected edge with key `key`.
pub open spec fn undirected_count(edges: Seq<HalfEdge>, key: u128) -> nat
    decreases edges.len(),
{
    if edges.len() == 0 {
        0
    } else {
        undirected_count(edges.drop_last(), key) + if undirected_key(edges.last()) == key {
            1nat
        } else {
            0nat
        }
    }
}

/// The face holding half-edge `e`'s twin, when the twin is in range.
pub open spec fn twin_face(topology: HexFaceTopology, e: int) -> Option<FaceId> {
    let edges = topology.half_edges@;
    match edges[e].twin {
        Some(twin) => if twin.0 < edges.len() {
            Some(edges[twin.0 as int].incident_face)
        } else {
            None
        },
        None => None,
    }
}

/// Half-edge `e` agrees with the map: when a neighboring tile's face holds
/// its reverse, its twin lies on that face; otherwise it has no twin and no
/// other half-edge lies on its undirected edge.
pub open spec fn border_edge_ok(topology: HexFaceTopology, layout: MapLayout, e: int) -> bool {
    match logical_neighbor(topology, layout, e) {
        None => false,
        Some(Some(expected)) => twin_face(topology, e) == Some(expected),
        Some(None) => twin_face(topology, e) is None && undirected_count(
            topology.half_edges@,
            undirected_key(topology.half_edges@[e]),
        ) == 1,
    }
}

/// Every internal edge has its twin on the logical neighbor's face and every
/// border edge has none.
pub open spec fn border_edges_ok(topology: HexFaceTopology, layout: MapLayout) -> bool {
    forall|e: int| 0 <= e < topology.half_edges@.len() ==> #[trigger] border_edge_ok(topology, layout, e)
}

/// The fault of half-edge `e` against the map: finding its logical neighbor
/// failed, its twin lies on another face than the neighbor's, an internal
/// edge has no twin, a border edge is duplicated, or a border edge has a twin.
pub open spec fn border_edge_fault(topology: HexFaceTopology, layout: MapLayout, e: int) -> Option<
    HexFaceTopologyError,
> {
    let edge = topology.half_edges@[e];
    match logical_neighbor_outcome(topology, layout, edge.incident_face, edge) {
        Err(error) => Some(error),
        Ok(expected) => match (expected, twin_face(topology, e)) {
            (Some(expected_face), Some(actual_face)) => if expected_face != actual_face {
                Some(
                    invalid_spec(
                        TopologyViolation::TwinFaceMismatch {
                            edge_index: e as usize,
                            actual: actual_face,
                            expected: expected_face,
                        },
                    ),
                )
            } else {
                None
            },
            (Some(_), None) => Some(invalid_spec(TopologyViolation::InternalEdgeMissingTwin(e as usize))),
            (None, None) => if undirected_count(topology.half_edges@, undirected_key(edge)) != 1 {
                Some(invalid_spec(TopologyViolation::BorderEdgeDuplicated(e as usize)))
            } else {
                None
            },
            (None, Some(actual_face)) => Some(
                invalid_spec(
                    TopologyViolation::BorderEdgeHasTwin { border_edge: e as usize, linked_face: actual_face },
                ),
            ),
        },
    }
}

/// The first fault of the border-edge check from half-edge `e` on.
pub open spec fn border_edges_fault_from(topology: HexFaceTopology, layout: MapLayout, e: int) -> Option<
    HexFaceTopologyError,
>
    decreases topology.half_edges@.len() - e,
{
    if e >= topology.half_edges@.len() || e < 0 {
        None
    } else {
        match border_edge_fault(topology, layout, e) {
            Some(error) => Some(error),
            None => border_edges_fault_from(topology, layout, e + 1),
        }
    }
}

fn undirected_key_of(edge: HalfEdge) -> (key: u128)
    ensures
        key == undirected_key(edge),
{
    if edge.origin.0 < edge.destination.0 {
        direction_key_of(edge.origin.0, edge.destination.0)
    } else {
        direction_key_of(edge.destination.0, edge.origin.0)
    }
}

/// Counts the half-edges on each undirected edge.
fn count_undirected(edges: &Vec<HalfEdge>) -> (counts: HashMap<u128, usize>)
    ensures
        forall|key: u128|
            #[trigger] undirected_count(edges@, key) == if counts@.contains_key(key) {
                counts@[key] as nat
            } else {
                0nat
            },
{
    let mut counts: HashMap<u128, usize> = HashMap::new();
    let mut e: usize = 0;
    while e < edges.len()
        invariant
            e <= edges@.len(),
            forall|key: u128|
                #[trigger] undirected_count(edges@.take(e as int), key) == if counts@.contains_key(key) {
                    counts@[key] as nat
                } else {
                    0nat
                },
        decreases edges@.len() - e,
    {
        let key = undirected_key_of(edges[e]);
        let current = match counts.get(&key) {
            Some(count) => *count,
            None => 0,
        };
        proof {
            assert(edges@.take(e as int + 1).drop_last() =~= edges@.take(e as int));
            lemma_undirected_count_bound(edges@.take(e as int), key);
        }
        let ghost before = counts@;
        counts.insert(key, current + 1);
        proof {
            assert forall|k: u128| #[trigger] undirected_count(edges@.take(e as int + 1), k) == if counts@.contains_key(k) {
                counts@[k] as nat
            } else {
                0nat
            } by {
                let prefix = edges@.take(e as int + 1);
                assert(prefix.last() == edges@[e as int]);
                assert(undirected_count(prefix, k) == undirected_count(edges@.take(e as int), k) + if undirected_key(edges@[e as int]) == k {
                    1nat
                } else {
                    0nat
                });
            }
        }
        e += 1;
    }
    assert(edges@.take(e as int) =~= edges@);
    counts
}

proof fn lemma_undirected_count_bound(edges: Seq<HalfEdge>, key: u128)
    ensures
        undirected_count(edges, key) <= edges.len(),
    decreases edges.len(),
{
    if edges.len() > 0 {
        lemma_undirected_count_bound(edges.drop_last(), key);
    }
}

/// Confirms every half-edge's twin against the logical neighbors on the map:
/// internal edges have their twin on the neighbor's face, border edges have
/// no twin and are not duplicated.
pub fn validate_border_edges(topology: &HexFaceTopology, layout: &MapLayout) -> (checked: Result<
    (),
    HexFaceTopologyError,
>)
    requires
        face_cells_have_neighbors(*topology),
    ensures
        checked is Ok <==> border_edges_ok(*topology, *layout),
        checked == outcome(border_edges_fault_from(*topology, *layout, 0)),
{
    let counts = count_undirected(&topology.half_edges);
    let mut e: usize = 0;
    while e < topology.half_edges.len()
        invariant
            e <= topology.half_edges@.len(),
            face_cells_have_neighbors(*topology),
            forall|key: u128|
                #[trigger] undirected_count(topology.half_edges@, key) == if counts@.contains_key(key) {
                    counts@[key] as nat
                } else {
                    0nat
                },
            forall|d: int| 0 <= d < e ==> #[trigger] border_edge_ok(*topology, *layout, d),
            border_edges_fault_from(*topology, *layout, 0) == border_edges_fault_from(*topology, *layout, e as int),
        decreases topology.half_edges@.len() - e,
    {
        let edge = topology.half_edges[e];
        let expected = match logical_neighbor_for_edge(topology, layout, edge.incident_face, edge) {
            Ok(expected) => expected,
            Err(error) => {
                assert(!border_edge_ok(*topology, *layout, e as int));
                return Err(error);
            },
        };
        let actual = match edge.twin {
            Some(twin) => if twin.0 < topology.half_edges.len() {
                Some(topology.half_edges[twin.0].incident_face)
            } else {
                None
            },
            None => None,
        };
        match (expected, actual) {
            (Some(expected_face), Some(actual_face)) => {
                if expected_face != actual_face {
                    assert(!border_edge_ok(*topology, *layout, e as int));
                    return Err(
                        invalid(
                            TopologyViolation::TwinFaceMismatch {
                                edge_index: e,
                                actual: actual_face,
                                expected: expected_face,
                            },
                        ),
                    );
                }
            },
            (Some(_), None) => {
                assert(!border_edge_ok(*topology, *layout, e as int));
                return Err(invalid(TopologyViolation::InternalEdgeMissingTwin(e)));
            },
            (None, None) => {
                let key = undirected_key_of(edge);
                let count = match counts.get(&key) {
                    Some(count) => *count,
                    None => 0,
                };
                if count != 1 {
                    assert(!border_edge_ok(*topology, *layout, e as int));
                    return Err(invalid(TopologyViolation::BorderEdgeDuplicated(e)));
                }
            },
            (None, Some(actual_face)) => {
                assert(!border_edge_ok(*topology, *layout, e as int));
                return Err(
                    invalid(
                        TopologyViolation::BorderEdgeHasTwin { border_edge: e, linked_face: actual_face },
                    ),
                );
            },
        }
        assert(border_edge_ok(*topology, *layout, e as int));
        e += 1;
    }
    Ok(())
}

/// Every invariant of a complete topology for the layout, given the
/// geometric verdict of each face.
pub open spec fn complete_topology_valid(
    topology: HexFaceTopology,
    layout: MapLayout,
    geometry: Seq<Option<HexFaceTopologyError>>,
) -> bool {
    &&& counts_ok(topology, layout.tile_seq().len() as int)
    &&& mapping_ok(topology, layout)
    &&& edge_references_ok(topology)
    &&& faces_ok(topology, geometry)
    &&& twins_ok(topology)
    &&& stats_ok(topology)
    &&& neighbor_twins_ok(topology, layout)
    &&& border_edges_ok(topology, layout)
    &&& logical_adjacency_ok(topology, layout)
}

proof fn lemma_mapped_cells_have_neighbors(topology: HexFaceTopology, layout: MapLayout)
    requires
        mapping_ok(topology, layout),
        tiles_have_neighbors(layout.tile_seq()),
    ensures
        face_cells_have_neighbors(topology),
{
    assert forall|f: int| 0 <= f < topology.faces@.len() implies (#[trigger] topology.faces@[f]).hex.has_neighbors() by {
        assert(face_mapped(topology, layout, f));
        let t = choose|t: int| 0 <= t < layout.tile_seq().len() && layout.tile_seq()[t] == topology.faces@[f].hex;
        assert(layout.tile_seq()[t].has_neighbors());
    }
}

/// The mapping fault of each face: its cell is not a tile mapped back to it.
pub open spec fn mapping_faults(topology: HexFaceTopology, layout: MapLayout) -> spec_fn(int) -> Option<
    HexFaceTopologyError,
> {
    |f: int|
        if face_mapped(topology, layout, f) {
            None
        } else {
            Some(invalid_spec(TopologyViolation::FaceOutsideBijection(f as usize)))
        }
}

/// The reference fault of each half-edge.
pub open spec fn edge_reference_faults(topology: HexFaceTopology) -> spec_fn(int) -> Option<HexFaceTopologyError> {
    |e: int|
        match edge_reference_fault(topology, e) {
            Some(violation) => Some(invalid_spec(violation)),
            None => None,
        }
}

/// The twin fault of each half-edge.
pub open spec fn twin_faults(topology: HexFaceTopology) -> spec_fn(int) -> Option<HexFaceTopologyError> {
    |e: int| twin_fault(topology, e)
}

/// The edge statistics disagree with the half-edges.
pub open spec fn stats_fault(topology: HexFaceTopology) -> Option<HexFaceTopologyError> {
    if stats_ok(topology) {
        None
    } else {
        Some(
            invalid_spec(
                TopologyViolation::EdgeStatisticsInconsistent {
                    paired: topology.stats.paired_edge_count,
                    border: topology.stats.border_edge_count,
                    half_edges: topology.half_edges@.len() as usize,
                },
            ),
        )
    }
}

/// The first fault of complete validation, stage by stage: counts, the
/// tile-to-face mapping, half-edge references, logical adjacency, the
/// per-face checks, twin links, edge statistics, neighbor twins, then border
/// edges.
pub open spec fn complete_topology_fault(
    topology: HexFaceTopology,
    layout: MapLayout,
    geometry: Seq<Option<HexFaceTopologyError>>,
) -> Option<HexFaceTopologyError> {
    let edge_count = topology.half_edges@.len() as int;
    let face_count = topology.faces@.len() as int;
    match counts_fault(topology, layout.tile_seq().len() as int) {
        Some(error) => Some(error),
        None => match first_fault(mapping_faults(topology, layout), 0, face_count) {
            Some(error) => Some(error),
            None => match first_fault(edge_reference_faults(topology), 0, edge_count) {
                Some(error) => Some(error),
                None => match logical_adjacency_fault(topology, layout) {
                    Some(error) => Some(error),
                    None => match faces_fault_from(topology, geometry, 0) {
                        Some(error) => Some(error),
                        None => match first_fault(twin_faults(topology), 0, edge_count) {
                            Some(error) => Some(error),
                            None => match stats_fault(topology) {
                                Some(error) => Some(error),
                                None => match neighbor_twins_fault_from(topology, layout, 0) {
                                    Some(error) => Some(error),
                                    None => border_edges_fault_from(topology, layout, 0),
                                },
                            },
                        },
                    },
                },
            },
        },
    }
}

/// Performs final validation of every generated topology invariant.
///
/// `geometry[f]` is the geometric verdict of face `f` (convexity, winding,
/// edge length, area), `None` when the face passed. Malformed data yields a
/// typed error, never an out-of-range read: the first fault of the stages in
/// the order of [`complete_topology_fault`].
pub fn validate_complete_topology(
    topology: &HexFaceTopology,
    layout: &MapLayout,
    geometry: &Vec<Option<HexFaceTopologyError>>,
) -> (checked: Result<(), HexFaceTopologyError>)
    requires
        tiles_have_neighbors(layout.tile_seq()),
        geometry@.len() == topology.faces@.len(),
    ensures
        checked is Ok <==> complete_topology_valid(*topology, *layout, geometry@),
        topology.faces@.len() != layout.tile_seq().len() ==> checked == Err::<(), HexFaceTopologyError>(
            invalid_spec(
                TopologyViolation::FaceCountMismatch {
                    faces: topology.faces@.len() as usize,
                    tiles: layout.tile_seq().len() as usize,
                },
            ),
        ),
        checked == outcome(complete_topology_fault(*topology, *layout, geometry@)),
{
    let ghost edge_count = topology.half_edges@.len() as int;
    let ghost face_count = topology.faces@.len() as int;
    check_counts(topology, layout)?;
    match check_mapping(topology, layout) {
        Ok(()) => {
            proof {
                lemma_first_fault_none(mapping_faults(*topology, *layout), 0, face_count);
            }
        },
        Err(error) => {
            proof {
                let f = choose|f: int|
                    0 <= f < topology.faces@.len() && !face_mapped(*topology, *layout, f) && (forall|g: int|
                        0 <= g < f ==> #[trigger] face_mapped(*topology, *layout, g)) && error
                        == invalid_spec(TopologyViolation::FaceOutsideBijection(f as usize));
                assert forall|g: int| 0 <= g < f implies (#[trigger] mapping_faults(*topology, *layout)(g)) is None by {
                    assert(face_mapped(*topology, *layout, g));
                }
                lemma_first_fault_at(mapping_faults(*topology, *layout), 0, face_count, f);
            }
            return Err(error);
        },
    }
    match check_edge_references(topology) {
        Ok(()) => {
            proof {
                assert forall|d: int| 0 <= d < edge_count implies (#[trigger] edge_reference_faults(*topology)(d)) is None by {
                    assert(edge_reference_fault(*topology, d) is None);
                }
                lemma_first_fault_none(edge_reference_faults(*topology), 0, edge_count);
            }
        },
        Err(error) => {
            proof {
                let e = choose|e: int|
                    {
                        &&& 0 <= e < topology.half_edges@.len()
                        &&& forall|d: int|
                            0 <= d < e ==> #[trigger] edge_reference_fault(*topology, d) is None
                        &&& edge_reference_fault(*topology, e) == Some(violation_of(error))
                        &&& error is ValidationFailed
                    };
                assert forall|d: int| 0 <= d < e implies (#[trigger] edge_reference_faults(*topology)(d)) is None by {
                    assert(edge_reference_fault(*topology, d) is None);
                }
                lemma_first_fault_at(edge_reference_faults(*topology), 0, edge_count, e);
                assert(invalid_spec(violation_of(error)) == error);
            }
            return Err(error);
        },
    }
    proof {
        lemma_mapped_cells_have_neighbors(*topology, *layout);
    }
    validate_logical_adjacency(topology, layout)?;
    check_faces(topology, geometry)?;
    match check_twins(topology) {
        Ok(()) => {
            proof {
                assert forall|d: int| 0 <= d < edge_count implies (#[trigger] twin_faults(*topology)(d)) is None by {
                    assert(twin_fault(*topology, d) is None);
                }
                lemma_first_fault_none(twin_faults(*topology), 0, edge_count);
            }
        },
        Err(error) => {
            proof {
                let e = choose|e: int|
                    {
                        &&& 0 <= e < topology.half_edges@.len()
                        &&& forall|d: int| 0 <= d < e ==> #[trigger] twin_fault(*topology, d) is None
                        &&& twin_fault(*topology, e) == Some(error)
                    };
                assert forall|d: int| 0 <= d < e implies (#[trigger] twin_faults(*topology)(d)) is None by {
                    assert(twin_fault(*topology, d) is None);
                }
                lemma_first_fault_at(twin_faults(*topology), 0, edge_count, e);
            }
            return Err(error);
        },
    }
    check_stats(topology)?;
    validate_neighbor_twins(topology, layout)?;
    validate_border_edges(topology, layout)?;
    Ok(())
}

} // verus!
