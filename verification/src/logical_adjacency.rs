//! Exact logical-neighbor and non-neighbor edge invariants.
use vstd::prelude::*;

use crate::hex_coord::HexCoord;
use crate::map_layout::MapLayout;
use crate::topology::{direction_key, direction_key_of, tiles_have_neighbors, HexFaceTopology, HexFaceTopologyError, TopologyViolation};
use crate::types::{FaceId, HalfEdge, HalfEdgeId, HexFace, VertexId};
use crate::validation::{face_cells_have_neighbors, first_fault, invalid_spec, mapped_face, outcome};

verus! {

fn invalid(violation: TopologyViolation) -> (error: HexFaceTopologyError)
    ensures
        error == invalid_spec(violation),
{
    HexFaceTopologyError::ValidationFailed(violation)
}

/// The key of the undirected edge between two vertices.
pub open spec fn pair_key(a: VertexId, b: VertexId) -> u128 {
    if a.0 < b.0 {
        direction_key(a.0, b.0)
    } else {
        direction_key(b.0, a.0)
    }
}

fn pair_key_of(a: VertexId, b: VertexId) -> (key: u128)
    ensures
        key == pair_key(a, b),
{
    if a.0 < b.0 {
        direction_key_of(a.0, b.0)
    } else {
        direction_key_of(b.0, a.0)
    }
}

/// The vertices that two faces share.
pub open spec fn shared_vertices(a: HexFace, b: HexFace) -> Set<VertexId> {
    a.vertices@.to_set().intersect(b.vertices@.to_set())
}

/// The undirected keys of a face's sides among its first `n` whose two
/// corners are both in `shared`, in side order.
pub open spec fn shared_side_keys(face: HexFace, shared: Set<VertexId>, n: int) -> Seq<u128>
    decreases n,
{
    if n <= 0 {
        Seq::empty()
    } else {
        let earlier = shared_side_keys(face, shared, n - 1);
        let i = n - 1;
        let a = face.vertices[i];
        let b = face.vertices[(i + 1) % 6];
        if shared.contains(a) && shared.contains(b) {
            earlier.push(pair_key(a, b))
        } else {
            earlier
        }
    }
}

/// The half-edges among the first `n` that belong to `face` and run between
/// two vertices of `shared`, in id order.
pub open spec fn shared_half_edges(
    edges: Seq<HalfEdge>,
    face: FaceId,
    shared: Set<VertexId>,
    n: int,
) -> Seq<HalfEdgeId>
    decreases n,
{
    if n <= 0 {
        Seq::empty()
    } else {
        let earlier = shared_half_edges(edges, face, shared, n - 1);
        let edge = edges[n - 1];
        if edge.incident_face == face && shared.contains(edge.origin) && shared.contains(
            edge.destination,
        ) {
            earlier.push(HalfEdgeId((n - 1) as usize))
        } else {
            earlier
        }
    }
}

/// Two neighboring tiles are mapped to existing faces that share exactly two
/// vertices, forming one identical side of both, carried by exactly one
/// half-edge of each; the two half-edges run opposite ways and are each
/// other's twins.
pub open spec fn neighbor_pair_exact(topology: HexFaceTopology, a: HexCoord, b: HexCoord) -> bool {
    let edges = topology.half_edges@;
    &&& mapped_face(topology, a) is Some
    &&& mapped_face(topology, b) is Some
    &&& ({
        let fa = mapped_face(topology, a).unwrap();
        let fb = mapped_face(topology, b).unwrap();
        &&& fa.0 < topology.faces@.len()
        &&& fb.0 < topology.faces@.len()
        &&& ({
            let face_a = topology.faces@[fa.0 as int];
            let face_b = topology.faces@[fb.0 as int];
            let shared = shared_vertices(face_a, face_b);
            let keys_a = shared_side_keys(face_a, shared, 6);
            let keys_b = shared_side_keys(face_b, shared, 6);
            let halves_a = shared_half_edges(edges, fa, shared, edges.len() as int);
            let halves_b = shared_half_edges(edges, fb, shared, edges.len() as int);
            &&& shared.len() == 2
            &&& keys_a.len() == 1
            &&& keys_b.len() == 1
            &&& keys_a[0] == keys_b[0]
            &&& halves_a.len() == 1
            &&& halves_b.len() == 1
            &&& edges[halves_a[0].0 as int].origin == edges[halves_b[0].0 as int].destination
            &&& edges[halves_a[0].0 as int].destination == edges[halves_b[0].0 as int].origin
            &&& edges[halves_a[0].0 as int].twin == Some(halves_b[0])
            &&& edges[halves_b[0].0 as int].twin == Some(halves_a[0])
        })
    })
}

/// The first fault of the exact shared side of neighboring tiles `a` and
/// `b`: a tile without face, a face id out of range, a shared vertex count
/// other than two, shared sides that are not one identical side, shared
/// half-edges other than one per face, or that pair of half-edges not
/// running opposite ways as each other's twins.
pub open spec fn neighbor_pair_fault(topology: HexFaceTopology, a: HexCoord, b: HexCoord) -> Option<
    HexFaceTopologyError,
> {
    let edges = topology.half_edges@;
    match mapped_face(topology, a) {
        None => Some(invalid_spec(TopologyViolation::MissingFaceMapping(a))),
        Some(fa) => match mapped_face(topology, b) {
            None => Some(invalid_spec(TopologyViolation::MissingFaceMapping(b))),
            Some(fb) => if fa.0 >= topology.faces@.len() {
                Some(invalid_spec(TopologyViolation::InvalidFaceId(fa)))
            } else if fb.0 >= topology.faces@.len() {
                Some(invalid_spec(TopologyViolation::InvalidFaceId(fb)))
            } else {
                let face_a = topology.faces@[fa.0 as int];
                let face_b = topology.faces@[fb.0 as int];
                let shared = shared_vertices(face_a, face_b);
                let keys_a = shared_side_keys(face_a, shared, 6);
                let keys_b = shared_side_keys(face_b, shared, 6);
                let halves_a = shared_half_edges(edges, fa, shared, edges.len() as int);
                let halves_b = shared_half_edges(edges, fb, shared, edges.len() as int);
                if shared.len() != 2 {
                    Some(
                        invalid_spec(
                            TopologyViolation::NeighborSharedVertices {
                                face_a: fa,
                                face_b: fb,
                                shared: shared.len() as usize,
                            },
                        ),
                    )
                } else if keys_a.len() != 1 || keys_b.len() != 1 || keys_a[0] != keys_b[0] {
                    Some(
                        invalid_spec(
                            TopologyViolation::NeighborSharedLogicalEdges {
                                face_a: fa,
                                face_b: fb,
                                count_a: keys_a.len() as usize,
                                count_b: keys_b.len() as usize,
                            },
                        ),
                    )
                } else if halves_a.len() != 1 || halves_b.len() != 1 {
                    Some(
                        invalid_spec(
                            TopologyViolation::NeighborSharedHalfEdges {
                                face_a: fa,
                                face_b: fb,
                                count_a: halves_a.len() as usize,
                                count_b: halves_b.len() as usize,
                            },
                        ),
                    )
                } else {
                    let id_a = halves_a[0];
                    let id_b = halves_b[0];
                    let edge_a = edges[id_a.0 as int];
                    let edge_b = edges[id_b.0 as int];
                    if edge_a.origin != edge_b.destination || edge_a.destination != edge_b.origin {
                        Some(
                            invalid_spec(TopologyViolation::NeighborEdgesNotReversed { edge_a: id_a, edge_b: id_b }),
                        )
                    } else {
                        match (edge_a.twin, edge_b.twin) {
                            (None, None) => Some(
                                invalid_spec(
                                    TopologyViolation::InternalEdgePairIsBoundary { edge_a: id_a, edge_b: id_b },
                                ),
                            ),
                            (Some(twin_a), Some(twin_b)) => if twin_a == id_b && twin_b == id_a {
                                None
                            } else {
                                Some(
                                    invalid_spec(
                                        TopologyViolation::NeighborEdgesAsymmetricTwins { edge_a: id_a, edge_b: id_b },
                                    ),
                                )
                            },
                            _ => Some(
                                invalid_spec(
                                    TopologyViolation::NeighborEdgesMissOneTwin { edge_a: id_a, edge_b: id_b },
                                ),
                            ),
                        }
                    }
                }
            },
        },
    }
}

proof fn lemma_prefix_holds(corners: [VertexId; 6], x: VertexId, i: int)
    requires
        0 <= i < 6,
    ensures
        (exists|m: int| 0 <= m < i + 1 && corners[m] == x) == ((exists|m: int| 0 <= m < i && corners[m] == x)
            || corners[i] == x),
{
    if exists|m: int| 0 <= m < i + 1 && corners[m] == x {
        let m = choose|m: int| 0 <= m < i + 1 && corners[m] == x;
        if m < i {
            assert(exists|k: int| 0 <= k < i && corners[k] == x);
        }
    }
    if exists|m: int| 0 <= m < i && corners[m] == x {
        let m = choose|m: int| 0 <= m < i && corners[m] == x;
        assert(0 <= m < i + 1 && corners[m] == x);
    }
    if corners[i] == x {
        assert(0 <= i < i + 1 && corners[i] == x);
    }
}

/// The distinct vertices that two faces share, in `a`'s corner order.
fn shared_vertex_list(a: &HexFace, b: &HexFace) -> (shared: Vec<VertexId>)
    ensures
        shared@.no_duplicates(),
        shared@.to_set() == shared_vertices(*a, *b),
{
    let mut shared: Vec<VertexId> = Vec::new();
    let mut i: usize = 0;
    while i < 6
        invariant
            i <= 6,
            shared@.no_duplicates(),
            forall|v: VertexId| shared@.contains(v) <==> (exists|k: int| 0 <= k < i && a.vertices[k] == v) && b.vertices@.contains(v),
        decreases 6 - i,
    {
        let v = a.vertices[i];
        let mut in_b = false;
        let mut j: usize = 0;
        while j < 6
            invariant
                j <= 6,
                in_b == exists|k: int| 0 <= k < j && b.vertices[k] == v,
            decreases 6 - j,
        {
            if b.vertices[j] == v {
                in_b = true;
            }
            j += 1;
        }
        let mut seen = false;
        let mut k: usize = 0;
        while k < shared.len()
            invariant
                k <= shared@.len(),
                seen == exists|m: int| 0 <= m < k && shared@[m] == v,
            decreases shared@.len() - k,
        {
            if shared[k] == v {
                seen = true;
            }
            k += 1;
        }
        let ghost before = shared@;
        assert(forall|x: VertexId| before.contains(x) <==> (exists|k: int| 0 <= k < i && a.vertices[k] == x) && b.vertices@.contains(x));
        if in_b && !seen {
            shared.push(v);
        }
        proof {
            assert(b.vertices@.contains(v) == in_b) by {
                if b.vertices@.contains(v) {
                    let m = choose|m: int| 0 <= m < 6 && b.vertices@[m] == v;
                    assert(b.vertices[m] == v);
                }
            }
            assert(seen == before.contains(v)) by {
                if before.contains(v) {
                    let m = choose|m: int| 0 <= m < before.len() && before[m] == v;
                    assert(shared@[m] == v);
                }
            }
            assert forall|x: VertexId| shared@.contains(x) == (before.contains(x) || (in_b && !seen && x == v)) by {
                if in_b && !seen {
                    assert(shared@ == before.push(v));
                    if shared@.contains(x) {
                        let m = choose|m: int| 0 <= m < shared@.len() && shared@[m] == x;
                        if m < before.len() {
                            assert(before[m] == x);
                        }
                    }
                    if before.contains(x) {
                        let m = choose|m: int| 0 <= m < before.len() && before[m] == x;
                        assert(shared@[m] == x);
                    }
                    if x == v {
                        assert(shared@[before.len() as int] == v);
                    }
                }
            }
            assert forall|x: VertexId| shared@.contains(x) <==> (exists|m: int| 0 <= m < i + 1 && a.vertices[m] == x)
                && b.vertices@.contains(x) by {
                lemma_prefix_holds(a.vertices, x, i as int);
                assert(shared@.contains(x) == (before.contains(x) || (in_b && !seen && x == v)));
                assert(before.contains(x) == ((exists|k: int| 0 <= k < i && a.vertices[k] == x) && b.vertices@.contains(x)));
            }
        }
        i += 1;
    }
    proof {
        assert forall|v: VertexId| shared@.to_set().contains(v) == shared_vertices(*a, *b).contains(v) by {
            if a.vertices@.contains(v) {
                let m = choose|m: int| 0 <= m < 6 && a.vertices@[m] == v;
                assert(a.vertices[m] == v);
            }
            if exists|m: int| 0 <= m < 6 && a.vertices[m] == v {
                let m = choose|m: int| 0 <= m < 6 && a.vertices[m] == v;
                assert(a.vertices@[m] == v);
            }
        }
        assert(shared@.to_set() =~= shared_vertices(*a, *b));
    }
    shared
}

fn list_contains(items: &Vec<VertexId>, target: VertexId) -> (found: bool)
    ensures
        found == items@.contains(target),
{
    let mut i: usize = 0;
    while i < items.len()
        invariant
            i <= items@.len(),
            forall|j: int| 0 <= j < i ==> items@[j] != target,
        decreases items@.len() - i,
    {
        if items[i] == target {
            return true;
        }
        i += 1;
    }
    false
}

/// The shared side keys of a face, given its shared vertices as a list.
fn side_keys(face: &HexFace, shared: &Vec<VertexId>) -> (keys: Vec<u128>)
    ensures
        keys@ == shared_side_keys(*face, shared@.to_set(), 6),
{
    let mut keys: Vec<u128> = Vec::new();
    let mut i: usize = 0;
    while i < 6
        invariant
            i <= 6,
            keys@ == shared_side_keys(*face, shared@.to_set(), i as int),
        decreases 6 - i,
    {
        let a = face.vertices[i];
        let b = face.vertices[(i + 1) % 6];
        if list_contains(shared, a) && list_contains(shared, b) {
            keys.push(pair_key_of(a, b));
        }
        i += 1;
    }
    keys
}

/// The half-edges of `face` between two shared vertices.
fn half_edges_between(topology: &HexFaceTopology, face: FaceId, shared: &Vec<VertexId>) -> (found: Vec<
    HalfEdgeId,
>)
    ensures
        found@ == shared_half_edges(
            topology.half_edges@,
            face,
            shared@.to_set(),
            topology.half_edges@.len() as int,
        ),
{
    let mut found: Vec<HalfEdgeId> = Vec::new();
    let mut e: usize = 0;
    while e < topology.half_edges.len()
        invariant
            e <= topology.half_edges@.len(),
            found@ == shared_half_edges(topology.half_edges@, face, shared@.to_set(), e as int),
        decreases topology.half_edges@.len() - e,
    {
        let edge = topology.half_edges[e];
        if edge.incident_face == face && list_contains(shared, edge.origin) && list_contains(
            shared,
            edge.destination,
        ) {
            found.push(HalfEdgeId(e));
        }
        e += 1;
    }
    found
}

proof fn lemma_shared_half_edges_in_range(edges: Seq<HalfEdge>, face: FaceId, shared: Set<VertexId>, n: int)
    requires
        0 <= n <= edges.len(),
        edges.len() <= usize::MAX,
    ensures
        forall|k: int|
            0 <= k < shared_half_edges(edges, face, shared, n).len() ==> (#[trigger] shared_half_edges(
                edges,
                face,
                shared,
                n,
            )[k]).0 < n,
    decreases n,
{
    if n > 0 {
        lemma_shared_half_edges_in_range(edges, face, shared, n - 1);
        let earlier = shared_half_edges(edges, face, shared, n - 1);
        let edge = edges[n - 1];
        if edge.incident_face == face && shared.contains(edge.origin) && shared.contains(edge.destination) {
            assert(shared_half_edges(edges, face, shared, n) == earlier.push(HalfEdgeId((n - 1) as usize)));
            assert forall|k: int| 0 <= k < earlier.len() + 1 implies (#[trigger] earlier.push(
                HalfEdgeId((n - 1) as usize),
            )[k]).0 < n by {
                if k < earlier.len() {
                    assert(earlier[k].0 < n - 1);
                }
            }
        }
    }
}

/// Checks the exact shared side of two neighboring tiles' faces.
fn validate_neighbor_pair(topology: &HexFaceTopology, coord_a: HexCoord, coord_b: HexCoord) -> (checked:
    Result<(), HexFaceTopologyError>)
    ensures
        checked is Ok <==> neighbor_pair_exact(*topology, coord_a, coord_b),
        checked == outcome(neighbor_pair_fault(*topology, coord_a, coord_b)),
{
    let ghost edges = topology.half_edges@;
    let face_a_id = match topology.face_for(coord_a) {
        Some(face) => face,
        None => {
            return Err(invalid(TopologyViolation::MissingFaceMapping(coord_a)));
        },
    };
    let face_b_id = match topology.face_for(coord_b) {
        Some(face) => face,
        None => {
            return Err(invalid(TopologyViolation::MissingFaceMapping(coord_b)));
        },
    };
    if face_a_id.0 >= topology.faces.len() {
        return Err(invalid(TopologyViolation::InvalidFaceId(face_a_id)));
    }
    if face_b_id.0 >= topology.faces.len() {
        return Err(invalid(TopologyViolation::InvalidFaceId(face_b_id)));
    }
    let face_a = topology.faces[face_a_id.0];
    let face_b = topology.faces[face_b_id.0];
    let shared = shared_vertex_list(&face_a, &face_b);
    proof {
        shared@.unique_seq_to_set();
    }
    if shared.len() != 2 {
        return Err(
            invalid(
                TopologyViolation::NeighborSharedVertices {
                    face_a: face_a_id,
                    face_b: face_b_id,
                    shared: shared.len(),
                },
            ),
        );
    }
    let keys_a = side_keys(&face_a, &shared);
    let keys_b = side_keys(&face_b, &shared);
    if keys_a.len() != 1 || keys_b.len() != 1 || keys_a[0] != keys_b[0] {
        return Err(
            invalid(
                TopologyViolation::NeighborSharedLogicalEdges {
                    face_a: face_a_id,
                    face_b: face_b_id,
                    count_a: keys_a.len(),
                    count_b: keys_b.len(),
                },
            ),
        );
    }
    let halves_a = half_edges_between(topology, face_a_id, &shared);
    let halves_b = half_edges_between(topology, face_b_id, &shared);
    if halves_a.len() != 1 || halves_b.len() != 1 {
        return Err(
            invalid(
                TopologyViolation::NeighborSharedHalfEdges {
                    face_a: face_a_id,
                    face_b: face_b_id,
                    count_a: halves_a.len(),
                    count_b: halves_b.len(),
                },
            ),
        );
    }
    let edge_a_id = halves_a[0];
    let edge_b_id = halves_b[0];
    proof {
        assert(edges.len() == topology.half_edges.len());
        lemma_shared_half_edges_in_range(edges, face_a_id, shared@.to_set(), edges.len() as int);
        lemma_shared_half_edges_in_range(edges, face_b_id, shared@.to_set(), edges.len() as int);
    }
    let edge_a = topology.half_edges[edge_a_id.0];
    let edge_b = topology.half_edges[edge_b_id.0];
    if edge_a.origin != edge_b.destination || edge_a.destination != edge_b.origin {
        return Err(invalid(TopologyViolation::NeighborEdgesNotReversed { edge_a: edge_a_id, edge_b: edge_b_id }));
    }
    match (edge_a.twin, edge_b.twin) {
        (None, None) => Err(
            invalid(TopologyViolation::InternalEdgePairIsBoundary { edge_a: edge_a_id, edge_b: edge_b_id }),
        ),
        (None, Some(_)) | (Some(_), None) => Err(
            invalid(TopologyViolation::NeighborEdgesMissOneTwin { edge_a: edge_a_id, edge_b: edge_b_id }),
        ),
        (Some(twin_a), Some(twin_b)) => {
            if twin_a == edge_b_id && twin_b == edge_a_id {
                Ok(())
            } else {
                Err(
                    invalid(
                        TopologyViolation::NeighborEdgesAsymmetricTwins { edge_a: edge_a_id, edge_b: edge_b_id },
                    ),
                )
            }
        },
    }
}

/// The first fault of half-edge `e`'s twin link, if any: the twin and both
/// faces exist, the faces' cells are neighbors, the twin runs the other way,
/// and it links back.
pub open spec fn twin_link_fault(topology: HexFaceTopology, e: int) -> Option<HexFaceTopologyError> {
    let edges = topology.half_edges@;
    let faces = topology.faces@;
    let edge = edges[e];
    match edge.twin {
        None => None,
        Some(twin_id) => if twin_id.0 >= edges.len() {
            Some(invalid_spec(TopologyViolation::InvalidEdgeId(twin_id)))
        } else {
            let twin = edges[twin_id.0 as int];
            if edge.incident_face.0 >= faces.len() {
                Some(invalid_spec(TopologyViolation::InvalidFaceId(edge.incident_face)))
            } else if twin.incident_face.0 >= faces.len() {
                Some(invalid_spec(TopologyViolation::InvalidFaceId(twin.incident_face)))
            } else if !faces[edge.incident_face.0 as int].hex.is_neighbor_of(
                faces[twin.incident_face.0 as int].hex,
            ) {
                Some(
                    invalid_spec(
                        TopologyViolation::TwinConnectsNonNeighbors {
                            edge_id: HalfEdgeId(e as usize),
                            twin_id,
                        },
                    ),
                )
            } else if twin.origin != edge.destination || twin.destination != edge.origin {
                Some(
                    invalid_spec(
                        TopologyViolation::TwinSameDirection { edge_id: HalfEdgeId(e as usize), twin_id },
                    ),
                )
            } else if twin.twin != Some(HalfEdgeId(e as usize)) {
                Some(HexFaceTopologyError::InconsistentTwin { edge: HalfEdgeId(e as usize), twin: twin_id })
            } else {
                None
            }
        },
    }
}

/// Every twin link joins existing faces of neighboring cells, runs the other
/// way and links back.
pub open spec fn twin_links_ok(topology: HexFaceTopology) -> bool {
    forall|e: int| 0 <= e < topology.half_edges@.len() ==> #[trigger] twin_link_fault(topology, e) is None
}

/// The twin-link faults, by half-edge.
pub open spec fn twin_link_faults(topology: HexFaceTopology) -> spec_fn(int) -> Option<HexFaceTopologyError> {
    |e: int| twin_link_fault(topology, e)
}

/// Checks every twin link; reports the first fault.
fn validate_all_twin_links(topology: &HexFaceTopology) -> (checked: Result<(), HexFaceTopologyError>)
    requires
        face_cells_have_neighbors(*topology),
    ensures
        checked is Ok <==> twin_links_ok(*topology),
        checked == outcome(first_fault(twin_link_faults(*topology), 0, topology.half_edges@.len() as int)),
        checked matches Err(error) ==> exists|e: int|
            0 <= e < topology.half_edges@.len() && (forall|d: int|
                0 <= d < e ==> #[trigger] twin_link_fault(*topology, d) is None) && twin_link_fault(
                *topology,
                e,
            ) == Some(error),
{
    let mut e: usize = 0;
    while e < topology.half_edges.len()
        invariant
            e <= topology.half_edges@.len(),
            face_cells_have_neighbors(*topology),
            forall|d: int| 0 <= d < e ==> #[trigger] twin_link_fault(*topology, d) is None,
            first_fault(twin_link_faults(*topology), 0, topology.half_edges@.len() as int) == first_fault(
                twin_link_faults(*topology),
                e as int,
                topology.half_edges@.len() as int,
            ),
        decreases topology.half_edges@.len() - e,
    {
        let edge = topology.half_edges[e];
        if let Some(twin_id) = edge.twin {
            if twin_id.0 >= topology.half_edges.len() {
                return Err(invalid(TopologyViolation::InvalidEdgeId(twin_id)));
            }
            let twin = topology.half_edges[twin_id.0];
            if edge.incident_face.0 >= topology.faces.len() {
                return Err(invalid(TopologyViolation::InvalidFaceId(edge.incident_face)));
            }
            if twin.incident_face.0 >= topology.faces.len() {
                return Err(invalid(TopologyViolation::InvalidFaceId(twin.incident_face)));
            }
            let cell = topology.faces[edge.incident_face.0].hex;
            let twin_cell = topology.faces[twin.incident_face.0].hex;
            if !cell.is_adjacent_to(twin_cell) {
                return Err(
                    invalid(TopologyViolation::TwinConnectsNonNeighbors { edge_id: HalfEdgeId(e), twin_id }),
                );
            }
            if twin.origin != edge.destination || twin.destination != edge.origin {
                return Err(invalid(TopologyViolation::TwinSameDirection { edge_id: HalfEdgeId(e), twin_id }));
            }
            let links_back = match twin.twin {
                Some(back) => back.0 == e,
                None => false,
            };
            if !links_back {
                assert(twin.twin != Some(HalfEdgeId(e)));
                assert(twin_link_fault(*topology, e as int) == Some(
                    HexFaceTopologyError::InconsistentTwin { edge: HalfEdgeId(e), twin: twin_id },
                ));
                return Err(HexFaceTopologyError::InconsistentTwin { edge: HalfEdgeId(e), twin: twin_id });
            }
        }
        e += 1;
    }
    Ok(())
}

/// The undirected key of side `i` of a face.
pub open spec fn side_key(face: HexFace, i: int) -> u128 {
    pair_key(face.vertices[i], face.vertices[(i + 1) % 6])
}

/// Faces that share a side lie on neighboring cells.
pub open spec fn shared_sides_ok(topology: HexFaceTopology) -> bool {
    let faces = topology.faces@;
    forall|f: int, g: int, i: int, j: int|
        0 <= f < g < faces.len() && 0 <= i < 6 && 0 <= j < 6 && #[trigger] side_key(faces[f], i)
            == #[trigger] side_key(faces[g], j) ==> faces[f].hex.is_neighbor_of(faces[g].hex)
}

/// The undirected key of a half-edge's two vertices.
pub open spec fn half_edge_key(edge: HalfEdge) -> u128 {
    pair_key(edge.origin, edge.destination)
}

/// Half-edges of different faces on one undirected edge lie on existing faces
/// of neighboring cells and both have twins.
pub open spec fn shared_half_edges_ok(topology: HexFaceTopology) -> bool {
    let edges = topology.half_edges@;
    let faces = topology.faces@;
    forall|a: int, b: int|
        0 <= a < b < edges.len() && #[trigger] half_edge_key(edges[a]) == #[trigger] half_edge_key(edges[b])
            && edges[a].incident_face != edges[b].incident_face ==> {
            &&& edges[a].incident_face.0 < faces.len()
            &&& edges[b].incident_face.0 < faces.len()
            &&& faces[edges[a].incident_face.0 as int].hex.is_neighbor_of(faces[edges[b].incident_face.0 as int].hex)
            &&& edges[a].twin is Some
            &&& edges[b].twin is Some
        }
}

/// Whether two faces have a side with the same pair of endpoints.
fn faces_share_side(face: &HexFace, other: &HexFace) -> (shares: bool)
    ensures
        shares == exists|x: int, y: int| 0 <= x < 6 && 0 <= y < 6 && #[trigger] side_key(*face, x) == #[trigger] side_key(*other, y),
{
    let mut i: usize = 0;
    while i < 6
        invariant
            i <= 6,
            forall|x: int, y: int| 0 <= x < i && 0 <= y < 6 ==> #[trigger] side_key(*face, x) != #[trigger] side_key(*other, y),
        decreases 6 - i,
    {
        let key = pair_key_of(face.vertices[i], face.vertices[(i + 1) % 6]);
        let mut j: usize = 0;
        while j < 6
            invariant
                i < 6,
                j <= 6,
                key == side_key(*face, i as int),
                forall|x: int, y: int| 0 <= x < i && 0 <= y < 6 ==> #[trigger] side_key(*face, x) != #[trigger] side_key(*other, y),
                forall|y: int| 0 <= y < j ==> side_key(*face, i as int) != #[trigger] side_key(*other, y),
            decreases 6 - j,
        {
            let other_key = pair_key_of(other.vertices[j], other.vertices[(j + 1) % 6]);
            if key == other_key {
                assert(side_key(*face, i as int) == side_key(*other, j as int));
                return true;
            }
            j += 1;
        }
        i += 1;
    }
    false
}

/// Faces `f` and `g` share a side though their cells are not neighbors.
pub open spec fn side_pair_fault(topology: HexFaceTopology, f: int, g: int) -> Option<HexFaceTopologyError> {
    let faces = topology.faces@;
    if (exists|x: int, y: int|
        0 <= x < 6 && 0 <= y < 6 && #[trigger] side_key(faces[f], x) == #[trigger] side_key(faces[g], y))
        && !faces[f].hex.is_neighbor_of(faces[g].hex) {
        Some(
            invalid_spec(
                TopologyViolation::NonNeighborFacesShareEdge {
                    first_face: FaceId(f as usize),
                    second_face: FaceId(g as usize),
                },
            ),
        )
    } else {
        None
    }
}

/// The shared-side faults of face `f` against each later face.
pub open spec fn side_pair_faults(topology: HexFaceTopology, f: int) -> spec_fn(int) -> Option<
    HexFaceTopologyError,
> {
    |g: int| side_pair_fault(topology, f, g)
}

/// The first shared-side fault of each face, against the later faces.
pub open spec fn side_faults(topology: HexFaceTopology) -> spec_fn(int) -> Option<HexFaceTopologyError> {
    |f: int| first_fault(side_pair_faults(topology, f), f + 1, topology.faces@.len() as int)
}

/// Checks that faces sharing a side lie on neighboring cells.
fn validate_shared_sides(topology: &HexFaceTopology) -> (checked: Result<(), HexFaceTopologyError>)
    requires
        face_cells_have_neighbors(*topology),
    ensures
        checked is Ok <==> shared_sides_ok(*topology),
        checked == outcome(first_fault(side_faults(*topology), 0, topology.faces@.len() as int)),
{
    let ghost faces = topology.faces@;
    let mut f: usize = 0;
    while f < topology.faces.len()
        invariant
            f <= faces.len(),
            faces == topology.faces@,
            face_cells_have_neighbors(*topology),
            forall|a: int, g: int, i: int, j: int|
                0 <= a < f && a < g < faces.len() && 0 <= i < 6 && 0 <= j < 6 && #[trigger] side_key(faces[a], i)
                    == #[trigger] side_key(faces[g], j) ==> faces[a].hex.is_neighbor_of(faces[g].hex),
            first_fault(side_faults(*topology), 0, faces.len() as int) == first_fault(
                side_faults(*topology),
                f as int,
                faces.len() as int,
            ),
        decreases faces.len() - f,
    {
        let face = topology.faces[f];
        let mut g: usize = f + 1;
        while g < topology.faces.len()
            invariant
                f < g <= faces.len(),
                faces == topology.faces@,
                face == faces[f as int],
                face_cells_have_neighbors(*topology),
                forall|a: int, h: int, i: int, j: int|
                    0 <= a < f && a < h < faces.len() && 0 <= i < 6 && 0 <= j < 6 && #[trigger] side_key(faces[a], i)
                        == #[trigger] side_key(faces[h], j) ==> faces[a].hex.is_neighbor_of(faces[h].hex),
                forall|h: int, i: int, j: int|
                    f < h < g && 0 <= i < 6 && 0 <= j < 6 && #[trigger] side_key(faces[f as int], i)
                        == #[trigger] side_key(faces[h], j) ==> faces[f as int].hex.is_neighbor_of(faces[h].hex),
                first_fault(side_faults(*topology), 0, faces.len() as int) == first_fault(
                    side_faults(*topology),
                    f as int,
                    faces.len() as int,
                ),
                first_fault(side_pair_faults(*topology, f as int), f + 1, faces.len() as int) == first_fault(
                    side_pair_faults(*topology, f as int),
                    g as int,
                    faces.len() as int,
                ),
            decreases faces.len() - g,
        {
            let other = topology.faces[g];
            let shares = faces_share_side(&face, &other);
            if shares && !face.hex.is_adjacent_to(other.hex) {
                assert(side_pair_fault(*topology, f as int, g as int) is Some);
                return Err(
                    invalid(TopologyViolation::NonNeighborFacesShareEdge { first_face: FaceId(f), second_face: FaceId(g) }),
                );
            }
            g += 1;
        }
        f += 1;
    }
    Ok(())
}

/// The fault of half-edges `a` and `b`: when they lie on one undirected edge
/// and on different faces, a face id out of range, faces of cells that are
/// not neighbors, or a missing twin.
pub open spec fn half_edge_pair_fault(topology: HexFaceTopology, a: int, b: int) -> Option<HexFaceTopologyError> {
    let edges = topology.half_edges@;
    let faces = topology.faces@;
    let first = edges[a];
    let second = edges[b];
    if first.incident_face != second.incident_face && half_edge_key(first) == half_edge_key(second) {
        if first.incident_face.0 >= faces.len() {
            Some(invalid_spec(TopologyViolation::InvalidFaceId(first.incident_face)))
        } else if second.incident_face.0 >= faces.len() {
            Some(invalid_spec(TopologyViolation::InvalidFaceId(second.incident_face)))
        } else if !faces[first.incident_face.0 as int].hex.is_neighbor_of(
            faces[second.incident_face.0 as int].hex,
        ) {
            Some(
                invalid_spec(
                    TopologyViolation::NonNeighborHalfEdgesShareEdge {
                        first_edge: HalfEdgeId(a as usize),
                        second_edge: HalfEdgeId(b as usize),
                    },
                ),
            )
        } else if first.twin is None || second.twin is None {
            Some(
                invalid_spec(
                    TopologyViolation::BoundaryEdgeMissingInternalTwin {
                        first_edge: HalfEdgeId(a as usize),
                        second_edge: HalfEdgeId(b as usize),
                    },
                ),
            )
        } else {
            None
        }
    } else {
        None
    }
}

/// The faults of half-edge `a` against each later half-edge.
pub open spec fn half_edge_pair_faults(topology: HexFaceTopology, a: int) -> spec_fn(int) -> Option<
    HexFaceTopologyError,
> {
    |b: int| half_edge_pair_fault(topology, a, b)
}

/// The first fault of each half-edge, against the later half-edges.
pub open spec fn half_edge_faults(topology: HexFaceTopology) -> spec_fn(int) -> Option<HexFaceTopologyError> {
    |a: int| first_fault(half_edge_pair_faults(topology, a), a + 1, topology.half_edges@.len() as int)
}

/// Checks that half-edges of different faces on one undirected edge lie on
/// neighboring cells and both have twins.
fn validate_shared_half_edges(topology: &HexFaceTopology) -> (checked: Result<(), HexFaceTopologyError>)
    requires
        face_cells_have_neighbors(*topology),
    ensures
        checked is Ok <==> shared_half_edges_ok(*topology),
        checked == outcome(first_fault(half_edge_faults(*topology), 0, topology.half_edges@.len() as int)),
{
    let ghost edges = topology.half_edges@;
    let ghost faces = topology.faces@;
    let mut a: usize = 0;
    while a < topology.half_edges.len()
        invariant
            a <= edges.len(),
            edges == topology.half_edges@,
            faces == topology.faces@,
            face_cells_have_neighbors(*topology),
            forall|x: int, y: int|
                0 <= x < a && x < y < edges.len() && #[trigger] half_edge_key(edges[x]) == #[trigger] half_edge_key(edges[y])
                    && edges[x].incident_face != edges[y].incident_face ==> {
                    &&& edges[x].incident_face.0 < faces.len()
                    &&& edges[y].incident_face.0 < faces.len()
                    &&& faces[edges[x].incident_face.0 as int].hex.is_neighbor_of(faces[edges[y].incident_face.0 as int].hex)
                    &&& edges[x].twin is Some
                    &&& edges[y].twin is Some
                },
            first_fault(half_edge_faults(*topology), 0, edges.len() as int) == first_fault(
                half_edge_faults(*topology),
                a as int,
                edges.len() as int,
            ),
        decreases edges.len() - a,
    {
        let first = topology.half_edges[a];
        let key = pair_key_of(first.origin, first.destination);
        let mut b: usize = a + 1;
        while b < topology.half_edges.len()
            invariant
                a < b <= edges.len(),
                edges == topology.half_edges@,
                faces == topology.faces@,
                first == edges[a as int],
                key == half_edge_key(first),
                face_cells_have_neighbors(*topology),
                forall|x: int, y: int|
                    0 <= x < a && x < y < edges.len() && #[trigger] half_edge_key(edges[x]) == #[trigger] half_edge_key(edges[y])
                        && edges[x].incident_face != edges[y].incident_face ==> {
                        &&& edges[x].incident_face.0 < faces.len()
                        &&& edges[y].incident_face.0 < faces.len()
                        &&& faces[edges[x].incident_face.0 as int].hex.is_neighbor_of(faces[edges[y].incident_face.0 as int].hex)
                        &&& edges[x].twin is Some
                        &&& edges[y].twin is Some
                    },
                forall|y: int|
                    a < y < b && half_edge_key(edges[a as int]) == #[trigger] half_edge_key(edges[y])
                        && edges[a as int].incident_face != edges[y].incident_face ==> {
                        &&& edges[a as int].incident_face.0 < faces.len()
                        &&& edges[y].incident_face.0 < faces.len()
                        &&& faces[edges[a as int].incident_face.0 as int].hex.is_neighbor_of(faces[edges[y].incident_face.0 as int].hex)
                        &&& edges[a as int].twin is Some
                        &&& edges[y].twin is Some
                    },
                first_fault(half_edge_faults(*topology), 0, edges.len() as int) == first_fault(
                    half_edge_faults(*topology),
                    a as int,
                    edges.len() as int,
                ),
                first_fault(half_edge_pair_faults(*topology, a as int), a + 1, edges.len() as int) == first_fault(
                    half_edge_pair_faults(*topology, a as int),
                    b as int,
                    edges.len() as int,
                ),
            decreases edges.len() - b,
        {
            let second = topology.half_edges[b];
            let second_key = pair_key_of(second.origin, second.destination);
            assert(second_key == half_edge_key(edges[b as int]));
            if first.incident_face != second.incident_face && key == second_key {
                assert(half_edge_key(edges[a as int]) == half_edge_key(edges[b as int]));
                if first.incident_face.0 >= topology.faces.len() {
                    return Err(invalid(TopologyViolation::InvalidFaceId(first.incident_face)));
                }
                if second.incident_face.0 >= topology.faces.len() {
                    return Err(invalid(TopologyViolation::InvalidFaceId(second.incident_face)));
                }
                let cell = topology.faces[first.incident_face.0].hex;
                let other_cell = topology.faces[second.incident_face.0].hex;
                if !cell.is_adjacent_to(other_cell) {
                    return Err(
                        invalid(
                            TopologyViolation::NonNeighborHalfEdgesShareEdge {
                                first_edge: HalfEdgeId(a),
                                second_edge: HalfEdgeId(b),
                            },
                        ),
                    );
                }
                if first.twin.is_none() || second.twin.is_none() {
                    return Err(
                        invalid(
                            TopologyViolation::BoundaryEdgeMissingInternalTwin {
                                first_edge: HalfEdgeId(a),
                                second_edge: HalfEdgeId(b),
                            },
                        ),
                    );
                }
            }
            b += 1;
        }
        a += 1;
    }
    Ok(())
}

/// For every pair of neighboring tiles (the later one after the earlier in
/// `(q, r)` order), the exact shared side holds.
pub open spec fn neighbor_pairs_exact(topology: HexFaceTopology, layout: MapLayout) -> bool {
    forall|t: int, i: int|
        0 <= t < layout.tile_seq().len() && 0 <= i < 6 && layout.tile_seq()[t].precedes(
            layout.tile_seq()[t].neighbor(i),
        ) && layout.has_tile(layout.tile_seq()[t].neighbor(i)) ==> #[trigger] neighbor_pair_exact(
            topology,
            layout.tile_seq()[t],
            layout.tile_seq()[t].neighbor(i),
        )
}

/// The logical adjacency of a topology is exact: neighboring tiles share
/// exactly one reciprocal side, twins link neighbors only, and only faces of
/// neighboring cells share sides.
pub open spec fn logical_adjacency_ok(topology: HexFaceTopology, layout: MapLayout) -> bool {
    &&& neighbor_pairs_exact(topology, layout)
    &&& twin_links_ok(topology)
    &&& shared_sides_ok(topology)
    &&& shared_half_edges_ok(topology)
}

/// The fault toward the neighbor of tile `coord` in direction `i`, when that
/// neighbor comes later and is a tile.
pub open spec fn pair_direction_fault(topology: HexFaceTopology, layout: MapLayout, coord: HexCoord, i: int) -> Option<
    HexFaceTopologyError,
> {
    let neighbor = coord.neighbor(i);
    if coord.precedes(neighbor) && layout.has_tile(neighbor) {
        neighbor_pair_fault(topology, coord, neighbor)
    } else {
        None
    }
}

/// The faults of tile `coord`, by direction.
pub open spec fn pair_direction_faults(topology: HexFaceTopology, layout: MapLayout, coord: HexCoord) -> spec_fn(
    int,
) -> Option<HexFaceTopologyError> {
    |i: int| pair_direction_fault(topology, layout, coord, i)
}

/// The first fault of each tile toward its later neighboring tiles.
pub open spec fn tile_pair_faults(topology: HexFaceTopology, layout: MapLayout) -> spec_fn(int) -> Option<
    HexFaceTopologyError,
> {
    |t: int| first_fault(pair_direction_faults(topology, layout, layout.tile_seq()[t]), 0, 6)
}

/// The first fault of the logical adjacency check: the neighbor pairs tile
/// by tile, then the twin links, the shared sides and the shared half-edges.
pub open spec fn logical_adjacency_fault(topology: HexFaceTopology, layout: MapLayout) -> Option<
    HexFaceTopologyError,
> {
    match first_fault(tile_pair_faults(topology, layout), 0, layout.tile_seq().len() as int) {
        Some(error) => Some(error),
        None => match first_fault(twin_link_faults(topology), 0, topology.half_edges@.len() as int) {
            Some(error) => Some(error),
            None => match first_fault(side_faults(topology), 0, topology.faces@.len() as int) {
                Some(error) => Some(error),
                None => first_fault(half_edge_faults(topology), 0, topology.half_edges@.len() as int),
            },
        },
    }
}

/// Validates exact shared-edge relationships for all logical neighbors.
pub fn validate_logical_adjacency(topology: &HexFaceTopology, layout: &MapLayout) -> (checked: Result<
    (),
    HexFaceTopologyError,
>)
    requires
        tiles_have_neighbors(layout.tile_seq()),
        face_cells_have_neighbors(*topology),
    ensures
        checked is Ok <==> logical_adjacency_ok(*topology, *layout),
        checked == outcome(logical_adjacency_fault(*topology, *layout)),
{
    let tiles = layout.tiles();
    let mut t: usize = 0;
    while t < tiles.len()
        invariant
            t <= tiles@.len(),
            tiles@ == layout.tile_seq(),
            tiles_have_neighbors(tiles@),
            forall|u: int, i: int|
                0 <= u < t && 0 <= i < 6 && tiles@[u].precedes(tiles@[u].neighbor(i)) && layout.has_tile(
                    tiles@[u].neighbor(i),
                ) ==> #[trigger] neighbor_pair_exact(*topology, tiles@[u], tiles@[u].neighbor(i)),
            first_fault(tile_pair_faults(*topology, *layout), 0, tiles@.len() as int) == first_fault(
                tile_pair_faults(*topology, *layout),
                t as int,
                tiles@.len() as int,
            ),
        decreases tiles@.len() - t,
    {
        let coord = tiles[t];
        let neighbors = coord.neighbors();
        let mut i: usize = 0;
        while i < 6
            invariant
                i <= 6,
                t < tiles@.len(),
                tiles@ == layout.tile_seq(),
                coord == tiles@[t as int],
                forall|j: int| 0 <= j < 6 ==> #[trigger] neighbors[j] == coord.neighbor(j),
                forall|u: int, k: int|
                    0 <= u < t && 0 <= k < 6 && tiles@[u].precedes(tiles@[u].neighbor(k)) && layout.has_tile(
                        tiles@[u].neighbor(k),
                    ) ==> #[trigger] neighbor_pair_exact(*topology, tiles@[u], tiles@[u].neighbor(k)),
                forall|k: int|
                    0 <= k < i && coord.precedes(coord.neighbor(k)) && layout.has_tile(coord.neighbor(k))
                        ==> #[trigger] neighbor_pair_exact(*topology, coord, coord.neighbor(k)),
                first_fault(tile_pair_faults(*topology, *layout), 0, tiles@.len() as int) == first_fault(
                    tile_pair_faults(*topology, *layout),
                    t as int,
                    tiles@.len() as int,
                ),
                first_fault(pair_direction_faults(*topology, *layout, coord), 0, 6) == first_fault(
                    pair_direction_faults(*topology, *layout, coord),
                    i as int,
                    6,
                ),
            decreases 6 - i,
        {
            let neighbor = neighbors[i];
            if coord.is_before(neighbor) && layout.contains_tile(neighbor) {
                match validate_neighbor_pair(topology, coord, neighbor) {
                    Ok(()) => {},
                    Err(error) => {
                        assert(!neighbor_pair_exact(*topology, tiles@[t as int], tiles@[t as int].neighbor(i as int)));
                        return Err(error);
                    },
                }
            }
            i += 1;
        }
        t += 1;
    }
    validate_all_twin_links(topology)?;
    validate_shared_sides(topology)?;
    validate_shared_half_edges(topology)?;
    Ok(())
}

} // verus!
