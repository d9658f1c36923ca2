//! The half-edge topology of the hex faces and its construction from the
//! map layout and the canonical corner keys.
use vstd::prelude::*;
use std::collections::HashMap;

use crate::corner_key::{canonical_corner_key, corner_key_spec};
use crate::hex_coord::{coord_key, hex_key, HexCoord};
use crate::map_layout::MapLayout;
use crate::sorted_set::{insert_sorted, search_sorted, strictly_ascending, StrictOrder};
use crate::types::{
    FaceId, HalfEdge, HalfEdgeId, HexFace, MapVertex, PositionBits, SharedCornerKey, VertexId,
};

verus! {

broadcast use vstd::std_specs::hash::group_hash_axioms;

/// Integer counters of one generated topology.
#[derive(Debug, Clone, Copy, PartialEq, Eq, Default)]
pub struct TopologyStats {
    pub reduced_displacement_fallbacks: usize,
    pub regular_position_fallbacks: usize,
    pub reduction_rounds: usize,
    pub reduced_vertices: usize,
    pub half_edge_count: usize,
    pub paired_edge_count: usize,
    pub border_edge_count: usize,
}

/// Shared corner vertices, directed boundary half-edges, one face per tile,
/// the tile-to-face index (keyed by `hex_key`) and the counters.
#[derive(Debug, Clone, PartialEq, Default)]
pub struct HexFaceTopology {
    pub vertices: Vec<MapVertex>,
    pub half_edges: Vec<HalfEdge>,
    pub faces: Vec<HexFace>,
    pub hex_to_face: HashMap<u64, FaceId>,
    pub stats: TopologyStats,
}

impl HexFaceTopology {
    /// The face of a tile cell, if the index has one.
    pub fn face_for(&self, coord: HexCoord) -> (face: Option<FaceId>)
        ensures
            match face {
                Some(id) => self.hex_to_face@.contains_key(coord_key(coord))
                    && self.hex_to_face@[coord_key(coord)] == id,
                None => !self.hex_to_face@.contains_key(coord_key(coord)),
            },
    {
        let key = hex_key(coord);
        match self.hex_to_face.get(&key) {
            Some(id) => Some(*id),
            None => None,
        }
    }
}

/// Why a topology failed a structural check.
#[derive(Debug, Clone, Copy, PartialEq, Eq)]
pub enum TopologyViolation {
    FaceCountMismatch { faces: usize, tiles: usize },
    EdgeCountOverflow,
    EdgeCountMismatch { half_edges: usize, faces: usize },
    MappingCountMismatch { mappings: usize, tiles: usize },
    MappingWithoutFace(HexCoord),
    FaceOutsideBijection(usize),
    EdgeReferencesInvalidVertices(usize),
    EdgeReferencesInvalidCycle(usize),
    EdgeReferencesInvalidFace(usize),
    EdgeReferencesInvalidTwin(usize),
    FaceVerticesNotUnique(usize),
    FaceReferencesInvalidVertex(usize),
    NextCycleRepeats(FaceId),
    WrongIncidentFace(HalfEdgeId),
    EdgeOrderInconsistent(FaceId),
    EdgeInMultipleFaces(HalfEdgeId),
    DuplicateDirectedEdge { origin: VertexId, destination: VertexId },
    NextPrevInconsistent(HalfEdgeId),
    NextCycleNotSix(FaceId),
    PrevCycleRepeats(FaceId),
    PrevNextInconsistent(HalfEdgeId),
    PrevCycleNotSix(FaceId),
    UnreferencedHalfEdge,
    TwinNotReversed { twin: HalfEdgeId, of_edge: HalfEdgeId },
    TwinFacesNotNeighbors { edge_cell: HexCoord, twin_cell: HexCoord },
    EdgeStatisticsInconsistent { paired: usize, border: usize, half_edges: usize },
    InvalidFaceId(FaceId),
    InvalidEdgeId(HalfEdgeId),
    MissingFaceMapping(HexCoord),
    FaceCycleRepeats(FaceId),
    FaceCycleNotSix(FaceId),
    NoSymmetricTwin { coord: HexCoord, neighbor: HexCoord },
    InternalEdgeMissingTwin(usize),
    TwinFaceMismatch { edge_index: usize, actual: FaceId, expected: FaceId },
    BorderEdgeDuplicated(usize),
    BorderEdgeHasTwin { border_edge: usize, linked_face: FaceId },
    NeighborSharedVertices { face_a: FaceId, face_b: FaceId, shared: usize },
    NeighborSharedLogicalEdges { face_a: FaceId, face_b: FaceId, count_a: usize, count_b: usize },
    NeighborSharedHalfEdges { face_a: FaceId, face_b: FaceId, count_a: usize, count_b: usize },
    NeighborEdgesNotReversed { edge_a: HalfEdgeId, edge_b: HalfEdgeId },
    InternalEdgePairIsBoundary { edge_a: HalfEdgeId, edge_b: HalfEdgeId },
    NeighborEdgesMissOneTwin { edge_a: HalfEdgeId, edge_b: HalfEdgeId },
    NeighborEdgesAsymmetricTwins { edge_a: HalfEdgeId, edge_b: HalfEdgeId },
    TwinConnectsNonNeighbors { edge_id: HalfEdgeId, twin_id: HalfEdgeId },
    TwinSameDirection { edge_id: HalfEdgeId, twin_id: HalfEdgeId },
    NonNeighborFacesShareEdge { first_face: FaceId, second_face: FaceId },
    NonNeighborHalfEdgesShareEdge { first_edge: HalfEdgeId, second_edge: HalfEdgeId },
    BoundaryEdgeMissingInternalTwin { first_edge: HalfEdgeId, second_edge: HalfEdgeId },
}

/// Errors of topology generation and validation.
#[derive(Debug, Clone, Copy, PartialEq, Eq)]
pub enum HexFaceTopologyError {
    EmptyMap,
    DuplicateCornerKey(SharedCornerKey),
    CornerKeyMismatch(SharedCornerKey),
    NonConvexFace(FaceId),
    SelfIntersectingFace(FaceId),
    InvalidWinding(FaceId),
    NearZeroEdge { face: FaceId, edge: HalfEdgeId },
    NonPositiveArea(FaceId),
    InconsistentTwin { edge: HalfEdgeId, twin: HalfEdgeId },
    DisplacementFailed(FaceId),
    ValidationFailed(TopologyViolation),
}

/// Every tile cell has all six neighbors as coordinates.
pub open spec fn tiles_have_neighbors(tiles: Seq<HexCoord>) -> bool {
    forall|t: int| 0 <= t < tiles.len() ==> (#[trigger] tiles[t]).has_neighbors()
}

/// `key` is the canonical key of some corner of some tile.
pub open spec fn is_tile_corner_key(tiles: Seq<HexCoord>, key: SharedCornerKey) -> bool {
    exists|t: int, i: int| 0 <= t < tiles.len() && 0 <= i < 6 && key == corner_key_spec(tiles[t], i)
}

/// The canonical corner keys of all tiles, ascending and without repetition.
pub fn collect_corner_keys(layout: &MapLayout) -> (keys: Vec<SharedCornerKey>)
    requires
        tiles_have_neighbors(layout.tile_seq()),
    ensures
        strictly_ascending(keys@),
        forall|key: SharedCornerKey| keys@.contains(key) <==> is_tile_corner_key(layout.tile_seq(), key),
{
    let tiles = layout.tiles();
    let mut keys: Vec<SharedCornerKey> = Vec::new();
    let mut t: usize = 0;
    while t < tiles.len()
        invariant
            t <= tiles@.len(),
            tiles@ == layout.tile_seq(),
            tiles_have_neighbors(tiles@),
            strictly_ascending(keys@),
            forall|key: SharedCornerKey| keys@.contains(key) <==> exists|u: int, i: int|
                0 <= u < t && 0 <= i < 6 && key == corner_key_spec(tiles@[u], i),
        decreases tiles@.len() - t,
    {
        let coord = tiles[t];
        let mut i: usize = 0;
        while i < 6
            invariant
                t < tiles@.len(),
                i <= 6,
                coord == tiles@[t as int],
                coord.has_neighbors(),
                strictly_ascending(keys@),
                forall|key: SharedCornerKey| keys@.contains(key) <==> (exists|u: int, j: int|
                    0 <= u < t && 0 <= j < 6 && key == corner_key_spec(tiles@[u], j)) || (exists|
                    j: int,
                | 0 <= j < i && key == corner_key_spec(coord, j)),
            decreases 6 - i,
        {
            let key = canonical_corner_key(coord, i);
            let ghost before = keys@;
            insert_sorted(&mut keys, key);
            proof {
                assert forall|k: SharedCornerKey| keys@.contains(k) <==> (exists|u: int, j: int|
                    0 <= u < t && 0 <= j < 6 && k == corner_key_spec(tiles@[u], j)) || (exists|
                    j: int,
                | 0 <= j < i + 1 && k == corner_key_spec(coord, j)) by {
                    assert(keys@.contains(k) == keys@.to_set().contains(k));
                    assert(before.contains(k) == before.to_set().contains(k));
                    if k == key {
                        assert(0 <= i < i + 1 && k == corner_key_spec(coord, i as int));
                    }
                    if exists|j: int| 0 <= j < i + 1 && k == corner_key_spec(coord, j) {
                        let j = choose|j: int| 0 <= j < i + 1 && k == corner_key_spec(coord, j);
                        if j == i {
                            assert(k == key);
                        }
                    }
                }
            }
            i += 1;
        }
        proof {
            assert forall|k: SharedCornerKey| keys@.contains(k) <==> exists|u: int, j: int|
                0 <= u < t + 1 && 0 <= j < 6 && k == corner_key_spec(tiles@[u], j) by {
                if exists|u: int, j: int| 0 <= u < t + 1 && 0 <= j < 6 && k == corner_key_spec(tiles@[u], j) {
                    let (u, j) = choose|u: int, j: int|
                        0 <= u < t + 1 && 0 <= j < 6 && k == corner_key_spec(tiles@[u], j);
                    if u == t {
                        assert(exists|j2: int| 0 <= j2 < 6 && k == corner_key_spec(coord, j2));
                    }
                }
            }
        }
        t += 1;
    }
    keys
}

/// The index of `key` in an ascending key list (meaningful when present).
pub open spec fn key_index(keys: Seq<SharedCornerKey>, key: SharedCornerKey) -> int {
    choose|v: int| 0 <= v < keys.len() && keys[v] == key
}

/// The vertex id that corner `i` of tile `f` gets.
pub open spec fn planned_vertex(keys: Seq<SharedCornerKey>, tiles: Seq<HexCoord>, f: int, i: int) -> int {
    key_index(keys, corner_key_spec(tiles[f], i))
}

/// Every corner key of every tile is in the key list.
pub open spec fn all_corner_keys_present(keys: Seq<SharedCornerKey>, tiles: Seq<HexCoord>) -> bool {
    forall|t: int, i: int|
        0 <= t < tiles.len() && 0 <= i < 6 ==> keys.contains(#[trigger] corner_key_spec(tiles[t], i))
}

/// Half-edge `e` of the planned topology before twins are linked: edge
/// `e % 6` of face `e / 6`, from its corner `e % 6` to the next corner, with
/// its neighbours in the face's six-cycle.
pub open spec fn planned_half_edge(
    keys: Seq<SharedCornerKey>,
    tiles: Seq<HexCoord>,
    e: int,
    twin: Option<HalfEdgeId>,
) -> HalfEdge {
    let f = e / 6;
    let i = e % 6;
    HalfEdge {
        origin: VertexId(planned_vertex(keys, tiles, f, i) as usize),
        destination: VertexId(planned_vertex(keys, tiles, f, (i + 1) % 6) as usize),
        next: HalfEdgeId((f * 6 + (i + 1) % 6) as usize),
        prev: HalfEdgeId((f * 6 + (i + 5) % 6) as usize),
        twin,
        incident_face: FaceId(f as usize),
    }
}

/// `b` runs between the same vertices as `a`, the other way.
pub open spec fn reverses(a: HalfEdge, b: HalfEdge) -> bool {
    b.origin == a.destination && b.destination == a.origin
}

/// `a` and `b` run between the same vertices in the same direction.
pub open spec fn same_direction(a: HalfEdge, b: HalfEdge) -> bool {
    a.origin == b.origin && a.destination == b.destination
}

/// No two planned half-edges run between the same vertices in the same direction.
pub open spec fn planned_directions_distinct(keys: Seq<SharedCornerKey>, tiles: Seq<HexCoord>) -> bool {
    forall|a: int, b: int|
        0 <= a < b < 6 * tiles.len() ==> !same_direction(
            #[trigger] planned_half_edge(keys, tiles, a, None),
            #[trigger] planned_half_edge(keys, tiles, b, None),
        )
}

/// The twin of planned half-edge `e`: the planned half-edge that reverses it,
/// if there is one.
pub open spec fn planned_twin(keys: Seq<SharedCornerKey>, tiles: Seq<HexCoord>, e: int) -> Option<
    HalfEdgeId,
> {
    if exists|j: int|
        0 <= j < 6 * tiles.len() && reverses(
            planned_half_edge(keys, tiles, e, None),
            #[trigger] planned_half_edge(keys, tiles, j, None),
        ) {
        Some(
            HalfEdgeId(
                (choose|j: int|
                    0 <= j < 6 * tiles.len() && reverses(
                        planned_half_edge(keys, tiles, e, None),
                        #[trigger] planned_half_edge(keys, tiles, j, None),
                    )) as usize,
            ),
        )
    } else {
        None
    }
}

/// The face index over the first tiles: each tile's key maps to its position.
pub open spec fn tile_face_map(tiles: Seq<HexCoord>) -> Map<u64, FaceId>
    decreases tiles.len(),
{
    if tiles.len() == 0 {
        Map::empty()
    } else {
        tile_face_map(tiles.drop_last()).insert(
            coord_key(tiles.last()),
            FaceId((tiles.len() - 1) as usize),
        )
    }
}

/// How many half-edges have a twin.
pub open spec fn twinned_count(edges: Seq<HalfEdge>) -> nat
    decreases edges.len(),
{
    if edges.len() == 0 {
        0
    } else {
        twinned_count(edges.drop_last()) + if edges.last().twin is Some {
            1nat
        } else {
            0nat
        }
    }
}

/// `twin` is the half-edge that reverses edge `e`, or `None` when no
/// half-edge does.
pub open spec fn twin_is_reverse(edges: Seq<HalfEdge>, e: int, twin: Option<HalfEdgeId>) -> bool {
    match twin {
        Some(j) => j.0 < edges.len() && reverses(edges[e], edges[j.0 as int]),
        None => forall|j: int| 0 <= j < edges.len() ==> !reverses(edges[e], #[trigger] edges[j]),
    }
}

/// At most every half-edge has a twin.
pub proof fn lemma_twinned_count_bound_pub(edges: Seq<HalfEdge>)
    ensures
        twinned_count(edges) <= edges.len(),
    decreases edges.len(),
{
    if edges.len() > 0 {
        lemma_twinned_count_bound_pub(edges.drop_last());
    }
}

/// The key under which the directed-edge index stores `origin -> destination`.
pub open spec fn direction_key(origin: usize, destination: usize) -> u128 {
    (origin as u128 * 0x1_0000_0000_0000_0000u128 + destination as u128) as u128
}

pub(crate) proof fn lemma_direction_key_injective(a: usize, b: usize, c: usize, d: usize)
    ensures
        direction_key(a, b) == direction_key(c, d) <==> a == c && b == d,
{
    assert(direction_key(a, b) == direction_key(c, d) ==> a == c && b == d) by (nonlinear_arith)
        requires
            (a as int) < 0x1_0000_0000_0000_0000,
            (b as int) < 0x1_0000_0000_0000_0000,
            (c as int) < 0x1_0000_0000_0000_0000,
            (d as int) < 0x1_0000_0000_0000_0000,
            direction_key(a, b) == a * 0x1_0000_0000_0000_0000 + b,
            direction_key(c, d) == c * 0x1_0000_0000_0000_0000 + d,
    ;
}

pub(crate) fn direction_key_of(origin: usize, destination: usize) -> (key: u128)
    ensures
        key == direction_key(origin, destination),
{
    assert((origin as int) * 0x1_0000_0000_0000_0000 + (destination as int)
        < 0x1_0000_0000_0000_0000_0000_0000_0000_0000) by (nonlinear_arith)
        requires
            (origin as int) < 0x1_0000_0000_0000_0000,
            (destination as int) < 0x1_0000_0000_0000_0000,
    ;
    (origin as u128) * 0x1_0000_0000_0000_0000u128 + (destination as u128)
}

pub(crate) proof fn lemma_slot(f: int, i: int)
    requires
        0 <= f,
        0 <= i < 6,
    ensures
        (f * 6 + i) / 6 == f,
        (f * 6 + i) % 6 == i,
{
    assert((f * 6 + i) / 6 == f && (f * 6 + i) % 6 == i) by (nonlinear_arith)
        requires
            0 <= f,
            0 <= i < 6,
    ;
}

/// In a strictly ascending list an element's index is the only one holding it.
proof fn lemma_key_index(keys: Seq<SharedCornerKey>, v: int)
    requires
        strictly_ascending(keys),
        0 <= v < keys.len(),
    ensures
        key_index(keys, keys[v]) == v,
{
    let w = key_index(keys, keys[v]);
    assert(0 <= w < keys.len() && keys[w] == keys[v]);
    if w < v {
        assert(keys[w].ordered_before(keys[v]));
        SharedCornerKey::ordered_before_trichotomy(keys[w], keys[v]);
    } else if v < w {
        assert(keys[v].ordered_before(keys[w]));
        SharedCornerKey::ordered_before_trichotomy(keys[w], keys[v]);
    }
}

/// The vertex id of corner `i` of `coord`, or the corner key when the list
/// lacks it.
fn corner_vertex(keys: &Vec<SharedCornerKey>, coord: HexCoord, i: usize) -> (found: Result<
    VertexId,
    SharedCornerKey,
>)
    requires
        strictly_ascending(keys@),
        coord.has_neighbors(),
        i < 6,
    ensures
        match found {
            Ok(vertex) => {
                &&& keys@.contains(corner_key_spec(coord, i as int))
                &&& vertex.0 < keys@.len()
                &&& vertex.0 == key_index(keys@, corner_key_spec(coord, i as int))
            },
            Err(key) => key == corner_key_spec(coord, i as int) && !keys@.contains(key),
        },
{
    let key = canonical_corner_key(coord, i);
    match search_sorted(keys, &key) {
        Ok(index) => {
            proof {
                lemma_key_index(keys@, index as int);
            }
            Ok(VertexId(index))
        },
        Err(_) => Err(key),
    }
}

/// The six corner vertex ids of a tile, or its first corner key that the
/// list lacks.
/// The key of the first corner of `coord` from corner `i` on that is not
/// among `keys`.
pub open spec fn missing_corner_key(keys: Seq<SharedCornerKey>, coord: HexCoord, i: int) -> Option<SharedCornerKey>
    decreases 6 - i,
{
    if i >= 6 || i < 0 {
        None
    } else if !keys.contains(corner_key_spec(coord, i)) {
        Some(corner_key_spec(coord, i))
    } else {
        missing_corner_key(keys, coord, i + 1)
    }
}

fn face_corner_vertices(keys: &Vec<SharedCornerKey>, coord: HexCoord) -> (found: Result<
    [VertexId; 6],
    SharedCornerKey,
>)
    requires
        strictly_ascending(keys@),
        coord.has_neighbors(),
    ensures
        match found {
            Ok(corners) => forall|i: int|
                0 <= i < 6 ==> {
                    &&& keys@.contains(#[trigger] corner_key_spec(coord, i))
                    &&& corners[i].0 < keys@.len()
                    &&& corners[i].0 == key_index(keys@, corner_key_spec(coord, i))
                },
            Err(key) => !keys@.contains(key) && exists|i: int|
                0 <= i < 6 && key == corner_key_spec(coord, i),
        },
        match found {
            Ok(_) => missing_corner_key(keys@, coord, 0) is None,
            Err(key) => missing_corner_key(keys@, coord, 0) == Some(key),
        },
{
    proof {
        reveal_with_fuel(missing_corner_key, 7);
    }
    let v0 = corner_vertex(keys, coord, 0)?;
    let v1 = corner_vertex(keys, coord, 1)?;
    let v2 = corner_vertex(keys, coord, 2)?;
    let v3 = corner_vertex(keys, coord, 3)?;
    let v4 = corner_vertex(keys, coord, 4)?;
    let v5 = corner_vertex(keys, coord, 5)?;
    let corners = [v0, v1, v2, v3, v4, v5];
    assert forall|i: int| 0 <= i < 6 implies {
        &&& keys@.contains(#[trigger] corner_key_spec(coord, i))
        &&& corners[i].0 < keys@.len()
        &&& corners[i].0 == key_index(keys@, corner_key_spec(coord, i))
    } by {
        if i == 0 {
        } else if i == 1 {
        } else if i == 2 {
        } else if i == 3 {
        } else if i == 4 {
        } else {
        }
    }
    Ok(corners)
}

/// One vertex per key, at the matching position.
fn build_vertices(keys: &Vec<SharedCornerKey>, positions: &Vec<PositionBits>) -> (vertices: Vec<
    MapVertex,
>)
    requires
        keys@.len() == positions@.len(),
    ensures
        vertices@.len() == keys@.len(),
        forall|v: int|
            0 <= v < keys@.len() ==> #[trigger] vertices@[v] == (MapVertex {
                position: positions@[v],
                canonical_key: keys@[v],
            }),
{
    let mut vertices: Vec<MapVertex> = Vec::with_capacity(keys.len());
    let mut v: usize = 0;
    while v < keys.len()
        invariant
            v <= keys@.len(),
            keys@.len() == positions@.len(),
            vertices@.len() == v,
            forall|u: int|
                0 <= u < v ==> #[trigger] vertices@[u] == (MapVertex {
                    position: positions@[u],
                    canonical_key: keys@[u],
                }),
        decreases keys@.len() - v,
    {
        vertices.push(MapVertex { position: positions[v], canonical_key: keys[v] });
        v += 1;
    }
    vertices
}

/// Sets each half-edge's twin to the half-edge that reverses it, found in the
/// directed-edge index, and counts paired and border half-edges.
fn link_twins(edges: &Vec<HalfEdge>, directed: &HashMap<u128, usize>) -> (linked: (
    Vec<HalfEdge>,
    usize,
    usize,
))
    requires
        forall|j: int|
            0 <= j < edges@.len() ==> {
                &&& directed@.contains_key(
                    #[trigger] direction_key(edges@[j].origin.0, edges@[j].destination.0),
                )
                &&& directed@[direction_key(edges@[j].origin.0, edges@[j].destination.0)] == j
            },
        forall|k: u128|
            #[trigger] directed@.contains_key(k) ==> exists|j: int|
                0 <= j < edges@.len() && k == direction_key(
                    edges@[j].origin.0,
                    edges@[j].destination.0,
                ),
    ensures
        linked.0@.len() == edges@.len(),
        forall|e: int|
            0 <= e < edges@.len() ==> {
                &&& (#[trigger] linked.0@[e]) == (HalfEdge { twin: linked.0@[e].twin, ..edges@[e] })
                &&& twin_is_reverse(edges@, e, linked.0@[e].twin)
            },
        linked.1 == twinned_count(linked.0@),
        linked.1 + linked.2 == edges@.len(),
{
    let mut linked: Vec<HalfEdge> = Vec::with_capacity(edges.len());
    let mut paired: usize = 0;
    let mut border: usize = 0;
    let mut e: usize = 0;
    while e < edges.len()
        invariant
            e <= edges@.len(),
            linked@.len() == e,
            paired == twinned_count(linked@),
            paired + border == e,
            forall|j: int|
                0 <= j < edges@.len() ==> {
                    &&& directed@.contains_key(
                        #[trigger] direction_key(edges@[j].origin.0, edges@[j].destination.0),
                    )
                    &&& directed@[direction_key(edges@[j].origin.0, edges@[j].destination.0)] == j
                },
            forall|k: u128|
                #[trigger] directed@.contains_key(k) ==> exists|j: int|
                    0 <= j < edges@.len() && k == direction_key(
                        edges@[j].origin.0,
                        edges@[j].destination.0,
                    ),
            forall|u: int|
                0 <= u < e ==> {
                    &&& (#[trigger] linked@[u]) == (HalfEdge { twin: linked@[u].twin, ..edges@[u] })
                    &&& twin_is_reverse(edges@, u, linked@[u].twin)
                },
        decreases edges@.len() - e,
    {
        let edge = edges[e];
        let reverse_key = direction_key_of(edge.destination.0, edge.origin.0);
        let twin = match directed.get(&reverse_key) {
            Some(j) => {
                proof {
                    let w = choose|w: int|
                        0 <= w < edges@.len() && reverse_key == direction_key(
                            edges@[w].origin.0,
                            edges@[w].destination.0,
                        );
                    lemma_direction_key_injective(
                        edge.destination.0,
                        edge.origin.0,
                        edges@[w].origin.0,
                        edges@[w].destination.0,
                    );
                }
                Some(HalfEdgeId(*j))
            },
            None => {
                proof {
                    assert forall|j: int| 0 <= j < edges@.len() implies !reverses(
                        edges@[e as int],
                        #[trigger] edges@[j],
                    ) by {
                        if reverses(edges@[e as int], edges@[j]) {
                            assert(direction_key(edges@[j].origin.0, edges@[j].destination.0)
                                == reverse_key);
                        }
                    }
                }
                None
            },
        };
        let ghost before = linked@;
        linked.push(HalfEdge { twin, ..edge });
        proof {
            assert(linked@.drop_last() =~= before);
        }
        if twin.is_some() {
            paired += 1;
        } else {
            border += 1;
        }
        e += 1;
    }
    (linked, paired, border)
}

/// The first `f` faces are as planned, and every corner key of their tiles is
/// in the key list.
spec fn faces_planned(keys: Seq<SharedCornerKey>, tiles: Seq<HexCoord>, f: int, faces: Seq<HexFace>) -> bool {
    &&& faces.len() == f
    &&& forall|t: int, i: int|
        0 <= t < f && 0 <= i < 6 ==> keys.contains(#[trigger] corner_key_spec(tiles[t], i))
    &&& forall|t: int|
        0 <= t < f ==> {
            &&& (#[trigger] faces[t]).hex == tiles[t]
            &&& faces[t].boundary == HalfEdgeId((6 * t) as usize)
            &&& forall|i: int|
                0 <= i < 6 ==> (#[trigger] faces[t].vertices[i]) == VertexId(
                    planned_vertex(keys, tiles, t, i) as usize,
                )
        }
}

/// The half-edges so far are as planned, no two share a direction, and the
/// directed-edge index maps exactly their directions to their ids.
spec fn edges_planned(
    keys: Seq<SharedCornerKey>,
    tiles: Seq<HexCoord>,
    edges: Seq<HalfEdge>,
    directed: Map<u128, usize>,
) -> bool {
    &&& forall|j: int| 0 <= j < edges.len() ==> #[trigger] edges[j] == planned_half_edge(keys, tiles, j, None)
    &&& forall|a: int, b: int|
        0 <= a < b < edges.len() ==> !same_direction(#[trigger] edges[a], #[trigger] edges[b])
    &&& forall|j: int|
        0 <= j < edges.len() ==> {
            &&& directed.contains_key(
                #[trigger] direction_key(edges[j].origin.0, edges[j].destination.0),
            )
            &&& directed[direction_key(edges[j].origin.0, edges[j].destination.0)] == j
        }
    &&& forall|k: u128|
        #[trigger] directed.contains_key(k) ==> exists|j: int|
            0 <= j < edges.len() && k == direction_key(edges[j].origin.0, edges[j].destination.0)
}

/// With distinct directions, the twin found by reversal is the planned twin.
proof fn lemma_twin_is_planned(
    keys: Seq<SharedCornerKey>,
    tiles: Seq<HexCoord>,
    edges: Seq<HalfEdge>,
    e: int,
    twin: Option<HalfEdgeId>,
)
    requires
        edges.len() == 6 * tiles.len(),
        0 <= e < edges.len(),
        forall|j: int| 0 <= j < edges.len() ==> #[trigger] edges[j] == planned_half_edge(keys, tiles, j, None),
        forall|a: int, b: int|
            0 <= a < b < edges.len() ==> !same_direction(#[trigger] edges[a], #[trigger] edges[b]),
        twin_is_reverse(edges, e, twin),
    ensures
        twin == planned_twin(keys, tiles, e),
{
    let planned_e = planned_half_edge(keys, tiles, e, None);
    assert(edges[e] == planned_e);
    match twin {
        Some(t) => {
            let j = t.0 as int;
            assert(edges[j] == planned_half_edge(keys, tiles, j, None));
            assert(reverses(planned_e, planned_half_edge(keys, tiles, j, None)));
            let c = choose|c: int|
                0 <= c < 6 * tiles.len() && reverses(
                    planned_e,
                    #[trigger] planned_half_edge(keys, tiles, c, None),
                );
            assert(edges[c] == planned_half_edge(keys, tiles, c, None));
            if c < j {
                assert(same_direction(edges[c], edges[j]));
            } else if j < c {
                assert(same_direction(edges[j], edges[c]));
            }
        },
        None => {
            assert forall|c: int| 0 <= c < 6 * tiles.len() implies !reverses(
                planned_e,
                #[trigger] planned_half_edge(keys, tiles, c, None),
            ) by {
                assert(edges[c] == planned_half_edge(keys, tiles, c, None));
            }
        },
    }
}

/// Records one more planned half-edge unless its direction is already taken;
/// returns whether it was added.
fn add_planned_edge(
    Ghost(ks): Ghost<Seq<SharedCornerKey>>,
    Ghost(ts): Ghost<Seq<HexCoord>>,
    edges: &mut Vec<HalfEdge>,
    directed: &mut HashMap<u128, usize>,
    edge: HalfEdge,
) -> (added: bool)
    requires
        edges_planned(ks, ts, old(edges)@, old(directed)@),
        edge == planned_half_edge(ks, ts, old(edges)@.len() as int, None),
    ensures
        added ==> final(edges)@ == old(edges)@.push(edge) && edges_planned(
            ks,
            ts,
            final(edges)@,
            final(directed)@,
        ),
        !added ==> exists|j: int|
            0 <= j < old(edges)@.len() && same_direction(
                #[trigger] planned_half_edge(ks, ts, j, None),
                edge,
            ),
{
    let e = edges.len();
    let key = direction_key_of(edge.origin.0, edge.destination.0);
    let ghost old_directed = directed@;
    let ghost old_edges = edges@;
    if directed.insert(key, e).is_some() {
        proof {
            let j = choose|j: int|
                0 <= j < old_edges.len() && key == direction_key(
                    old_edges[j].origin.0,
                    old_edges[j].destination.0,
                );
            lemma_direction_key_injective(
                edge.origin.0,
                edge.destination.0,
                old_edges[j].origin.0,
                old_edges[j].destination.0,
            );
            assert(old_edges[j] == planned_half_edge(ks, ts, j, None));
        }
        return false;
    }
    edges.push(edge);
    proof {
        assert forall|a: int, b: int|
            0 <= a < b < edges@.len() implies !same_direction(
            #[trigger] edges@[a],
            #[trigger] edges@[b],
        ) by {
            if b == e && same_direction(edges@[a], edges@[b]) {
                assert(old_directed.contains_key(
                    direction_key(old_edges[a].origin.0, old_edges[a].destination.0),
                ));
            }
        }
        assert forall|k: u128| #[trigger] directed@.contains_key(k) implies exists|j: int|
            0 <= j < edges@.len() && k == direction_key(
                edges@[j].origin.0,
                edges@[j].destination.0,
            ) by {
            if k != key {
                let j = choose|j: int|
                    0 <= j < old_edges.len() && k == direction_key(
                        old_edges[j].origin.0,
                        old_edges[j].destination.0,
                    );
                assert(edges@[j] == old_edges[j]);
            } else {
                assert(edges@[e as int] == edge);
            }
        }
        assert forall|j: int| 0 <= j < edges@.len() implies {
            &&& directed@.contains_key(
                #[trigger] direction_key(edges@[j].origin.0, edges@[j].destination.0),
            )
            &&& directed@[direction_key(edges@[j].origin.0, edges@[j].destination.0)] == j
        } by {
            if j < e {
                assert(edges@[j] == old_edges[j]);
                if direction_key(old_edges[j].origin.0, old_edges[j].destination.0) == key {
                    assert(old_directed.contains_key(key));
                }
            }
        }
    }
    true
}

/// Adds the six planned half-edges of face `f`; on a taken direction returns
/// the two vertices of the first such half-edge.
/// Planned half-edge `e` runs between the same corners, the same way, as an
/// earlier one.
pub open spec fn repeats_direction(keys: Seq<SharedCornerKey>, tiles: Seq<HexCoord>, e: int) -> bool {
    exists|j: int|
        0 <= j < e && same_direction(#[trigger] planned_half_edge(keys, tiles, j, None), planned_half_edge(keys, tiles, e, None))
}

/// The endpoints of the first half-edge of face `f`, from side `i` on, that
/// repeats the direction of an earlier planned half-edge.
pub open spec fn repeated_direction(keys: Seq<SharedCornerKey>, tiles: Seq<HexCoord>, f: int, i: int) -> Option<
    (VertexId, VertexId),
>
    decreases 6 - i,
{
    if i >= 6 || i < 0 {
        None
    } else if repeats_direction(keys, tiles, 6 * f + i) {
        let edge = planned_half_edge(keys, tiles, 6 * f + i, None);
        Some((edge.origin, edge.destination))
    } else {
        repeated_direction(keys, tiles, f, i + 1)
    }
}

/// The fault of assembling tile `f`: a corner key missing, else a half-edge
/// repeating an earlier direction.
pub open spec fn tile_assembly_fault(keys: Seq<SharedCornerKey>, tiles: Seq<HexCoord>, f: int) -> Option<
    HexFaceTopologyError,
> {
    match missing_corner_key(keys, tiles[f], 0) {
        Some(key) => Some(HexFaceTopologyError::CornerKeyMismatch(key)),
        None => match repeated_direction(keys, tiles, f, 0) {
            Some((origin, destination)) => Some(
                HexFaceTopologyError::ValidationFailed(TopologyViolation::DuplicateDirectedEdge { origin, destination }),
            ),
            None => None,
        },
    }
}

/// The first fault of assembling the tiles from tile `f` on.
pub open spec fn assembly_fault_from(keys: Seq<SharedCornerKey>, tiles: Seq<HexCoord>, f: int) -> Option<
    HexFaceTopologyError,
>
    decreases tiles.len() - f,
{
    if f >= tiles.len() || f < 0 {
        None
    } else {
        match tile_assembly_fault(keys, tiles, f) {
            Some(error) => Some(error),
            None => assembly_fault_from(keys, tiles, f + 1),
        }
    }
}

/// The first fault of assembling `tiles` over `keys`: no tile at all, else
/// the first tile that fails.
pub open spec fn assembly_fault(keys: Seq<SharedCornerKey>, tiles: Seq<HexCoord>) -> Option<HexFaceTopologyError> {
    if tiles.len() == 0 {
        Some(HexFaceTopologyError::EmptyMap)
    } else {
        assembly_fault_from(keys, tiles, 0)
    }
}

fn add_face_edges(
    Ghost(ks): Ghost<Seq<SharedCornerKey>>,
    Ghost(ts): Ghost<Seq<HexCoord>>,
    f: usize,
    corners: [VertexId; 6],
    edges: &mut Vec<HalfEdge>,
    directed: &mut HashMap<u128, usize>,
) -> (added: Result<(), (VertexId, VertexId)>)
    requires
        f < ts.len(),
        ts.len() <= usize::MAX / 6,
        old(edges)@.len() == 6 * f,
        edges_planned(ks, ts, old(edges)@, old(directed)@),
        forall|c: int|
            0 <= c < 6 ==> (#[trigger] corners[c]).0 == key_index(ks, corner_key_spec(ts[f as int], c)),
    ensures
        added is Ok ==> final(edges)@.len() == 6 * (f + 1) && edges_planned(
            ks,
            ts,
            final(edges)@,
            final(directed)@,
        ),
        added is Err ==> exists|a: int, b: int|
            0 <= a < b < 6 * (f + 1) && same_direction(
                #[trigger] planned_half_edge(ks, ts, a, None),
                #[trigger] planned_half_edge(ks, ts, b, None),
            ),
        match added {
            Ok(()) => repeated_direction(ks, ts, f as int, 0) is None,
            Err((origin, destination)) => repeated_direction(ks, ts, f as int, 0) == Some((origin, destination)),
        },
{
    let base = edges.len();
    let mut i: usize = 0;
    while i < 6
        invariant
            f < ts.len(),
            i <= 6,
            base == 6 * f,
            ts.len() <= usize::MAX / 6,
            forall|c: int|
                0 <= c < 6 ==> (#[trigger] corners[c]).0 == key_index(ks, corner_key_spec(ts[f as int], c)),
            edges@.len() == base + i,
            edges_planned(ks, ts, edges@, directed@),
            repeated_direction(ks, ts, f as int, 0) == repeated_direction(ks, ts, f as int, i as int),
        decreases 6 - i,
    {
        let e = base + i;
        let origin = corners[i];
        let destination = corners[(i + 1) % 6];
        proof {
            lemma_slot(f as int, i as int);
        }
        let edge = HalfEdge {
            origin,
            destination,
            next: HalfEdgeId(base + (i + 1) % 6),
            prev: HalfEdgeId(base + (i + 5) % 6),
            twin: None,
            incident_face: FaceId(f),
        };
        assert(edge == planned_half_edge(ks, ts, e as int, None));
        if !add_planned_edge(Ghost(ks), Ghost(ts), edges, directed, edge) {
            assert(repeats_direction(ks, ts, 6 * f + i));
            return Err((origin, destination));
        }
        proof {
            assert forall|j: int| 0 <= j < e implies !same_direction(
                #[trigger] planned_half_edge(ks, ts, j, None),
                planned_half_edge(ks, ts, e as int, None),
            ) by {
                assert(edges@[j] == planned_half_edge(ks, ts, j, None));
                assert(edges@[e as int] == planned_half_edge(ks, ts, e as int, None));
            }
            assert(!repeats_direction(ks, ts, 6 * f + i));
        }
        i += 1;
    }
    Ok(())
}

/// Builds the topology of the layout's tiles over the given ascending corner
/// keys, vertex `v` standing at `positions[v]`.
///
/// Face `f` is the face of the `f`-th tile in ascending `(q, r)` order; its
/// half-edges are `6f .. 6f + 6`, running from corner `i` to corner `i + 1`;
/// each half-edge's twin is the half-edge that runs the other way between the
/// same vertices, when there is one.
pub fn assemble_topology(
    layout: &MapLayout,
    keys: &Vec<SharedCornerKey>,
    positions: &Vec<PositionBits>,
) -> (result: Result<HexFaceTopology, HexFaceTopologyError>)
    requires
        strictly_ascending(keys@),
        keys@.len() == positions@.len(),
        tiles_have_neighbors(layout.tile_seq()),
        layout.tile_seq().len() <= usize::MAX / 6,
    ensures
        (result == Err::<HexFaceTopology, HexFaceTopologyError>(HexFaceTopologyError::EmptyMap))
            <==> layout.tile_seq().len() == 0,
        result is Ok <==> {
            &&& layout.tile_seq().len() > 0
            &&& all_corner_keys_present(keys@, layout.tile_seq())
            &&& planned_directions_distinct(keys@, layout.tile_seq())
        },
        match result {
            Ok(_) => assembly_fault(keys@, layout.tile_seq()) is None,
            Err(error) => assembly_fault(keys@, layout.tile_seq()) == Some(error),
        },
        match result {
            Ok(topology) => assembled(layout.tile_seq(), keys@, positions@, topology),
            Err(HexFaceTopologyError::EmptyMap) => true,
            Err(HexFaceTopologyError::CornerKeyMismatch(key)) => !keys@.contains(key)
                && is_tile_corner_key(layout.tile_seq(), key),
            Err(HexFaceTopologyError::ValidationFailed(TopologyViolation::DuplicateDirectedEdge { .. })) =>
                all_corner_keys_present(keys@, layout.tile_seq()) ==> !planned_directions_distinct(
                keys@,
                layout.tile_seq(),
            ),
            Err(_) => false,
        },
{
    let tiles = layout.tiles();
    if tiles.len() == 0 {
        return Err(HexFaceTopologyError::EmptyMap);
    }
    let ghost ks = keys@;
    let ghost ts = tiles@;
    let vertices = build_vertices(keys, positions);
    let mut faces: Vec<HexFace> = Vec::with_capacity(tiles.len());
    let mut edges: Vec<HalfEdge> = Vec::with_capacity(tiles.len() * 6);
    let mut hex_to_face: HashMap<u64, FaceId> = HashMap::new();
    let mut directed: HashMap<u128, usize> = HashMap::new();
    let mut f: usize = 0;
    while f < tiles.len()
        invariant
            f <= ts.len(),
            ts == tiles@,
            ts == layout.tile_seq(),
            ks == keys@,
            strictly_ascending(ks),
            tiles_have_neighbors(ts),
            ts.len() <= usize::MAX / 6,
            faces_planned(ks, ts, f as int, faces@),
            edges@.len() == 6 * f,
            edges_planned(ks, ts, edges@, directed@),
            hex_to_face@ == tile_face_map(ts.take(f as int)),
            assembly_fault_from(ks, ts, 0) == assembly_fault_from(ks, ts, f as int),
        decreases ts.len() - f,
    {
        let coord = tiles[f];
        let corners = match face_corner_vertices(keys, coord) {
            Ok(corners) => corners,
            Err(key) => {
                return Err(HexFaceTopologyError::CornerKeyMismatch(key));
            },
        };
        let base = edges.len();
        match add_face_edges(Ghost(ks), Ghost(ts), f, corners, &mut edges, &mut directed) {
            Ok(()) => {},
            Err((origin, destination)) => {
                return Err(
                    HexFaceTopologyError::ValidationFailed(
                        TopologyViolation::DuplicateDirectedEdge { origin, destination },
                    ),
                );
            },
        }
        let ghost old_faces = faces@;
        faces.push(HexFace { hex: coord, boundary: HalfEdgeId(base), vertices: corners });
        hex_to_face.insert(hex_key(coord), FaceId(f));
        proof {
            assert(ts.take(f as int + 1).drop_last() =~= ts.take(f as int));
            assert forall|t: int, c: int|
                0 <= t < f + 1 && 0 <= c < 6 implies ks.contains(
                #[trigger] corner_key_spec(ts[t], c),
            ) by {
                if t < f {
                    assert(faces_planned(ks, ts, f as int, old_faces));
                }
            }
            assert forall|t: int| 0 <= t < f + 1 implies {
                &&& (#[trigger] faces@[t]).hex == ts[t]
                &&& faces@[t].boundary == HalfEdgeId((6 * t) as usize)
                &&& forall|c: int|
                    0 <= c < 6 ==> (#[trigger] faces@[t].vertices[c]) == VertexId(
                        planned_vertex(ks, ts, t, c) as usize,
                    )
            } by {
                if t < f {
                    assert(faces@[t] == old_faces[t]);
                }
            }
        }
        f += 1;
    }
    proof {
        assert(ts.take(f as int) =~= ts);
        assert forall|a: int, b: int| 0 <= a < b < 6 * ts.len() implies !same_direction(
            #[trigger] planned_half_edge(ks, ts, a, None),
            #[trigger] planned_half_edge(ks, ts, b, None),
        ) by {
            assert(edges@[a] == planned_half_edge(ks, ts, a, None));
            assert(edges@[b] == planned_half_edge(ks, ts, b, None));
        }
    }
    let (half_edges, paired, border) = link_twins(&edges, &directed);
    proof {
        assert forall|e: int| 0 <= e < 6 * ts.len() implies #[trigger] half_edges@[e]
            == planned_half_edge(ks, ts, e, planned_twin(ks, ts, e)) by {
            lemma_twin_is_planned(ks, ts, edges@, e, half_edges@[e].twin);
        }
    }
    let stats = TopologyStats {
        reduced_displacement_fallbacks: 0,
        regular_position_fallbacks: 0,
        reduction_rounds: 0,
        reduced_vertices: 0,
        half_edge_count: half_edges.len(),
        paired_edge_count: paired / 2,
        border_edge_count: border,
    };
    Ok(HexFaceTopology { vertices, half_edges, faces, hex_to_face, stats })
}

/// `topology` is the topology assembled over `keys` and `positions` for the
/// ascending tile sequence `tiles`.
pub open spec fn assembled(
    tiles: Seq<HexCoord>,
    keys: Seq<SharedCornerKey>,
    positions: Seq<PositionBits>,
    topology: HexFaceTopology,
) -> bool {
    &&& all_corner_keys_present(keys, tiles)
    &&& planned_directions_distinct(keys, tiles)
    &&& topology.vertices@.len() == keys.len()
    &&& forall|v: int|
        0 <= v < keys.len() ==> #[trigger] topology.vertices@[v] == (MapVertex {
            position: positions[v],
            canonical_key: keys[v],
        })
    &&& topology.faces@.len() == tiles.len()
    &&& forall|t: int|
        0 <= t < tiles.len() ==> {
            &&& (#[trigger] topology.faces@[t]).hex == tiles[t]
            &&& topology.faces@[t].boundary == HalfEdgeId((6 * t) as usize)
            &&& forall|i: int|
                0 <= i < 6 ==> (#[trigger] topology.faces@[t].vertices[i]) == VertexId(
                    planned_vertex(keys, tiles, t, i) as usize,
                )
        }
    &&& topology.half_edges@.len() == 6 * tiles.len()
    &&& forall|e: int|
        0 <= e < 6 * tiles.len() ==> #[trigger] topology.half_edges@[e] == planned_half_edge(
            keys,
            tiles,
            e,
            planned_twin(keys, tiles, e),
        )
    &&& topology.hex_to_face@ == tile_face_map(tiles)
    &&& topology.stats == (TopologyStats {
        reduced_displacement_fallbacks: 0,
        regular_position_fallbacks: 0,
        reduction_rounds: 0,
        reduced_vertices: 0,
        half_edge_count: (6 * tiles.len()) as usize,
        paired_edge_count: (twinned_count(topology.half_edges@) / 2) as usize,
        border_edge_count: (6 * tiles.len() - twinned_count(topology.half_edges@)) as usize,
    })
}

} // verus!
