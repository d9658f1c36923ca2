//! Laws relating map layouts, topology assembly and fingerprints.
use vstd::prelude::*;

use crate::fingerprint::{connectivity_bytes, geometry_bytes};
use crate::map_layout::MapLayout;
use crate::sorted_set::{lemma_ascending_determined_by_set, strictly_ascending, StrictOrder};
use crate::hex_coord::HexCoord;
use crate::topology::{
    all_corner_keys_present, assembled, key_index, lemma_direction_key_injective,
    planned_half_edge, planned_twin, planned_vertex, reverses, same_direction, tile_face_map,
    tiles_have_neighbors, twinned_count, HexFaceTopology,
};
use crate::hex_coord::{coord_key, lemma_coord_key_injective};
use crate::types::{FaceId, HalfEdge, HalfEdgeId, PositionBits, SharedCornerKey};
use crate::validation::{
    border_edge_ok, border_edges_ok, complete_topology_valid, corners_ok, counts_ok,
    edge_reference_fault, edge_references_ok, face_mapped, face_ok, face_walk, face_walk_ok,
    faces_ok, linked_to, mapped_face, mapping_ok, neighbor_pair_ok, neighbor_twins_ok,
    next_cycle_ok, next_link_ok, next_walk, on_some_cycle, prev_cycle_ok, prev_link_ok, prev_walk,
    reversed_in_walk, reverses_edge, scan_neighbors, stats_ok, tile_twins_ok, twin_elsewhere,
    twin_fault, twin_on, twin_symmetric, twins_ok, undirected_count, undirected_key,
};
use crate::corner_key::{
    corner_cells, corner_key_spec, corner_neighbor_directions, lemma_corner_key_spec,
    lemma_corner_keys_distinct, lemma_side_shared_with_neighbor,
};
use crate::topology::HexFaceTopologyError;
use crate::adjacency_laws::law_assembled_adjacency_is_exact;

verus! {

/// A layout's tile order depends on its set of tiles alone, not on the order
/// in which they were inserted.
#[verifier::spinoff_prover]
pub proof fn law_layout_order_is_canonical(a: MapLayout, b: MapLayout)
    requires
        strictly_ascending(a.tile_seq()),
        strictly_ascending(b.tile_seq()),
        a.tile_seq().to_set() == b.tile_seq().to_set(),
    ensures
        a.tile_seq() == b.tile_seq(),
{
    lemma_ascending_determined_by_set(a.tile_seq(), b.tile_seq());
}

/// Vertex positions do not influence connectivity: two topologies assembled
/// over the same tiles and keys have the same faces, half-edges, twins,
/// tile-to-face index and counters, whatever the positions.
#[verifier::spinoff_prover]
pub proof fn law_connectivity_independent_of_positions(
    tiles: Seq<HexCoord>,
    keys: Seq<SharedCornerKey>,
    first_positions: Seq<PositionBits>,
    second_positions: Seq<PositionBits>,
    first: HexFaceTopology,
    second: HexFaceTopology,
)
    requires
        assembled(tiles, keys, first_positions, first),
        assembled(tiles, keys, second_positions, second),
    ensures
        first.faces@ == second.faces@,
        first.half_edges@ == second.half_edges@,
        first.hex_to_face@ == second.hex_to_face@,
        first.stats == second.stats,
        first.vertices@.len() == second.vertices@.len(),
{
    assert forall|t: int| 0 <= t < first.faces@.len() implies first.faces@[t] == second.faces@[t] by {
        assert(first.faces@[t].vertices =~= second.faces@[t].vertices);
    }
    assert(first.faces@ =~= second.faces@);
    assert(first.half_edges@ =~= second.half_edges@);
}

/// Two topologies assembled over the same tiles and keys hash to the same
/// connectivity bytes for any map size and seed.
#[verifier::spinoff_prover]
pub proof fn law_connectivity_fingerprint_independent_of_positions(
    tiles: Seq<HexCoord>,
    keys: Seq<SharedCornerKey>,
    first_positions: Seq<PositionBits>,
    second_positions: Seq<PositionBits>,
    first: HexFaceTopology,
    second: HexFaceTopology,
    width: u32,
    height: u32,
    seed: u32,
)
    requires
        assembled(tiles, keys, first_positions, first),
        assembled(tiles, keys, second_positions, second),
    ensures
        connectivity_bytes(width, height, seed, first.faces@, first.half_edges@) == connectivity_bytes(
            width,
            height,
            seed,
            second.faces@,
            second.half_edges@,
        ),
{
    law_connectivity_independent_of_positions(
        tiles,
        keys,
        first_positions,
        second_positions,
        first,
        second,
    );
}

/// Equal positions give equal geometry bytes: an assembled topology's
/// geometry fingerprint input is fixed by the keys and positions.
#[verifier::spinoff_prover]
pub proof fn law_geometry_bytes_follow_positions(
    tiles: Seq<HexCoord>,
    keys: Seq<SharedCornerKey>,
    positions: Seq<PositionBits>,
    first: HexFaceTopology,
    second: HexFaceTopology,
    width: u32,
    height: u32,
    seed: u32,
)
    requires
        assembled(tiles, keys, positions, first),
        assembled(tiles, keys, positions, second),
    ensures
        geometry_bytes(width, height, seed, first.vertices@) == geometry_bytes(
            width,
            height,
            seed,
            second.vertices@,
        ),
{
    assert(first.vertices@ =~= second.vertices@);
}

/// Twin links of an assembled topology are symmetric and reversed: the twin
/// of a half-edge's twin is the half-edge itself.
#[verifier::spinoff_prover]
pub proof fn law_assembled_twins_are_symmetric(
    tiles: Seq<HexCoord>,
    keys: Seq<SharedCornerKey>,
    positions: Seq<PositionBits>,
    topology: HexFaceTopology,
    e: int,
)
    requires
        assembled(tiles, keys, positions, topology),
        0 <= e < topology.half_edges@.len(),
        topology.half_edges@[e].twin is Some,
    ensures
        ({
            let j = topology.half_edges@[e].twin.unwrap().0 as int;
            &&& 0 <= j < topology.half_edges@.len()
            &&& reverses(topology.half_edges@[e], topology.half_edges@[j])
            &&& topology.half_edges@[j].twin == Some(HalfEdgeId(e as usize))
        }),
{
    let edges = topology.half_edges@;
    assert(edges.len() == topology.half_edges.len());
    assert(edges[e] == planned_half_edge(keys, tiles, e, planned_twin(keys, tiles, e)));
    let j = edges[e].twin.unwrap().0 as int;
    assert(0 <= j < 6 * tiles.len() && reverses(
        planned_half_edge(keys, tiles, e, None),
        planned_half_edge(keys, tiles, j, None),
    ));
    assert(edges[j] == planned_half_edge(keys, tiles, j, planned_twin(keys, tiles, j)));
    assert(reverses(planned_half_edge(keys, tiles, j, None), planned_half_edge(keys, tiles, e, None)));
    let c = planned_twin(keys, tiles, j).unwrap().0 as int;
    assert(0 <= c < 6 * tiles.len() && reverses(
        planned_half_edge(keys, tiles, j, None),
        planned_half_edge(keys, tiles, c, None),
    ));
    if c < e {
        assert(same_direction(planned_half_edge(keys, tiles, c, None), planned_half_edge(keys, tiles, e, None)));
    } else if e < c {
        assert(same_direction(planned_half_edge(keys, tiles, e, None), planned_half_edge(keys, tiles, c, None)));
    }
}

/// The face index of strictly ascending tiles maps each tile's key to its
/// position, holds nothing else, and has one entry per tile.
#[verifier::spinoff_prover]
pub(crate) proof fn lemma_tile_face_map(tiles: Seq<HexCoord>)
    requires
        strictly_ascending(tiles),
    ensures
        forall|f: int|
            0 <= f < tiles.len() ==> #[trigger] tile_face_map(tiles).contains_key(coord_key(tiles[f]))
                && tile_face_map(tiles)[coord_key(tiles[f])] == FaceId(f as usize),
        forall|k: u64|
            #[trigger] tile_face_map(tiles).contains_key(k) ==> exists|f: int|
                0 <= f < tiles.len() && k == coord_key(tiles[f]),
        tile_face_map(tiles).dom().finite(),
        tile_face_map(tiles).len() == tiles.len(),
    decreases tiles.len(),
{
    if tiles.len() > 0 {
        let shorter = tiles.drop_last();
        assert(strictly_ascending(shorter));
        lemma_tile_face_map(shorter);
        let last = tiles.last();
        assert(tile_face_map(tiles) == tile_face_map(shorter).insert(
            coord_key(last),
            FaceId((tiles.len() - 1) as usize),
        ));
        assert(!tile_face_map(shorter).contains_key(coord_key(last))) by {
            if tile_face_map(shorter).contains_key(coord_key(last)) {
                let f = choose|f: int| 0 <= f < shorter.len() && coord_key(last) == coord_key(shorter[f]);
                lemma_coord_key_injective(last, shorter[f]);
                assert(tiles[f].ordered_before(tiles[tiles.len() - 1]));
                HexCoord::ordered_before_trichotomy(last, last);
            }
        }
        assert forall|f: int| 0 <= f < tiles.len() implies #[trigger] tile_face_map(tiles).contains_key(coord_key(tiles[f]))
            && tile_face_map(tiles)[coord_key(tiles[f])] == FaceId(f as usize) by {
            if f < tiles.len() - 1 {
                assert(shorter[f] == tiles[f]);
                assert(tile_face_map(shorter).contains_key(coord_key(shorter[f])));
                lemma_coord_key_injective(last, tiles[f]);
                assert(tiles[f].ordered_before(tiles[tiles.len() - 1]));
                HexCoord::ordered_before_trichotomy(tiles[f], last);
            }
        }
        assert forall|k: u64| #[trigger] tile_face_map(tiles).contains_key(k) implies exists|f: int|
            0 <= f < tiles.len() && k == coord_key(tiles[f]) by {
            if k != coord_key(last) {
                let f = choose|f: int| 0 <= f < shorter.len() && k == coord_key(shorter[f]);
                assert(tiles[f] == shorter[f]);
            }
        }
        assert(tile_face_map(tiles).dom() == tile_face_map(shorter).dom().insert(coord_key(last)));
    } else {
        assert(tile_face_map(tiles).dom() =~= Set::<u64>::empty());
    }
}

/// A present key's index holds that key.
#[verifier::spinoff_prover]
pub(crate) proof fn lemma_key_index(keys: Seq<SharedCornerKey>, key: SharedCornerKey)
    requires
        keys.contains(key),
    ensures
        0 <= key_index(keys, key) < keys.len(),
        keys[key_index(keys, key)] == key,
{
}

/// Half-edge `e` of an assembled topology is edge `e % 6` of face `e / 6`,
/// with every id it holds in range.
#[verifier::spinoff_prover]
pub(crate) proof fn lemma_assembled_edge(
    tiles: Seq<HexCoord>,
    keys: Seq<SharedCornerKey>,
    positions: Seq<PositionBits>,
    topology: HexFaceTopology,
    e: int,
)
    requires
        assembled(tiles, keys, positions, topology),
        0 <= e < 6 * tiles.len(),
    ensures
        0 <= e / 6 < tiles.len(),
        0 <= e % 6 < 6,
        e == 6 * (e / 6) + e % 6,
        edge_reference_fault(topology, e) is None,
        topology.half_edges@[e].origin.0 == planned_vertex(keys, tiles, e / 6, e % 6),
        topology.half_edges@[e].destination.0 == planned_vertex(keys, tiles, e / 6, (e % 6 + 1) % 6),
        topology.half_edges@[e].incident_face == FaceId((e / 6) as usize),
        topology.half_edges@[e].twin == planned_twin(keys, tiles, e),
{
    let f = e / 6;
    let i = e % 6;
    assert(0 <= f < tiles.len() && 0 <= i < 6 && e == 6 * f + i) by (nonlinear_arith)
        requires
            0 <= e < 6 * tiles.len(),
            f == e / 6,
            i == e % 6,
    ;
    let edges = topology.half_edges@;
    assert(edges.len() == topology.half_edges.len());
    assert(topology.vertices@.len() == topology.vertices.len());
    assert(edges[e] == planned_half_edge(keys, tiles, e, planned_twin(keys, tiles, e)));
    assert(keys.contains(corner_key_spec(tiles[f], i)));
    assert(keys.contains(corner_key_spec(tiles[f], (i + 1) % 6)));
    lemma_key_index(keys, corner_key_spec(tiles[f], i));
    lemma_key_index(keys, corner_key_spec(tiles[f], (i + 1) % 6));
}

/// An assembled face has six distinct corner vertices in range.
#[verifier::spinoff_prover]
pub(crate) proof fn lemma_assembled_corners(
    tiles: Seq<HexCoord>,
    keys: Seq<SharedCornerKey>,
    positions: Seq<PositionBits>,
    topology: HexFaceTopology,
    f: int,
)
    requires
        assembled(tiles, keys, positions, topology),
        tiles_have_neighbors(tiles),
        0 <= f < tiles.len(),
    ensures
        corners_ok(topology, f),
{
    let corners = topology.faces@[f].vertices;
    assert(topology.vertices@.len() == topology.vertices.len());
    assert forall|i: int| 0 <= i < 6 implies (#[trigger] corners[i]).0 < topology.vertices@.len()
        && corners[i].0 == key_index(keys, corner_key_spec(tiles[f], i)) by {
        assert(keys.contains(corner_key_spec(tiles[f], i)));
        lemma_key_index(keys, corner_key_spec(tiles[f], i));
    }
    assert forall|i: int, j: int| 0 <= i < j < 6 implies corners[i] != corners[j] by {
        assert(corners[i].0 < topology.vertices@.len() && corners[j].0 < topology.vertices@.len());
        lemma_key_index(keys, corner_key_spec(tiles[f], i));
        lemma_key_index(keys, corner_key_spec(tiles[f], j));
        lemma_corner_keys_distinct(tiles[f], i, j);
    }
}

/// Half-edge `6f + i` belongs to face `f` and links to its cyclic
/// neighbours `6f + i ± 1` within the face.
pub open spec fn slot_links(topology: HexFaceTopology, f: int, i: int) -> bool {
    let edge = topology.half_edges@[6 * f + i];
    &&& 6 * f + i < topology.half_edges@.len()
    &&& edge.next.0 == 6 * f + if i == 5 { 0 } else { i + 1 }
    &&& edge.prev.0 == 6 * f + if i == 0 { 5 } else { i - 1 }
    &&& edge.incident_face.0 == f
}

/// Half-edge `6f + i` of the topology is edge `i` of face `f` as planned.
pub open spec fn assembled_slot(
    tiles: Seq<HexCoord>,
    keys: Seq<SharedCornerKey>,
    topology: HexFaceTopology,
    f: int,
    i: int,
) -> bool {
    let edge = topology.half_edges@[6 * f + i];
    &&& slot_links(topology, f, i)
    &&& edge.origin.0 == planned_vertex(keys, tiles, f, i)
    &&& edge.destination.0 == planned_vertex(keys, tiles, f, (i + 1) % 6)
    &&& edge.twin == planned_twin(keys, tiles, 6 * f + i)
}

#[verifier::spinoff_prover]
pub(crate) proof fn lemma_assembled_slot(
    tiles: Seq<HexCoord>,
    keys: Seq<SharedCornerKey>,
    positions: Seq<PositionBits>,
    topology: HexFaceTopology,
    f: int,
    i: int,
)
    requires
        assembled(tiles, keys, positions, topology),
        0 <= f < tiles.len(),
        0 <= i < 6,
    ensures
        assembled_slot(tiles, keys, topology, f, i),
        topology.faces@[f].boundary.0 == 6 * f,
{
    crate::topology::lemma_slot(f, i);
    assert(6 * f + i < 6 * tiles.len()) by (nonlinear_arith)
        requires 0 <= f < tiles.len(), 0 <= i < 6;
    assert((i + 1) % 6 == if i == 5 { 0 } else { i + 1 }) by (nonlinear_arith)
        requires 0 <= i < 6;
    assert((i + 5) % 6 == if i == 0 { 5 } else { i - 1 }) by (nonlinear_arith)
        requires 0 <= i < 6;
    let e = 6 * f + i;
    assert(topology.half_edges@.len() == topology.half_edges.len());
    assert(topology.vertices@.len() == topology.vertices.len());
    assert(keys.contains(corner_key_spec(tiles[f], i)));
    assert(keys.contains(corner_key_spec(tiles[f], (i + 1) % 6)));
    lemma_key_index(keys, corner_key_spec(tiles[f], i));
    lemma_key_index(keys, corner_key_spec(tiles[f], (i + 1) % 6));
    assert(topology.half_edges@[e] == planned_half_edge(keys, tiles, e, planned_twin(keys, tiles, e)));
}

/// The `next` and `prev` walks of a face whose six slots link cyclically
/// step through its consecutive half-edges.
#[verifier::spinoff_prover]
proof fn lemma_slot_walks(topology: HexFaceTopology, f: int, k: nat)
    requires
        0 <= f,
        forall|i: int| 0 <= i < 6 ==> #[trigger] slot_links(topology, f, i),
        k <= 6,
    ensures
        next_walk(topology.half_edges@, 6 * f, k) == 6 * f + if k == 6 { 0 } else { k as int },
        prev_walk(topology.half_edges@, 6 * f, k) == 6 * f + if k == 0 { 0 } else { 6 - k },
    decreases k,
{
    if k > 0 {
        lemma_slot_walks(topology, f, (k - 1) as nat);
        assert(slot_links(topology, f, k - 1));
        if k == 1 {
            assert(slot_links(topology, f, 0));
        } else {
            assert(slot_links(topology, f, 7 - k));
        }
    }
}

/// The boundary cycles of an assembled face are its six half-edges in order.
#[verifier::spinoff_prover]
proof fn lemma_assembled_cycles(
    tiles: Seq<HexCoord>,
    keys: Seq<SharedCornerKey>,
    positions: Seq<PositionBits>,
    topology: HexFaceTopology,
    f: int,
)
    requires
        assembled(tiles, keys, positions, topology),
        0 <= f < tiles.len(),
    ensures
        next_cycle_ok(topology, f),
        prev_cycle_ok(topology, f),
{
    assert forall|i: int| 0 <= i < 6 implies #[trigger] assembled_slot(tiles, keys, topology, f, i) by {
        lemma_assembled_slot(tiles, keys, positions, topology, f, i);
    }
    lemma_assembled_slot(tiles, keys, positions, topology, f, 0);
    assert forall|i: int| 0 <= i < 6 implies (#[trigger] topology.faces@[f].vertices[i]).0 == planned_vertex(
        keys,
        tiles,
        f,
        i,
    ) by {
        assert(topology.vertices@.len() == topology.vertices.len());
        assert(keys.contains(corner_key_spec(tiles[f], i)));
        lemma_key_index(keys, corner_key_spec(tiles[f], i));
    }
    lemma_cycles_from_slots(tiles, keys, topology, f);
}

#[verifier::spinoff_prover]
proof fn lemma_cycles_from_slots(
    tiles: Seq<HexCoord>,
    keys: Seq<SharedCornerKey>,
    topology: HexFaceTopology,
    f: int,
)
    requires
        0 <= f < topology.faces@.len(),
        topology.faces@[f].boundary.0 == 6 * f,
        forall|i: int| 0 <= i < 6 ==> #[trigger] assembled_slot(tiles, keys, topology, f, i),
        forall|i: int|
            0 <= i < 6 ==> (#[trigger] topology.faces@[f].vertices[i]).0 == planned_vertex(
                keys,
                tiles,
                f,
                i,
            ),
    ensures
        next_cycle_ok(topology, f),
        prev_cycle_ok(topology, f),
{
    let edges = topology.half_edges@;
    let start = 6 * f;
    assert forall|i: int| 0 <= i < 6 implies #[trigger] slot_links(topology, f, i) by {
        assert(assembled_slot(tiles, keys, topology, f, i));
    }
    assert forall|k: nat| k <= 6 implies next_walk(edges, start, k) == start + (if k == 6 { 0 } else { k as int })
        && prev_walk(edges, start, k) == start + (if k == 0 { 0 } else { 6 - k }) by {
        lemma_slot_walks(topology, f, k);
    }
    assert forall|k: nat| k < 6 implies #[trigger] next_link_ok(topology, f, k) by {
        assert(next_walk(edges, start, k) == start + k);
        assert(assembled_slot(tiles, keys, topology, f, k as int));
        if k == 5 {
            assert(assembled_slot(tiles, keys, topology, f, 0));
        } else {
            assert(assembled_slot(tiles, keys, topology, f, k as int + 1));
        }
    }
    assert(start < edges.len()) by {
        assert(slot_links(topology, f, 0));
    }
    assert(next_walk(edges, start, 6) == start);
    assert(prev_walk(edges, start, 6) == start);
    assert forall|j: nat, k: nat| j < k < 6 implies next_walk(edges, start, j) != next_walk(edges, start, k)
        && prev_walk(edges, start, j) != prev_walk(edges, start, k) by {
        assert(next_walk(edges, start, j) == start + j);
        assert(next_walk(edges, start, k) == start + k);
    }
    assert forall|k: nat| k < 6 implies #[trigger] prev_link_ok(topology, f, k) by {
        if k == 0 {
            assert(prev_walk(edges, start, k) == start);
            assert(assembled_slot(tiles, keys, topology, f, 0));
            assert(assembled_slot(tiles, keys, topology, f, 5));
        } else {
            assert(prev_walk(edges, start, k) == start + 6 - k);
            assert(assembled_slot(tiles, keys, topology, f, 6 - k));
            assert(assembled_slot(tiles, keys, topology, f, 5 - k));
        }
    }
}

/// The structure of an assembled topology passes validation: counts, the
/// tile-to-face bijection, in-range references, every face's corners and
/// cycles (given passing geometric verdicts), distinct directions, and every
/// half-edge on a face cycle.
#[verifier::spinoff_prover]
pub proof fn law_assembled_structure_is_valid(
    layout: MapLayout,
    keys: Seq<SharedCornerKey>,
    positions: Seq<PositionBits>,
    topology: HexFaceTopology,
    geometry: Seq<Option<HexFaceTopologyError>>,
)
    requires
        strictly_ascending(layout.tile_seq()),
        tiles_have_neighbors(layout.tile_seq()),
        assembled(layout.tile_seq(), keys, positions, topology),
        geometry.len() == layout.tile_seq().len(),
        forall|f: int| 0 <= f < geometry.len() ==> #[trigger] geometry[f] is None,
    ensures
        counts_ok(topology, layout.tile_seq().len() as int),
        mapping_ok(topology, layout),
        edge_references_ok(topology),
        faces_ok(topology, geometry),
{
    let tiles = layout.tile_seq();
    lemma_tile_face_map(tiles);
    assert(topology.hex_to_face@ == tile_face_map(tiles));
    assert forall|f: int| 0 <= f < topology.faces@.len() implies #[trigger] face_mapped(topology, layout, f) by {
        assert(tiles[f] == topology.faces@[f].hex);
        assert(layout.has_tile(tiles[f]));
        assert(tile_face_map(tiles).contains_key(coord_key(tiles[f])));
    }
    assert forall|e: int| 0 <= e < topology.half_edges@.len() implies #[trigger] edge_reference_fault(topology, e) is None by {
        lemma_assembled_edge(tiles, keys, positions, topology, e);
    }
    assert forall|f: int| 0 <= f < topology.faces@.len() implies #[trigger] face_ok(topology, geometry, f) by {
        lemma_assembled_corners(tiles, keys, positions, topology, f);
        lemma_assembled_cycles(tiles, keys, positions, topology, f);
    }
    let edges = topology.half_edges@;
    assert forall|a: int, b: int| 0 <= a < b < edges.len() implies !same_direction(#[trigger] edges[a], #[trigger] edges[b]) by {
        assert(edges[a] == planned_half_edge(keys, tiles, a, planned_twin(keys, tiles, a)));
        assert(edges[b] == planned_half_edge(keys, tiles, b, planned_twin(keys, tiles, b)));
        assert(!same_direction(planned_half_edge(keys, tiles, a, None), planned_half_edge(keys, tiles, b, None)));
    }
    assert forall|e: int| 0 <= e < edges.len() implies #[trigger] on_some_cycle(topology, e, topology.faces@.len() as int) by {
        lemma_assembled_edge(tiles, keys, positions, topology, e);
        let f = e / 6;
        let k = (e % 6) as nat;
        assert forall|i: int| 0 <= i < 6 implies #[trigger] assembled_slot(tiles, keys, topology, f, i) by {
            lemma_assembled_slot(tiles, keys, positions, topology, f, i);
        }
        lemma_assembled_slot(tiles, keys, positions, topology, f, 0);
        assert forall|i: int| 0 <= i < 6 implies #[trigger] slot_links(topology, f, i) by {
            assert(assembled_slot(tiles, keys, topology, f, i));
        }
        lemma_slot_walks(topology, f, k);
        assert(next_walk(edges, topology.faces@[f].boundary.0 as int, k) == e);
    }
}

/// Corner vertices of an assembled face are the vertices of distinct keys:
/// equal vertices mean equal corners.
#[verifier::spinoff_prover]
pub(crate) proof fn lemma_planned_vertex_injective(
    tiles: Seq<HexCoord>,
    keys: Seq<SharedCornerKey>,
    f: int,
    i: int,
    g: int,
    j: int,
)
    requires
        all_corner_keys_present(keys, tiles),
        0 <= f < tiles.len(),
        0 <= g < tiles.len(),
        0 <= i < 6,
        0 <= j < 6,
        planned_vertex(keys, tiles, f, i) == planned_vertex(keys, tiles, g, j),
    ensures
        corner_key_spec(tiles[f], i) == corner_key_spec(tiles[g], j),
{
    assert(keys.contains(corner_key_spec(tiles[f], i)));
    assert(keys.contains(corner_key_spec(tiles[g], j)));
    lemma_key_index(keys, corner_key_spec(tiles[f], i));
    lemma_key_index(keys, corner_key_spec(tiles[g], j));
}

/// A twin link of an assembled topology joins faces of neighboring cells.
#[verifier::spinoff_prover]
#[verifier::rlimit(60)]
pub(crate) proof fn lemma_assembled_twin_neighbors(
    tiles: Seq<HexCoord>,
    keys: Seq<SharedCornerKey>,
    positions: Seq<PositionBits>,
    topology: HexFaceTopology,
    e: int,
)
    requires
        assembled(tiles, keys, positions, topology),
        strictly_ascending(tiles),
        tiles_have_neighbors(tiles),
        0 <= e < topology.half_edges@.len(),
        topology.half_edges@[e].twin is Some,
    ensures
        tiles[e / 6].is_neighbor_of(tiles[topology.half_edges@[e].twin.unwrap().0 as int / 6]),
{
    let edges = topology.half_edges@;
    let t = edges[e].twin.unwrap().0 as int;
    law_assembled_twins_are_symmetric(tiles, keys, positions, topology, e);
    lemma_assembled_edge(tiles, keys, positions, topology, e);
    lemma_assembled_edge(tiles, keys, positions, topology, t);
    let f = e / 6;
    let i = e % 6;
    let g = t / 6;
    let j = t % 6;
    let c = tiles[f];
    let d = tiles[g];
    // the twin starts where the edge ends
    lemma_planned_vertex_injective(tiles, keys, g, j, f, (i + 1) % 6);
    let key = corner_key_spec(c, (i + 1) % 6);
    lemma_corner_key_spec(c, (i + 1) % 6);
    lemma_corner_key_spec(d, j);
    assert(corner_cells(d, j).contains(d));
    assert(corner_cells(c, (i + 1) % 6).contains(d));
    if g == f {
        // both on one face: the twin would be edge i + 1 running back to corner i
        lemma_assembled_corners(tiles, keys, positions, topology, f);
        lemma_planned_vertex_injective(tiles, keys, f, (j + 1) % 6, f, i);
        if j != (i + 1) % 6 {
            lemma_corner_keys_distinct(c, j, (i + 1) % 6);
        }
        if (j + 1) % 6 != i {
            lemma_corner_keys_distinct(c, (j + 1) % 6, i);
        }
        assert(false);
    }
    if d == c {
        if f < g {
            assert(tiles[f].ordered_before(tiles[g]));
        } else {
            assert(tiles[g].ordered_before(tiles[f]));
        }
        HexCoord::ordered_before_trichotomy(c, c);
    }
    let directions = corner_neighbor_directions(((i + 1) % 6) % 6);
    if d == c.neighbor(directions.0) {
        assert(c.neighbor(directions.0) == d);
    } else {
        assert(c.neighbor(directions.1) == d);
    }
}

/// Every twin link of an assembled topology is symmetric, reversed, and
/// joins faces of neighboring cells.
#[verifier::spinoff_prover]
proof fn lemma_assembled_twins_ok(
    tiles: Seq<HexCoord>,
    keys: Seq<SharedCornerKey>,
    positions: Seq<PositionBits>,
    topology: HexFaceTopology,
)
    requires
        assembled(tiles, keys, positions, topology),
        strictly_ascending(tiles),
        tiles_have_neighbors(tiles),
    ensures
        twins_ok(topology),
{
    assert forall|e: int| 0 <= e < topology.half_edges@.len() implies #[trigger] twin_fault(topology, e) is None by {
        if topology.half_edges@[e].twin is Some {
            let t = topology.half_edges@[e].twin.unwrap().0 as int;
            law_assembled_twins_are_symmetric(tiles, keys, positions, topology, e);
            lemma_assembled_twin_neighbors(tiles, keys, positions, topology, e);
            lemma_assembled_slot(tiles, keys, positions, topology, e / 6, e % 6);
            lemma_assembled_edge(tiles, keys, positions, topology, e);
            lemma_assembled_edge(tiles, keys, positions, topology, t);
            lemma_assembled_slot(tiles, keys, positions, topology, t / 6, t % 6);
            assert(topology.faces@[e / 6].hex == tiles[e / 6]);
            assert(topology.faces@[t / 6].hex == tiles[t / 6]);
        }
    }
}

/// The half-edges below `k` that have a twin.
spec fn twinned_below(edges: Seq<HalfEdge>, k: int) -> Set<int> {
    Set::new(|e: int| 0 <= e < k && edges[e].twin is Some)
}

#[verifier::spinoff_prover]
proof fn lemma_twinned_count_is_set_len(edges: Seq<HalfEdge>, k: nat)
    requires
        k <= edges.len(),
    ensures
        twinned_below(edges, k as int).finite(),
        twinned_count(edges.take(k as int)) == twinned_below(edges, k as int).len(),
    decreases k,
{
    if k == 0 {
        assert(twinned_below(edges, 0) =~= Set::<int>::empty());
        assert(edges.take(0) =~= Seq::<HalfEdge>::empty());
    } else {
        lemma_twinned_count_is_set_len(edges, (k - 1) as nat);
        let previous = twinned_below(edges, k - 1);
        assert(edges.take(k as int).drop_last() =~= edges.take(k - 1));
        assert(edges.take(k as int).last() == edges[k - 1]);
        if edges[k - 1].twin is Some {
            assert(twinned_below(edges, k as int) =~= previous.insert(k - 1));
        } else {
            assert(twinned_below(edges, k as int) =~= previous);
        }
    }
}

/// A finite set closed under a fixpoint-free involution has even size.
#[verifier::spinoff_prover]
proof fn lemma_involution_set_even(items: Set<int>, partner: spec_fn(int) -> int)
    requires
        items.finite(),
        forall|x: int|
            #[trigger] items.contains(x) ==> items.contains(partner(x)) && partner(x) != x && partner(
                partner(x),
            ) == x,
    ensures
        items.len() % 2 == 0,
    decreases items.len(),
{
    if items.len() > 0 {
        let x = items.choose();
        let y = partner(x);
        let rest = items.remove(x).remove(y);
        assert forall|z: int| #[trigger] rest.contains(z) implies rest.contains(partner(z)) && partner(z) != z
            && partner(partner(z)) == z by {
            assert(items.contains(z));
        }
        assert(items.remove(x).len() == items.len() - 1);
        assert(items.remove(x).contains(y));
        lemma_involution_set_even(rest, partner);
    }
}

/// A half-edge of an assembled topology is never its own twin, and its
/// twin's twin is itself.
#[verifier::spinoff_prover]
#[verifier::rlimit(40)]
proof fn lemma_twin_partner(
    tiles: Seq<HexCoord>,
    keys: Seq<SharedCornerKey>,
    positions: Seq<PositionBits>,
    topology: HexFaceTopology,
    x: int,
)
    requires
        assembled(tiles, keys, positions, topology),
        tiles_have_neighbors(tiles),
        0 <= x < topology.half_edges@.len(),
        topology.half_edges@[x].twin is Some,
    ensures
        ({
            let t = topology.half_edges@[x].twin.unwrap().0 as int;
            &&& 0 <= t < topology.half_edges@.len()
            &&& t != x
            &&& topology.half_edges@[t].twin is Some
            &&& topology.half_edges@[t].twin.unwrap().0 as int == x
        }),
{
    let edges = topology.half_edges@;
    law_assembled_twins_are_symmetric(tiles, keys, positions, topology, x);
    let t = edges[x].twin.unwrap().0 as int;
    if t == x {
        lemma_assembled_edge(tiles, keys, positions, topology, x);
        lemma_planned_vertex_injective(tiles, keys, x / 6, x % 6, x / 6, (x % 6 + 1) % 6);
        lemma_corner_keys_distinct(tiles[x / 6], x % 6, (x % 6 + 1) % 6);
    }
    assert(edges.len() == topology.half_edges.len());
}

/// The twinned half-edges of an assembled topology pair up: their count is
/// even.
#[verifier::spinoff_prover]
proof fn lemma_twinned_count_even(
    tiles: Seq<HexCoord>,
    keys: Seq<SharedCornerKey>,
    positions: Seq<PositionBits>,
    topology: HexFaceTopology,
)
    requires
        assembled(tiles, keys, positions, topology),
        tiles_have_neighbors(tiles),
    ensures
        twinned_count(topology.half_edges@) % 2 == 0,
        twinned_count(topology.half_edges@) <= topology.half_edges@.len(),
{
    let edges = topology.half_edges@;
    let n = edges.len();
    lemma_twinned_count_is_set_len(edges, n);
    assert(edges.take(n as int) =~= edges);
    let twinned = twinned_below(edges, n as int);
    let partner = |e: int| edges[e].twin.unwrap().0 as int;
    assert forall|x: int| #[trigger] twinned.contains(x) implies twinned.contains(partner(x)) && partner(x) != x
        && partner(partner(x)) == x by {
        lemma_twin_partner(tiles, keys, positions, topology, x);
    }
    lemma_involution_set_even(twinned, partner);
    crate::topology::lemma_twinned_count_bound_pub(edges);
}

/// The counters of an assembled topology agree with its half-edges.
#[verifier::spinoff_prover]
proof fn lemma_assembled_stats_ok(
    tiles: Seq<HexCoord>,
    keys: Seq<SharedCornerKey>,
    positions: Seq<PositionBits>,
    topology: HexFaceTopology,
)
    requires
        assembled(tiles, keys, positions, topology),
        tiles_have_neighbors(tiles),
    ensures
        stats_ok(topology),
{
    lemma_twinned_count_even(tiles, keys, positions, topology);
    let count = twinned_count(topology.half_edges@);
    let n = topology.half_edges@.len();
    assert(n == topology.half_edges.len());
    assert(n == 6 * tiles.len());
    let stats = topology.stats;
    assert(stats.paired_edge_count == (count / 2) as usize);
    assert(stats.border_edge_count == (n - count) as usize);
    assert(stats.half_edge_count == n as usize);
    assert(count / 2 * 2 == count) by (nonlinear_arith)
        requires count % 2 == 0, count >= 0;
}

/// The side of tile `t` facing its neighbor tile `g` (direction `d`) is
/// twinned with the opposite side of `g`.
#[verifier::spinoff_prover]
#[verifier::rlimit(40)]
pub(crate) proof fn lemma_assembled_side_twin(
    tiles: Seq<HexCoord>,
    keys: Seq<SharedCornerKey>,
    positions: Seq<PositionBits>,
    topology: HexFaceTopology,
    t: int,
    d: int,
    g: int,
)
    requires
        assembled(tiles, keys, positions, topology),
        tiles_have_neighbors(tiles),
        0 <= t < tiles.len(),
        0 <= g < tiles.len(),
        0 <= d < 6,
        tiles[g] == tiles[t].neighbor(d),
    ensures
        topology.half_edges@[6 * t + (5 - d)].twin == Some(HalfEdgeId((6 * g + (8 - d) % 6) as usize)),
{
    let c = tiles[t];
    let side = 5 - d;
    let other_side = (8 - d) % 6;
    lemma_side_shared_with_neighbor(c, d);
    lemma_assembled_slot(tiles, keys, positions, topology, t, side);
    lemma_assembled_slot(tiles, keys, positions, topology, g, other_side);
    let e = 6 * t + side;
    let o = 6 * g + other_side;
    crate::topology::lemma_slot(t, side);
    crate::topology::lemma_slot(g, other_side);
    assert((side + 1) % 6 == (6 - d) % 6);
    assert((other_side + 1) % 6 == (9 - d) % 6);
    let plan_e = planned_half_edge(keys, tiles, e, None);
    let plan_o = planned_half_edge(keys, tiles, o, None);
    assert(reverses(plan_e, plan_o));
    assert(6 * g + other_side < 6 * tiles.len()) by (nonlinear_arith)
        requires 0 <= g < tiles.len(), 0 <= other_side < 6;
    let j = planned_twin(keys, tiles, e).unwrap().0 as int;
    assert(topology.half_edges@.len() == topology.half_edges.len());
    assert(0 <= j < 6 * tiles.len() && reverses(plan_e, planned_half_edge(keys, tiles, j, None)));
    if j < o {
        assert(same_direction(planned_half_edge(keys, tiles, j, None), plan_o));
    } else if o < j {
        assert(same_direction(plan_o, planned_half_edge(keys, tiles, j, None)));
    }
}

/// Scanning a walk from position `k` on, where a twin into `target` lies at
/// `last` and every twin is in range and symmetric, finds a first link.
#[verifier::spinoff_prover]
proof fn lemma_linked_from(
    topology: HexFaceTopology,
    ids: Seq<HalfEdgeId>,
    target: FaceId,
    k: int,
    last: int,
)
    requires
        0 <= k <= last < ids.len(),
        forall|j: int| 0 <= j < k ==> #[trigger] twin_elsewhere(topology, ids[j], target),
        twin_on(topology, ids[last], target),
        forall|j: int|
            0 <= j < ids.len() ==> #[trigger] twin_on(topology, ids[j], target) || twin_elsewhere(
                topology,
                ids[j],
                target,
            ),
        forall|j: int| 0 <= j < ids.len() && twin_on(topology, ids[j], target) ==> #[trigger] twin_symmetric(topology, ids[j]),
    ensures
        linked_to(topology, ids, target),
    decreases last - k,
{
    if twin_on(topology, ids[k], target) {
        assert(twin_symmetric(topology, ids[k]));
    } else {
        assert(twin_elsewhere(topology, ids[k], target));
        assert forall|j: int| 0 <= j < k + 1 implies #[trigger] twin_elsewhere(topology, ids[j], target) by {
        }
        lemma_linked_from(topology, ids, target, k + 1, last);
    }
}

/// The walk of an assembled face is its six consecutive half-edges.
#[verifier::spinoff_prover]
proof fn lemma_assembled_face_walk(
    tiles: Seq<HexCoord>,
    keys: Seq<SharedCornerKey>,
    positions: Seq<PositionBits>,
    topology: HexFaceTopology,
    t: int,
)
    requires
        assembled(tiles, keys, positions, topology),
        tiles_have_neighbors(tiles),
        0 <= t < tiles.len(),
    ensures
        face_walk_ok(topology, t),
        forall|k: int| 0 <= k < 6 ==> #[trigger] face_walk(topology, t)[k] == HalfEdgeId((6 * t + k) as usize),
{
    assert forall|i: int| 0 <= i < 6 implies #[trigger] slot_links(topology, t, i) by {
        lemma_assembled_slot(tiles, keys, positions, topology, t, i);
    }
    lemma_assembled_slot(tiles, keys, positions, topology, t, 0);
    let edges = topology.half_edges@;
    let start = 6 * t;
    assert forall|k: nat| k <= 6 implies next_walk(edges, start, k) == start + (if k == 6 { 0 } else { k as int }) by {
        lemma_slot_walks(topology, t, k);
    }
    assert forall|k: nat| k < 6 implies edges[#[trigger] next_walk(edges, start, k)].incident_face == FaceId(t as usize) by {
        assert(slot_links(topology, t, k as int));
        assert(edges.len() == topology.half_edges.len());
    }
    assert forall|k: nat| k < 6 implies 0 <= #[trigger] next_walk(edges, start, k) < edges.len() by {
        assert(slot_links(topology, t, k as int));
    }
    assert forall|j: nat, k: nat| j < k < 6 implies next_walk(edges, start, j) != next_walk(edges, start, k) by {
        assert(next_walk(edges, start, j) == start + j);
        assert(next_walk(edges, start, k) == start + k);
    }
}

/// Every twin of an assembled topology is in range and symmetric.
#[verifier::spinoff_prover]
proof fn lemma_assembled_twin_kinds(
    tiles: Seq<HexCoord>,
    keys: Seq<SharedCornerKey>,
    positions: Seq<PositionBits>,
    topology: HexFaceTopology,
    id: HalfEdgeId,
    target: FaceId,
)
    requires
        assembled(tiles, keys, positions, topology),
        tiles_have_neighbors(tiles),
        id.0 < topology.half_edges@.len(),
    ensures
        twin_on(topology, id, target) || twin_elsewhere(topology, id, target),
        twin_on(topology, id, target) ==> twin_symmetric(topology, id),
{
    if topology.half_edges@[id.0 as int].twin is Some {
        law_assembled_twins_are_symmetric(tiles, keys, positions, topology, id.0 as int);
    }
}

/// The walk of tile `t`'s face reaches a symmetric twin pair into the face
/// of its neighbor tile `g` in direction `d`.
#[verifier::spinoff_prover]
proof fn lemma_assembled_pair_linked(
    tiles: Seq<HexCoord>,
    keys: Seq<SharedCornerKey>,
    positions: Seq<PositionBits>,
    topology: HexFaceTopology,
    t: int,
    d: int,
    g: int,
)
    requires
        assembled(tiles, keys, positions, topology),
        tiles_have_neighbors(tiles),
        0 <= t < tiles.len(),
        0 <= g < tiles.len(),
        0 <= d < 6,
        tiles[g] == tiles[t].neighbor(d),
    ensures
        linked_to(topology, face_walk(topology, t), FaceId(g as usize)),
{
    lemma_assembled_face_walk(tiles, keys, positions, topology, t);
    lemma_assembled_side_twin(tiles, keys, positions, topology, t, d, g);
    let ids = face_walk(topology, t);
    let side = 5 - d;
    let target = FaceId(g as usize);
    lemma_assembled_slot(tiles, keys, positions, topology, g, (8 - d) % 6);
    assert(ids[side] == HalfEdgeId((6 * t + side) as usize));
    assert(topology.half_edges@.len() == topology.half_edges.len());
    assert(twin_on(topology, ids[side], target));
    assert forall|j: int| 0 <= j < ids.len() implies #[trigger] twin_on(topology, ids[j], target)
        || twin_elsewhere(topology, ids[j], target) by {
        lemma_assembled_slot(tiles, keys, positions, topology, t, j);
        lemma_assembled_twin_kinds(tiles, keys, positions, topology, ids[j], target);
    }
    assert forall|j: int| 0 <= j < ids.len() && twin_on(topology, ids[j], target)
        implies #[trigger] twin_symmetric(topology, ids[j]) by {
        lemma_assembled_slot(tiles, keys, positions, topology, t, j);
        lemma_assembled_twin_kinds(tiles, keys, positions, topology, ids[j], target);
    }
    lemma_linked_from(topology, ids, target, 0, side);
}

/// Tile `g` is mapped to face `g` when the index is the tile face map.
#[verifier::spinoff_prover]
pub(crate) proof fn lemma_mapped_tile(tiles: Seq<HexCoord>, topology: HexFaceTopology, g: int)
    requires
        strictly_ascending(tiles),
        topology.hex_to_face@ == tile_face_map(tiles),
        0 <= g < tiles.len(),
    ensures
        mapped_face(topology, tiles[g]) == Some(FaceId(g as usize)),
{
    lemma_tile_face_map(tiles);
    assert(tile_face_map(tiles).contains_key(coord_key(tiles[g])));
}

/// Neighbor `i` of tile `t`, when it is a later tile, is linked to it.
#[verifier::spinoff_prover]
proof fn lemma_assembled_neighbor_pair(
    layout: MapLayout,
    keys: Seq<SharedCornerKey>,
    positions: Seq<PositionBits>,
    topology: HexFaceTopology,
    t: int,
    i: int,
)
    requires
        assembled(layout.tile_seq(), keys, positions, topology),
        strictly_ascending(layout.tile_seq()),
        tiles_have_neighbors(layout.tile_seq()),
        0 <= t < layout.tile_seq().len(),
        0 <= i < 6,
    ensures
        neighbor_pair_ok(topology, layout, layout.tile_seq()[t], t, i),
{
    let tiles = layout.tile_seq();
    let c = tiles[t];
    let n = c.neighbor(i);
    if c.precedes(n) && layout.has_tile(n) {
        let g = choose|g: int| 0 <= g < tiles.len() && tiles[g] == n;
        lemma_mapped_tile(tiles, topology, g);
        lemma_assembled_pair_linked(tiles, keys, positions, topology, t, i, g);
    }
}

/// Tile `t` of an assembled topology is mapped to its face, whose walk is
/// valid and linked to every later neighboring tile's face.
#[verifier::spinoff_prover]
proof fn lemma_assembled_tile_twins(
    layout: MapLayout,
    keys: Seq<SharedCornerKey>,
    positions: Seq<PositionBits>,
    topology: HexFaceTopology,
    t: int,
)
    requires
        assembled(layout.tile_seq(), keys, positions, topology),
        strictly_ascending(layout.tile_seq()),
        tiles_have_neighbors(layout.tile_seq()),
        0 <= t < layout.tile_seq().len(),
    ensures
        tile_twins_ok(topology, layout, layout.tile_seq()[t]),
{
    let tiles = layout.tile_seq();
    assert(topology.faces@.len() == topology.faces.len());
    assert((t as usize) as int == t);
    lemma_mapped_tile(tiles, topology, t);
    lemma_assembled_face_walk(tiles, keys, positions, topology, t);
    assert forall|i: int| 0 <= i < 6 implies #[trigger] neighbor_pair_ok(topology, layout, tiles[t], t, i) by {
        lemma_assembled_neighbor_pair(layout, keys, positions, topology, t, i);
    }
}

/// Every pair of neighboring tiles of an assembled topology is linked by a
/// symmetric twin pair.
#[verifier::spinoff_prover]
proof fn lemma_assembled_neighbor_twins(
    layout: MapLayout,
    keys: Seq<SharedCornerKey>,
    positions: Seq<PositionBits>,
    topology: HexFaceTopology,
)
    requires
        assembled(layout.tile_seq(), keys, positions, topology),
        strictly_ascending(layout.tile_seq()),
        tiles_have_neighbors(layout.tile_seq()),
    ensures
        neighbor_twins_ok(topology, layout),
{
    assert forall|t: int| 0 <= t < layout.tile_seq().len() implies #[trigger] tile_twins_ok(
        topology,
        layout,
        layout.tile_seq()[t],
    ) by {
        lemma_assembled_tile_twins(layout, keys, positions, topology, t);
    }
}

/// In an assembled topology, a half-edge that reverses `e` is its twin.
#[verifier::spinoff_prover]
proof fn lemma_reverse_is_twin(
    tiles: Seq<HexCoord>,
    keys: Seq<SharedCornerKey>,
    positions: Seq<PositionBits>,
    topology: HexFaceTopology,
    e: int,
    r: int,
)
    requires
        assembled(tiles, keys, positions, topology),
        0 <= e < topology.half_edges@.len(),
        0 <= r < topology.half_edges@.len(),
        reverses(topology.half_edges@[e], topology.half_edges@[r]),
    ensures
        topology.half_edges@[e].twin == Some(HalfEdgeId(r as usize)),
{
    let edges = topology.half_edges@;
    assert(edges.len() == topology.half_edges.len());
    assert(edges[e] == planned_half_edge(keys, tiles, e, planned_twin(keys, tiles, e)));
    assert(edges[r] == planned_half_edge(keys, tiles, r, planned_twin(keys, tiles, r)));
    assert(reverses(planned_half_edge(keys, tiles, e, None), planned_half_edge(keys, tiles, r, None)));
    let j = planned_twin(keys, tiles, e).unwrap().0 as int;
    assert(0 <= j < 6 * tiles.len() && reverses(
        planned_half_edge(keys, tiles, e, None),
        planned_half_edge(keys, tiles, j, None),
    ));
    if j < r {
        assert(same_direction(planned_half_edge(keys, tiles, j, None), planned_half_edge(keys, tiles, r, None)));
    } else if r < j {
        assert(same_direction(planned_half_edge(keys, tiles, r, None), planned_half_edge(keys, tiles, j, None)));
    }
}

/// Face `h`'s walk holds a reverse of half-edge `e` exactly when `e`'s twin
/// lies on face `h`.
#[verifier::spinoff_prover]
proof fn lemma_reversed_in_walk(
    tiles: Seq<HexCoord>,
    keys: Seq<SharedCornerKey>,
    positions: Seq<PositionBits>,
    topology: HexFaceTopology,
    e: int,
    h: int,
)
    requires
        assembled(tiles, keys, positions, topology),
        tiles_have_neighbors(tiles),
        0 <= e < topology.half_edges@.len(),
        0 <= h < tiles.len(),
    ensures
        reversed_in_walk(topology, h, topology.half_edges@[e]) <==> (topology.half_edges@[e].twin matches Some(
            j,
        ) && j.0 / 6 == h),
{
    let edges = topology.half_edges@;
    lemma_assembled_face_walk(tiles, keys, positions, topology, h);
    assert(edges.len() == topology.half_edges.len());
    if reversed_in_walk(topology, h, edges[e]) {
        let k = choose|k: int| 0 <= k < 6 && reverses_edge(edges[e], edges[#[trigger] face_walk(topology, h)[k].0 as int]);
        let r = 6 * h + k;
        assert(face_walk(topology, h)[k] == HalfEdgeId(r as usize));
        assert(edges.len() == 6 * tiles.len());
        assert(0 <= r < edges.len()) by (nonlinear_arith)
            requires 0 <= h < tiles.len(), 0 <= k < 6, edges.len() == 6 * tiles.len(), r == 6 * h + k;
        lemma_reverse_is_twin(tiles, keys, positions, topology, e, r);
        crate::topology::lemma_slot(h, k);
    }
    if let Some(j) = edges[e].twin {
        if j.0 / 6 == h {
            let r = j.0 as int;
            law_assembled_twins_are_symmetric(tiles, keys, positions, topology, e);
            let k = r % 6;
            assert(r == 6 * h + k && 0 <= k < 6) by (nonlinear_arith)
                requires r >= 0, h == r / 6, k == r % 6;
            assert(face_walk(topology, h)[k] == HalfEdgeId(r as usize));
            assert(reverses_edge(edges[e], edges[face_walk(topology, h)[k].0 as int]));
        }
    }
}

/// Distinct directions mean distinct neighbors.
pub(crate) proof fn lemma_neighbor_injective(coord: HexCoord, i: int, j: int)
    requires
        coord.has_neighbors(),
        0 <= i < 6,
        0 <= j < 6,
        coord.neighbor(i) == coord.neighbor(j),
    ensures
        i == j,
{
}

/// The neighbor scan of an assembled half-edge `e` finds its twin's face, or
/// nothing when it has no twin.
#[verifier::spinoff_prover]
proof fn lemma_scan_finds_twin(
    layout: MapLayout,
    keys: Seq<SharedCornerKey>,
    positions: Seq<PositionBits>,
    topology: HexFaceTopology,
    e: int,
    direction: int,
    i: nat,
)
    requires
        assembled(layout.tile_seq(), keys, positions, topology),
        strictly_ascending(layout.tile_seq()),
        tiles_have_neighbors(layout.tile_seq()),
        0 <= e < topology.half_edges@.len(),
        topology.half_edges@[e].twin matches Some(j) ==> layout.tile_seq()[e / 6].neighbor(direction)
            == layout.tile_seq()[j.0 as int / 6] && 0 <= direction < 6 && i <= direction,
        topology.half_edges@[e].twin is None ==> i <= 6,
        0 <= e / 6 < layout.tile_seq().len(),
    ensures
        scan_neighbors(topology, layout, layout.tile_seq()[e / 6], topology.half_edges@[e], i) == match topology.half_edges@[e].twin {
            Some(j) => Some(Some(FaceId((j.0 as int / 6) as usize))),
            None => Some(None),
        },
    decreases 6 - i,
{
    let tiles = layout.tile_seq();
    let edges = topology.half_edges@;
    let c = tiles[e / 6];
    if i < 6 {
        let n = c.neighbor(i as int);
        if layout.has_tile(n) {
            let h = choose|h: int| 0 <= h < tiles.len() && tiles[h] == n;
            lemma_mapped_tile(tiles, topology, h);
            lemma_assembled_face_walk(tiles, keys, positions, topology, h);
            lemma_reversed_in_walk(tiles, keys, positions, topology, e, h);
            assert(topology.faces@.len() == topology.faces.len());
            if let Some(j) = edges[e].twin {
                let g = j.0 as int / 6;
                if h == g {
                    lemma_neighbor_injective(c, i as int, direction);
                } else {
                    if i as int == direction {
                        assert(tiles[h] == tiles[g]);
                        if h < g {
                            assert(tiles[h].ordered_before(tiles[g]));
                        } else {
                            assert(tiles[g].ordered_before(tiles[h]));
                        }
                        HexCoord::ordered_before_trichotomy(tiles[h], tiles[h]);
                    }
                    lemma_scan_finds_twin(layout, keys, positions, topology, e, direction, i + 1);
                }
            } else {
                lemma_scan_finds_twin(layout, keys, positions, topology, e, direction, i + 1);
            }
        } else {
            if let Some(j) = edges[e].twin {
                if i as int == direction {
                    let g = j.0 as int / 6;
                    law_assembled_twins_are_symmetric(tiles, keys, positions, topology, e);
                    assert(edges.len() == topology.half_edges.len());
                    assert(0 <= g < tiles.len()) by (nonlinear_arith)
                        requires 0 <= j.0 < edges.len(), edges.len() == 6 * tiles.len(), g == j.0 / 6;
                    assert(layout.has_tile(tiles[g]));
                }
            }
            lemma_scan_finds_twin(layout, keys, positions, topology, e, direction, i + 1);
        }
    }
}

/// Only half-edge `e` lies on its undirected edge when it has no twin.
#[verifier::spinoff_prover]
proof fn lemma_border_edge_alone(
    tiles: Seq<HexCoord>,
    keys: Seq<SharedCornerKey>,
    positions: Seq<PositionBits>,
    topology: HexFaceTopology,
    e: int,
    other: int,
)
    requires
        assembled(tiles, keys, positions, topology),
        0 <= e < topology.half_edges@.len(),
        0 <= other < topology.half_edges@.len(),
        topology.half_edges@[e].twin is None,
        undirected_key(topology.half_edges@[other]) == undirected_key(topology.half_edges@[e]),
    ensures
        other == e,
{
    let edges = topology.half_edges@;
    let a = edges[e];
    let b = edges[other];
    lemma_direction_key_injective(a.origin.0, a.destination.0, b.origin.0, b.destination.0);
    lemma_direction_key_injective(a.origin.0, a.destination.0, b.destination.0, b.origin.0);
    lemma_direction_key_injective(a.destination.0, a.origin.0, b.origin.0, b.destination.0);
    lemma_direction_key_injective(a.destination.0, a.origin.0, b.destination.0, b.origin.0);
    if reverses(a, b) {
        lemma_reverse_is_twin(tiles, keys, positions, topology, e, other);
    }
    assert(edges[e] == planned_half_edge(keys, tiles, e, planned_twin(keys, tiles, e)));
    assert(edges[other] == planned_half_edge(keys, tiles, other, planned_twin(keys, tiles, other)));
    if other < e {
        assert(!same_direction(planned_half_edge(keys, tiles, other, None), planned_half_edge(keys, tiles, e, None)));
    } else if e < other {
        assert(!same_direction(planned_half_edge(keys, tiles, e, None), planned_half_edge(keys, tiles, other, None)));
    }
}

/// A key held by exactly one half-edge is counted once.
proof fn lemma_count_single(edges: Seq<HalfEdge>, e: int, key: u128, m: nat)
    requires
        0 <= e < edges.len(),
        m <= edges.len(),
        forall|other: int| 0 <= other < edges.len() ==> (#[trigger] undirected_key(edges[other]) == key <==> other == e),
    ensures
        undirected_count(edges.take(m as int), key) == if e < m { 1nat } else { 0nat },
    decreases m,
{
    if m > 0 {
        lemma_count_single(edges, e, key, (m - 1) as nat);
        assert(edges.take(m as int).drop_last() =~= edges.take(m - 1));
        assert(edges.take(m as int).last() == edges[m - 1]);
        assert(undirected_key(edges[m - 1]) == key <==> m - 1 == e);
    } else {
        assert(edges.take(0) =~= Seq::<HalfEdge>::empty());
    }
}

/// Every half-edge of an assembled topology agrees with the map's logical
/// neighbors.
#[verifier::spinoff_prover]
proof fn lemma_assembled_border_edge(
    layout: MapLayout,
    keys: Seq<SharedCornerKey>,
    positions: Seq<PositionBits>,
    topology: HexFaceTopology,
    e: int,
)
    requires
        assembled(layout.tile_seq(), keys, positions, topology),
        strictly_ascending(layout.tile_seq()),
        tiles_have_neighbors(layout.tile_seq()),
        0 <= e < topology.half_edges@.len(),
    ensures
        border_edge_ok(topology, layout, e),
{
    let tiles = layout.tile_seq();
    let edges = topology.half_edges@;
    lemma_assembled_edge(tiles, keys, positions, topology, e);
    lemma_assembled_slot(tiles, keys, positions, topology, e / 6, e % 6);
    assert(topology.faces@[e / 6].hex == tiles[e / 6]);
    assert(topology.faces@.len() == topology.faces.len());
    assert(edges.len() == topology.half_edges.len());
    if let Some(j) = edges[e].twin {
        lemma_assembled_twin_neighbors(tiles, keys, positions, topology, e);
        let cell = tiles[e / 6];
        let twin_cell = tiles[j.0 as int / 6];
        assert(cell.is_neighbor_of(twin_cell));
        let direction = choose|d: int| 0 <= d < 6 && #[trigger] cell.neighbor(d) == twin_cell;
        lemma_scan_finds_twin(layout, keys, positions, topology, e, direction, 0);
        law_assembled_twins_are_symmetric(tiles, keys, positions, topology, e);
        lemma_assembled_slot(tiles, keys, positions, topology, j.0 as int / 6, j.0 as int % 6);
        lemma_assembled_edge(tiles, keys, positions, topology, j.0 as int);
    } else {
        lemma_scan_finds_twin(layout, keys, positions, topology, e, 0, 0);
        let key = undirected_key(edges[e]);
        assert forall|other: int| 0 <= other < edges.len() implies (#[trigger] undirected_key(edges[other]) == key <==> other == e) by {
            if undirected_key(edges[other]) == key {
                lemma_border_edge_alone(tiles, keys, positions, topology, e, other);
            }
        }
        lemma_count_single(edges, e, key, edges.len());
        assert(edges.take(edges.len() as int) =~= edges);
    }
}

/// Every half-edge of an assembled topology agrees with the map's logical
/// neighbors.
#[verifier::spinoff_prover]
proof fn lemma_assembled_border_edges(
    layout: MapLayout,
    keys: Seq<SharedCornerKey>,
    positions: Seq<PositionBits>,
    topology: HexFaceTopology,
)
    requires
        assembled(layout.tile_seq(), keys, positions, topology),
        strictly_ascending(layout.tile_seq()),
        tiles_have_neighbors(layout.tile_seq()),
    ensures
        border_edges_ok(topology, layout),
{
    assert forall|e: int| 0 <= e < topology.half_edges@.len() implies #[trigger] border_edge_ok(topology, layout, e) by {
        lemma_assembled_border_edge(layout, keys, positions, topology, e);
    }
}

/// What assembly builds passes complete validation whenever every face's
/// geometric verdict passed: counts, the tile-to-face bijection, in-range
/// references, face corners and cycles, twin symmetry between neighboring
/// cells, the counters, neighbor twins and border edges.
#[verifier::spinoff_prover]
pub proof fn law_assembled_topology_is_complete(
    layout: MapLayout,
    keys: Seq<SharedCornerKey>,
    positions: Seq<PositionBits>,
    topology: HexFaceTopology,
    geometry: Seq<Option<HexFaceTopologyError>>,
)
    requires
        strictly_ascending(layout.tile_seq()),
        tiles_have_neighbors(layout.tile_seq()),
        assembled(layout.tile_seq(), keys, positions, topology),
        geometry.len() == layout.tile_seq().len(),
        forall|f: int| 0 <= f < geometry.len() ==> #[trigger] geometry[f] is None,
    ensures
        complete_topology_valid(topology, layout, geometry),
{
    law_assembled_structure_is_valid(layout, keys, positions, topology, geometry);
    lemma_assembled_twins_ok(layout.tile_seq(), keys, positions, topology);
    lemma_assembled_stats_ok(layout.tile_seq(), keys, positions, topology);
    lemma_assembled_neighbor_twins(layout, keys, positions, topology);
    lemma_assembled_border_edges(layout, keys, positions, topology);
    law_assembled_adjacency_is_exact(layout, keys, positions, topology);
}

} // verus!
