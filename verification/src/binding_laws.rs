//! Cliff binding on assembled topologies: every cliff between neighboring
//! tiles binds to the reciprocal half-edges of their two faces.
use vstd::prelude::*;

use crate::adjacency_laws::lemma_neighbor_back;
use crate::cliffs::{is_neighbor_edge, planned_cliffs, CliffTile};
use crate::edge_binding::{adjacency_scan, bind_all, bind_spec, edge_between, CliffEdgeEntry, EdgeCoord};
use crate::hex_coord::HexCoord;
use crate::map_layout::MapLayout;
use crate::sorted_set::{strictly_ascending, StrictOrder};
use crate::topology::{assembled, reverses, tiles_have_neighbors, HexFaceTopology};
use crate::topology_laws::{
    lemma_assembled_edge, lemma_assembled_side_twin, lemma_assembled_slot, lemma_mapped_tile,
    law_assembled_twins_are_symmetric, slot_links,
};
use crate::types::{FaceId, HalfEdgeId, PositionBits, SharedCornerKey};

verus! {

/// Scanning the boundary walk of face `t`, whose six half-edges link in a
/// cycle, from its `k`-th half-edge, when half-edge `j0 >= k` has an
/// in-range twin on face `target`, finds a half-edge of the face at or after
/// `k` whose in-range twin lies on `target`.
proof fn lemma_scan_finds(topology: HexFaceTopology, t: int, target: FaceId, k: int, j0: int)
    requires
        0 <= t,
        0 <= k <= j0 < 6,
        forall|j: int| 0 <= j < 6 ==> #[trigger] slot_links(topology, t, j),
        topology.half_edges@.len() <= usize::MAX,
        topology.half_edges@[6 * t + j0].twin matches Some(twin) && twin.0 < topology.half_edges@.len()
            && topology.half_edges@[twin.0 as int].incident_face == target,
    ensures
        adjacency_scan(topology, HalfEdgeId((6 * t + k) as usize), target, (6 - k) as nat) matches Some((a, b))
            && 6 * t + k <= a.0 < 6 * t + 6 && topology.half_edges@[a.0 as int].twin == Some(b) && b.0
            < topology.half_edges@.len() && topology.half_edges@[b.0 as int].incident_face == target,
    decreases 6 - k,
{
    assert(slot_links(topology, t, k));
    assert(slot_links(topology, t, j0));
    let e = 6 * t + k;
    assert((e as usize) as int == e);
    let edge = topology.half_edges@[e];
    let found = match edge.twin {
        Some(twin) => twin.0 < topology.half_edges@.len() && topology.half_edges@[twin.0 as int].incident_face
            == target,
        None => false,
    };
    if !found {
        assert(k != j0);
        lemma_scan_finds(topology, t, target, k + 1, j0);
        assert(edge.next.0 == 6 * t + k + 1);
    }
}

/// The boundary scan of tile `ta`'s face toward its neighbor tile `tb` (in
/// direction `d`) finds a half-edge of `ta`'s face whose twin, on `tb`'s
/// face, links back and runs the other way.
#[verifier::spinoff_prover]
#[verifier::rlimit(40)]
proof fn lemma_face_pair_scan(
    tiles: Seq<HexCoord>,
    keys: Seq<SharedCornerKey>,
    positions: Seq<PositionBits>,
    topology: HexFaceTopology,
    ta: int,
    d: int,
    tb: int,
)
    requires
        assembled(tiles, keys, positions, topology),
        tiles_have_neighbors(tiles),
        0 <= ta < tiles.len(),
        0 <= tb < tiles.len(),
        0 <= d < 6,
        tiles[tb] == tiles[ta].neighbor(d),
    ensures
        adjacency_scan(topology, HalfEdgeId((6 * ta) as usize), FaceId(tb as usize), 6) matches Some((a, b)) && {
            let edges = topology.half_edges@;
            &&& a.0 < edges.len()
            &&& b.0 < edges.len()
            &&& edges[b.0 as int].twin == Some(a)
            &&& edges[a.0 as int].incident_face == FaceId(ta as usize)
            &&& edges[b.0 as int].incident_face == FaceId(tb as usize)
            &&& reverses(edges[a.0 as int], edges[b.0 as int])
        },
{
    lemma_assembled_side_twin(tiles, keys, positions, topology, ta, d, tb);
    let twin_index = 6 * tb + (8 - d) % 6;
    assert(0 <= twin_index < 6 * tiles.len()) by (nonlinear_arith)
        requires 0 <= tb < tiles.len(), twin_index == 6 * tb + (8 - d) % 6, 0 <= d < 6;
    lemma_assembled_edge(tiles, keys, positions, topology, twin_index);
    assert(twin_index / 6 == tb);
    assert(topology.half_edges@.len() == topology.half_edges.len());
    assert forall|j: int| 0 <= j < 6 implies #[trigger] slot_links(topology, ta, j) by {
        lemma_assembled_slot(tiles, keys, positions, topology, ta, j);
    }
    lemma_scan_finds(topology, ta, FaceId(tb as usize), 0, 5 - d);
    let (a, b) = adjacency_scan(topology, HalfEdgeId((6 * ta) as usize), FaceId(tb as usize), 6).unwrap();
    law_assembled_twins_are_symmetric(tiles, keys, positions, topology, a.0 as int);
    lemma_assembled_edge(tiles, keys, positions, topology, a.0 as int);
    assert((a.0 as int) / 6 == ta);
}

/// A cliff on the edge between two neighboring tiles of an assembled
/// topology binds.
#[verifier::spinoff_prover]
#[verifier::rlimit(40)]
proof fn lemma_neighbor_cliff_binds(
    layout: MapLayout,
    keys: Seq<SharedCornerKey>,
    positions: Seq<PositionBits>,
    topology: HexFaceTopology,
    entry: CliffEdgeEntry,
)
    requires
        assembled(layout.tile_seq(), keys, positions, topology),
        strictly_ascending(layout.tile_seq()),
        tiles_have_neighbors(layout.tile_seq()),
        is_neighbor_edge(layout.tile_seq(), entry.edge),
    ensures
        bind_spec(layout, topology, entry) is Ok,
{
    let tiles = layout.tile_seq();
    let (t, i) = choose|t: int, i: int|
        0 <= t < tiles.len() && 0 <= i < 6 && tiles.contains(tiles[t].neighbor(i)) && entry.edge == edge_between(
            tiles[t],
            tiles[t].neighbor(i),
        );
    let c = tiles[t];
    let n = c.neighbor(i);
    let g = choose|g: int| 0 <= g < tiles.len() && tiles[g] == n;
    lemma_neighbor_back(c, i);
    let (ta, tb, d) = if entry.edge.a == c {
        (t, g, i)
    } else {
        (g, t, (i + 3) % 6)
    };
    assert(tiles[tb] == tiles[ta].neighbor(d));
    lemma_mapped_tile(tiles, topology, ta);
    lemma_mapped_tile(tiles, topology, tb);
    assert(topology.faces@.len() == topology.faces.len());
    assert(topology.faces@[ta].boundary == HalfEdgeId((6 * ta) as usize));
    lemma_face_pair_scan(tiles, keys, positions, topology, ta, d, tb);
}

/// Cliffs that all lie between neighboring tiles bind, in any order.
proof fn lemma_neighbor_cliffs_bind(
    layout: MapLayout,
    keys: Seq<SharedCornerKey>,
    positions: Seq<PositionBits>,
    topology: HexFaceTopology,
    entries: Seq<CliffEdgeEntry>,
)
    requires
        assembled(layout.tile_seq(), keys, positions, topology),
        strictly_ascending(layout.tile_seq()),
        tiles_have_neighbors(layout.tile_seq()),
        forall|k: int| 0 <= k < entries.len() ==> is_neighbor_edge(layout.tile_seq(), (#[trigger] entries[k]).edge),
    ensures
        bind_all(layout, topology, entries) is Ok,
    decreases entries.len(),
{
    if entries.len() > 0 {
        let shorter = entries.drop_last();
        assert forall|k: int| 0 <= k < shorter.len() implies is_neighbor_edge(
            layout.tile_seq(),
            (#[trigger] shorter[k]).edge,
        ) by {
            assert(shorter[k] == entries[k]);
        }
        lemma_neighbor_cliffs_bind(layout, keys, positions, topology, shorter);
        lemma_neighbor_cliff_binds(layout, keys, positions, topology, entries.last());
    }
}

/// Every cliff between neighboring tiles binds: on an assembled topology,
/// binding a list of cliff entries that all lie between neighboring tiles
/// never fails, whatever order the entries are taken in.
pub proof fn law_neighbor_cliffs_bind(
    layout: MapLayout,
    keys: Seq<SharedCornerKey>,
    positions: Seq<PositionBits>,
    topology: HexFaceTopology,
    cliffs: Seq<CliffEdgeEntry>,
    order: Seq<CliffEdgeEntry>,
)
    requires
        assembled(layout.tile_seq(), keys, positions, topology),
        strictly_ascending(layout.tile_seq()),
        tiles_have_neighbors(layout.tile_seq()),
        forall|k: int| 0 <= k < cliffs.len() ==> is_neighbor_edge(layout.tile_seq(), (#[trigger] cliffs[k]).edge),
        order.to_set() == cliffs.to_set(),
    ensures
        bind_all(layout, topology, order) is Ok,
{
    assert forall|k: int| 0 <= k < order.len() implies is_neighbor_edge(
        layout.tile_seq(),
        (#[trigger] order[k]).edge,
    ) by {
        assert(order.to_set().contains(order[k]));
        assert(cliffs.to_set().contains(order[k]));
        let j = choose|j: int| 0 <= j < cliffs.len() && cliffs[j] == order[k];
        assert(is_neighbor_edge(layout.tile_seq(), cliffs[j].edge));
    }
    lemma_neighbor_cliffs_bind(layout, keys, positions, topology, order);
}

/// The planned cliffs lie on the planned edges.
proof fn lemma_planned_cliffs_on_edges(
    tiles: Seq<HexCoord>,
    info: Seq<CliffTile>,
    distances: Seq<Option<u32>>,
    fault: Seq<bool>,
    edges: Seq<EdgeCoord>,
    n: int,
)
    requires
        0 <= n <= edges.len(),
    ensures
        forall|k: int|
            0 <= k < planned_cliffs(tiles, info, distances, fault, edges, n).len() ==> edges.contains(
                (#[trigger] planned_cliffs(tiles, info, distances, fault, edges, n)[k]).edge,
            ),
    decreases n,
{
    if n > 0 {
        lemma_planned_cliffs_on_edges(tiles, info, distances, fault, edges, n - 1);
        let earlier = planned_cliffs(tiles, info, distances, fault, edges, n - 1);
        let now = planned_cliffs(tiles, info, distances, fault, edges, n);
        assert forall|k: int| 0 <= k < now.len() implies edges.contains((#[trigger] now[k]).edge) by {
            if k < earlier.len() {
                assert(now[k] == earlier[k]);
            } else {
                assert(now[k].edge == edges[n - 1]);
            }
        }
    }
}

/// Every cliff that generation places binds: on an assembled topology, the
/// cliffs planned over the edges between neighboring tiles bind, in any
/// order.
pub proof fn law_generated_cliffs_bind(
    layout: MapLayout,
    keys: Seq<SharedCornerKey>,
    positions: Seq<PositionBits>,
    topology: HexFaceTopology,
    info: Seq<CliffTile>,
    distances: Seq<Option<u32>>,
    fault: Seq<bool>,
    edges: Seq<EdgeCoord>,
    order: Seq<CliffEdgeEntry>,
)
    requires
        assembled(layout.tile_seq(), keys, positions, topology),
        strictly_ascending(layout.tile_seq()),
        tiles_have_neighbors(layout.tile_seq()),
        forall|edge: EdgeCoord| edges.contains(edge) <==> is_neighbor_edge(layout.tile_seq(), edge),
        order.to_set() == planned_cliffs(layout.tile_seq(), info, distances, fault, edges, edges.len() as int).to_set(),
    ensures
        bind_all(layout, topology, order) is Ok,
{
    let cliffs = planned_cliffs(layout.tile_seq(), info, distances, fault, edges, edges.len() as int);
    lemma_planned_cliffs_on_edges(layout.tile_seq(), info, distances, fault, edges, edges.len() as int);
    assert forall|k: int| 0 <= k < cliffs.len() implies is_neighbor_edge(
        layout.tile_seq(),
        (#[trigger] cliffs[k]).edge,
    ) by {
        assert(edges.contains(cliffs[k].edge));
    }
    law_neighbor_cliffs_bind(layout, keys, positions, topology, cliffs, order);
}

} // verus!
