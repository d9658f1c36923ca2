//! Exact logical adjacency of assembled topologies.
//!
//! A corner's key lists the three cells meeting there, so two cells that
//! share a corner key are neighbors, and a neighbor is a cell of exactly the
//! two corners at the ends of the side facing it. From these two facts the
//! assembled topology's sides, half-edges and twins are exactly those of the
//! hex grid.
use vstd::prelude::*;

use crate::corner_key::{
    corner_cells, corner_key_spec, corner_neighbor_directions, lemma_corner_key_spec,
    lemma_corner_keys_distinct, lemma_side_shared_with_neighbor,
};
use crate::hex_coord::HexCoord;
use crate::map_layout::MapLayout;
use crate::logical_adjacency::{
    half_edge_key, logical_adjacency_ok, neighbor_pair_exact, pair_key, shared_half_edges, shared_vertices, shared_half_edges_ok, shared_side_keys, shared_sides_ok, side_key, twin_link_fault,
    twin_links_ok,
};
use crate::sorted_set::{strictly_ascending, StrictOrder};
use crate::topology::{
    all_corner_keys_present, assembled, is_tile_corner_key, lemma_direction_key_injective, planned_directions_distinct,
    planned_half_edge, planned_vertex, same_direction, tiles_have_neighbors, HexFaceTopology,
};
use crate::topology_laws::{
    lemma_assembled_edge, lemma_assembled_side_twin, lemma_assembled_twin_neighbors,
    lemma_key_index, lemma_mapped_tile, lemma_neighbor_injective, lemma_planned_vertex_injective,
    law_assembled_twins_are_symmetric,
};
use crate::validation::mapped_face;
use crate::types::{FaceId, HalfEdge, HalfEdgeId, HexFace, PositionBits, SharedCornerKey, VertexId};

verus! {

/// A neighbor is a cell of exactly the two corners at the ends of the side
/// facing it.
proof fn lemma_neighbor_in_corner(c: HexCoord, d: int, k: int)
    requires
        c.has_neighbors(),
        0 <= d < 6,
        0 <= k < 6,
    ensures
        corner_cells(c, k).contains(c.neighbor(d)) <==> (k == 5 - d || k == (6 - d) % 6),
{
    let dirs = corner_neighbor_directions(k);
    assert(k % 6 == k);
    assert(corner_cells(c, k) == set![c, c.neighbor(dirs.0), c.neighbor(dirs.1)]);
    if c.neighbor(d) == c.neighbor(dirs.0) {
        lemma_neighbor_injective(c, d, dirs.0);
    }
    if c.neighbor(d) == c.neighbor(dirs.1) {
        lemma_neighbor_injective(c, d, dirs.1);
    }
}

/// A corner of `c` keyed like some corner of its neighbor in direction `d`
/// is at an end of the side facing that neighbor.
proof fn lemma_corner_shared_with_neighbor(c: HexCoord, d: int, k: int, m: int)
    requires
        c.has_neighbors(),
        c.neighbor(d).has_neighbors(),
        0 <= d < 6,
        0 <= k < 6,
        0 <= m < 6,
        corner_key_spec(c, k) == corner_key_spec(c.neighbor(d), m),
    ensures
        k == 5 - d || k == (6 - d) % 6,
{
    lemma_corner_key_spec(c, k);
    lemma_corner_key_spec(c.neighbor(d), m);
    assert(m % 6 == m);
    assert(corner_cells(c.neighbor(d), m).contains(c.neighbor(d)));
    lemma_neighbor_in_corner(c, d, k);
}

/// Two different cells with a common corner key are neighbors.
proof fn lemma_shared_corner_neighbors(c: HexCoord, x: HexCoord, k: int, m: int) -> (d: int)
    requires
        c.has_neighbors(),
        x.has_neighbors(),
        c != x,
        0 <= k < 6,
        0 <= m < 6,
        corner_key_spec(c, k) == corner_key_spec(x, m),
    ensures
        0 <= d < 6,
        x == c.neighbor(d),
        c.is_neighbor_of(x),
{
    lemma_corner_key_spec(c, k);
    lemma_corner_key_spec(x, m);
    assert(m % 6 == m);
    assert(k % 6 == k);
    assert(corner_cells(x, m).contains(x));
    let dirs = corner_neighbor_directions(k);
    if x == c.neighbor(dirs.0) {
        dirs.0
    } else {
        dirs.1
    }
}

/// A different cell that shares the keys of two consecutive corners `k` and
/// `k + 1` of `c` is the neighbor across side `k`.
proof fn lemma_shared_side_neighbor(c: HexCoord, x: HexCoord, k: int, m1: int, m2: int)
    requires
        c.has_neighbors(),
        x.has_neighbors(),
        c != x,
        0 <= k < 6,
        0 <= m1 < 6,
        0 <= m2 < 6,
        corner_key_spec(c, k) == corner_key_spec(x, m1),
        corner_key_spec(c, (k + 1) % 6) == corner_key_spec(x, m2),
    ensures
        x == c.neighbor(5 - k),
{
    let d = lemma_shared_corner_neighbors(c, x, k, m1);
    lemma_corner_shared_with_neighbor(c, d, k, m1);
    lemma_corner_shared_with_neighbor(c, d, (k + 1) % 6, m2);
}

/// Equal undirected keys join the same two vertices.
proof fn lemma_pair_key_equal(a: VertexId, b: VertexId, c: VertexId, d: VertexId)
    requires
        pair_key(a, b) == pair_key(c, d),
    ensures
        (a == c && b == d) || (a == d && b == c),
{
    lemma_direction_key_injective(a.0, b.0, c.0, d.0);
    lemma_direction_key_injective(b.0, a.0, c.0, d.0);
    lemma_direction_key_injective(a.0, b.0, d.0, c.0);
    lemma_direction_key_injective(b.0, a.0, d.0, c.0);
}

/// Corner vertices of assembled faces are equal exactly when their corner
/// keys are.
proof fn lemma_planned_vertex_equal(
    tiles: Seq<HexCoord>,
    keys: Seq<SharedCornerKey>,
    positions: Seq<PositionBits>,
    topology: HexFaceTopology,
    f: int,
    i: int,
    g: int,
    j: int,
)
    requires
        assembled(tiles, keys, positions, topology),
        0 <= f < tiles.len(),
        0 <= g < tiles.len(),
        0 <= i < 6,
        0 <= j < 6,
    ensures
        0 <= planned_vertex(keys, tiles, f, i) < keys.len(),
        topology.faces@[f].vertices[i] == VertexId(planned_vertex(keys, tiles, f, i) as usize),
        (topology.faces@[f].vertices[i] == topology.faces@[g].vertices[j]) <==> corner_key_spec(tiles[f], i)
            == corner_key_spec(tiles[g], j),
        (planned_vertex(keys, tiles, f, i) == planned_vertex(keys, tiles, g, j)) <==> corner_key_spec(
            tiles[f],
            i,
        ) == corner_key_spec(tiles[g], j),
{
    assert(topology.vertices@.len() == topology.vertices.len());
    assert(keys.contains(corner_key_spec(tiles[f], i)));
    assert(keys.contains(corner_key_spec(tiles[g], j)));
    lemma_key_index(keys, corner_key_spec(tiles[f], i));
    lemma_key_index(keys, corner_key_spec(tiles[g], j));
    assert(topology.faces@[f].vertices[i] == VertexId(planned_vertex(keys, tiles, f, i) as usize));
    assert(topology.faces@[g].vertices[j] == VertexId(planned_vertex(keys, tiles, g, j) as usize));
    if planned_vertex(keys, tiles, f, i) == planned_vertex(keys, tiles, g, j) {
        lemma_planned_vertex_injective(tiles, keys, f, i, g, j);
    }
}

/// The twin link of half-edge `e` of an assembled topology is sound.
#[verifier::spinoff_prover]
proof fn lemma_assembled_twin_link(
    tiles: Seq<HexCoord>,
    keys: Seq<SharedCornerKey>,
    positions: Seq<PositionBits>,
    topology: HexFaceTopology,
    e: int,
)
    requires
        assembled(tiles, keys, positions, topology),
        strictly_ascending(tiles),
        tiles_have_neighbors(tiles),
        0 <= e < topology.half_edges@.len(),
    ensures
        twin_link_fault(topology, e) is None,
{
    if topology.half_edges@[e].twin is Some {
        let t = topology.half_edges@[e].twin.unwrap().0 as int;
        law_assembled_twins_are_symmetric(tiles, keys, positions, topology, e);
        lemma_assembled_twin_neighbors(tiles, keys, positions, topology, e);
        lemma_assembled_edge(tiles, keys, positions, topology, e);
        lemma_assembled_edge(tiles, keys, positions, topology, t);
        assert(topology.faces@.len() == topology.faces.len());
        assert(topology.faces@[e / 6].hex == tiles[e / 6]);
        assert(topology.faces@[t / 6].hex == tiles[t / 6]);
    }
}

/// Every twin link of an assembled topology joins faces of neighboring
/// cells, runs the other way and links back.
proof fn lemma_assembled_twin_links(
    tiles: Seq<HexCoord>,
    keys: Seq<SharedCornerKey>,
    positions: Seq<PositionBits>,
    topology: HexFaceTopology,
)
    requires
        assembled(tiles, keys, positions, topology),
        strictly_ascending(tiles),
        tiles_have_neighbors(tiles),
    ensures
        twin_links_ok(topology),
{
    assert forall|e: int| 0 <= e < topology.half_edges@.len() implies #[trigger] twin_link_fault(topology, e) is None by {
        lemma_assembled_twin_link(tiles, keys, positions, topology, e);
    }
}

/// Faces of an assembled topology that share a side lie on neighboring
/// cells.
#[verifier::spinoff_prover]
proof fn lemma_assembled_shared_sides(
    tiles: Seq<HexCoord>,
    keys: Seq<SharedCornerKey>,
    positions: Seq<PositionBits>,
    topology: HexFaceTopology,
)
    requires
        assembled(tiles, keys, positions, topology),
        strictly_ascending(tiles),
        tiles_have_neighbors(tiles),
    ensures
        shared_sides_ok(topology),
{
    let faces = topology.faces@;
    assert forall|f: int, g: int, i: int, j: int|
        0 <= f < g < faces.len() && 0 <= i < 6 && 0 <= j < 6 && #[trigger] side_key(faces[f], i)
            == #[trigger] side_key(faces[g], j) implies faces[f].hex.is_neighbor_of(faces[g].hex) by {
        lemma_pair_key_equal(
            faces[f].vertices[i],
            faces[f].vertices[(i + 1) % 6],
            faces[g].vertices[j],
            faces[g].vertices[(j + 1) % 6],
        );
        lemma_planned_vertex_equal(tiles, keys, positions, topology, f, i, g, j);
        lemma_planned_vertex_equal(tiles, keys, positions, topology, f, i, g, (j + 1) % 6);
        assert(tiles[f].ordered_before(tiles[g]));
        let m = if faces[f].vertices[i] == faces[g].vertices[j] {
            j
        } else {
            (j + 1) % 6
        };
        lemma_shared_corner_neighbors(tiles[f], tiles[g], i, m);
    }
}

/// Two half-edges of different faces of an assembled topology on one
/// undirected edge lie on neighboring cells and both have twins.
#[verifier::spinoff_prover]
proof fn lemma_assembled_shared_half_edge(
    tiles: Seq<HexCoord>,
    keys: Seq<SharedCornerKey>,
    positions: Seq<PositionBits>,
    topology: HexFaceTopology,
    a: int,
    b: int,
)
    requires
        assembled(tiles, keys, positions, topology),
        strictly_ascending(tiles),
        tiles_have_neighbors(tiles),
        0 <= a < topology.half_edges@.len(),
        0 <= b < topology.half_edges@.len(),
        half_edge_key(topology.half_edges@[a]) == half_edge_key(topology.half_edges@[b]),
        topology.half_edges@[a].incident_face != topology.half_edges@[b].incident_face,
    ensures
        topology.half_edges@[a].incident_face.0 < topology.faces@.len(),
        topology.half_edges@[b].incident_face.0 < topology.faces@.len(),
        topology.faces@[topology.half_edges@[a].incident_face.0 as int].hex.is_neighbor_of(
            topology.faces@[topology.half_edges@[b].incident_face.0 as int].hex,
        ),
        topology.half_edges@[a].twin is Some,
        topology.half_edges@[b].twin is Some,
{
    let edges = topology.half_edges@;
    lemma_assembled_edge(tiles, keys, positions, topology, a);
    lemma_assembled_edge(tiles, keys, positions, topology, b);
    let fa = a / 6;
    let i = a % 6;
    let fb = b / 6;
    let j = b % 6;
    assert(fa != fb);
    let ca = tiles[fa];
    let cb = tiles[fb];
    lemma_pair_key_equal(edges[a].origin, edges[a].destination, edges[b].origin, edges[b].destination);
    lemma_planned_vertex_equal(tiles, keys, positions, topology, fa, i, fb, j);
    lemma_planned_vertex_equal(tiles, keys, positions, topology, fa, i, fb, (j + 1) % 6);
    lemma_planned_vertex_equal(tiles, keys, positions, topology, fa, (i + 1) % 6, fb, j);
    lemma_planned_vertex_equal(tiles, keys, positions, topology, fa, (i + 1) % 6, fb, (j + 1) % 6);
    if fa < fb {
        assert(tiles[fa].ordered_before(tiles[fb]));
    } else {
        assert(tiles[fb].ordered_before(tiles[fa]));
    }
    assert(ca != cb);
    if edges[a].origin == edges[b].origin {
        lemma_shared_side_neighbor(ca, cb, i, j, (j + 1) % 6);
        lemma_shared_side_neighbor(cb, ca, j, i, (i + 1) % 6);
    } else {
        lemma_shared_side_neighbor(ca, cb, i, (j + 1) % 6, j);
        lemma_shared_side_neighbor(cb, ca, j, (i + 1) % 6, i);
    }
    lemma_assembled_side_twin(tiles, keys, positions, topology, fa, 5 - i, fb);
    lemma_assembled_side_twin(tiles, keys, positions, topology, fb, 5 - j, fa);
    assert(topology.faces@.len() == topology.faces.len());
    assert(topology.faces@[fa].hex == ca);
    assert(topology.faces@[fb].hex == cb);
    assert(0 <= 5 - i < 6 && ca.neighbor(5 - i) == cb);
}

/// Half-edges of different faces on one undirected edge of an assembled
/// topology lie on neighboring cells and both have twins.
proof fn lemma_assembled_shared_half_edges(
    tiles: Seq<HexCoord>,
    keys: Seq<SharedCornerKey>,
    positions: Seq<PositionBits>,
    topology: HexFaceTopology,
)
    requires
        assembled(tiles, keys, positions, topology),
        strictly_ascending(tiles),
        tiles_have_neighbors(tiles),
    ensures
        shared_half_edges_ok(topology),
{
    let edges = topology.half_edges@;
    assert forall|a: int, b: int|
        0 <= a < b < edges.len() && #[trigger] half_edge_key(edges[a]) == #[trigger] half_edge_key(edges[b])
            && edges[a].incident_face != edges[b].incident_face implies {
            &&& edges[a].incident_face.0 < topology.faces@.len()
            &&& edges[b].incident_face.0 < topology.faces@.len()
            &&& topology.faces@[edges[a].incident_face.0 as int].hex.is_neighbor_of(
                topology.faces@[edges[b].incident_face.0 as int].hex,
            )
            &&& edges[a].twin is Some
            &&& edges[b].twin is Some
        } by {
        lemma_assembled_shared_half_edge(tiles, keys, positions, topology, a, b);
    }
}

/// A face whose only side with both ends in `shared` is side `k0` has that
/// side's key as its one shared side key.
proof fn lemma_one_shared_side(face: HexFace, shared: Set<VertexId>, k0: int, n: int)
    requires
        0 <= k0 < 6,
        0 <= n <= 6,
        forall|k: int|
            0 <= k < 6 ==> ((shared.contains(#[trigger] face.vertices[k]) && shared.contains(
                face.vertices[(k + 1) % 6],
            )) <==> k == k0),
    ensures
        shared_side_keys(face, shared, n) == (if k0 < n {
            seq![pair_key(face.vertices[k0], face.vertices[(k0 + 1) % 6])]
        } else {
            Seq::<u128>::empty()
        }),
    decreases n,
{
    if n > 0 {
        lemma_one_shared_side(face, shared, k0, n - 1);
        let k = n - 1;
        assert(shared.contains(face.vertices[k]) && shared.contains(face.vertices[(k + 1) % 6]) <==> k == k0);
        if k == k0 {
            assert(Seq::<u128>::empty().push(pair_key(face.vertices[k0], face.vertices[(k0 + 1) % 6]))
                =~= seq![pair_key(face.vertices[k0], face.vertices[(k0 + 1) % 6])]);
        }
    }
}

/// Where half-edge `e0` is the only one of `face` between two vertices of
/// `shared`, it is the one shared half-edge found.
proof fn lemma_one_shared_half_edge(edges: Seq<HalfEdge>, face: FaceId, shared: Set<VertexId>, e0: int, n: int)
    requires
        0 <= e0 < edges.len(),
        0 <= n <= edges.len(),
        edges.len() <= usize::MAX,
        forall|e: int|
            0 <= e < edges.len() ==> ((#[trigger] edges[e]).incident_face == face && shared.contains(
                edges[e].origin,
            ) && shared.contains(edges[e].destination) <==> e == e0),
    ensures
        shared_half_edges(edges, face, shared, n) == (if e0 < n {
            seq![HalfEdgeId(e0 as usize)]
        } else {
            Seq::<HalfEdgeId>::empty()
        }),
    decreases n,
{
    if n > 0 {
        lemma_one_shared_half_edge(edges, face, shared, e0, n - 1);
        let e = n - 1;
        assert(edges[e].incident_face == face && shared.contains(edges[e].origin) && shared.contains(
            edges[e].destination,
        ) <==> e == e0);
        if e == e0 {
            assert(Seq::<HalfEdgeId>::empty().push(HalfEdgeId(e0 as usize)) =~= seq![HalfEdgeId(e0 as usize)]);
        }
    }
}

/// The two sides of neighboring cells `c` and `c.neighbor(d)` run between
/// the same corners.
pub(crate) proof fn lemma_neighbor_back(c: HexCoord, d: int)
    requires
        c.has_neighbors(),
        c.neighbor(d).has_neighbors(),
        0 <= d < 6,
    ensures
        c.neighbor(d).neighbor((d + 3) % 6) == c,
        5 - (d + 3) % 6 == (8 - d) % 6,
        (8 - (d + 3) % 6) % 6 == 5 - d,
        (6 - d) % 6 == (5 - d + 1) % 6,
        (9 - d) % 6 == ((8 - d) % 6 + 1) % 6,
{
}

/// The vertices of tile `t`'s face that its neighbor tile `g` (direction
/// `d`) also has are exactly the two at the ends of side `5 - d`, which are
/// the ends of `g`'s side `(8 - d) % 6`, the other way round.
#[verifier::spinoff_prover]
proof fn lemma_neighbor_face_vertices(
    tiles: Seq<HexCoord>,
    keys: Seq<SharedCornerKey>,
    positions: Seq<PositionBits>,
    topology: HexFaceTopology,
    t: int,
    d: int,
    g: int,
)
    requires
        assembled(tiles, keys, positions, topology),
        tiles_have_neighbors(tiles),
        0 <= t < tiles.len(),
        0 <= g < tiles.len(),
        0 <= d < 6,
        tiles[g] == tiles[t].neighbor(d),
    ensures
        ({
            let va = topology.faces@[t].vertices;
            let vb = topology.faces@[g].vertices;
            &&& va[5 - d] != va[(6 - d) % 6]
            &&& vb[(8 - d) % 6] == va[(6 - d) % 6]
            &&& vb[(9 - d) % 6] == va[5 - d]
            &&& forall|k: int|
                0 <= k < 6 ==> (#[trigger] vb@.contains(va[k]) <==> (k == 5 - d || k == (6 - d) % 6))
            &&& forall|k: int|
                0 <= k < 6 ==> ((#[trigger] va[k] == va[5 - d]) <==> k == 5 - d)
            &&& forall|k: int|
                0 <= k < 6 ==> ((#[trigger] va[k] == va[(6 - d) % 6]) <==> k == (6 - d) % 6)
            &&& forall|m: int|
                0 <= m < 6 ==> ((#[trigger] vb[m] == va[5 - d]) <==> m == (9 - d) % 6)
            &&& forall|m: int|
                0 <= m < 6 ==> ((#[trigger] vb[m] == va[(6 - d) % 6]) <==> m == (8 - d) % 6)
        }),
{
    let c = tiles[t];
    let n = tiles[g];
    let va = topology.faces@[t].vertices;
    let vb = topology.faces@[g].vertices;
    let a0 = 5 - d;
    let a1 = (6 - d) % 6;
    let b0 = (8 - d) % 6;
    let b1 = (9 - d) % 6;
    lemma_side_shared_with_neighbor(c, d);
    lemma_planned_vertex_equal(tiles, keys, positions, topology, t, a0, g, b1);
    lemma_planned_vertex_equal(tiles, keys, positions, topology, t, a1, g, b0);
    lemma_planned_vertex_equal(tiles, keys, positions, topology, t, a0, t, a1);
    lemma_corner_keys_distinct(c, a0, a1);
    assert forall|k: int| 0 <= k < 6 implies (#[trigger] vb@.contains(va[k]) <==> (k == a0 || k == a1)) by {
        if vb@.contains(va[k]) {
            let m = choose|m: int| 0 <= m < vb@.len() && vb@[m] == va[k];
            lemma_planned_vertex_equal(tiles, keys, positions, topology, t, k, g, m);
            lemma_corner_shared_with_neighbor(c, d, k, m);
        }
        if k == a0 {
            assert(vb@[b1] == va[k]);
        }
        if k == a1 {
            assert(vb@[b0] == va[k]);
        }
    }
    assert forall|k: int| 0 <= k < 6 implies ((#[trigger] va[k] == va[a0]) <==> k == a0) by {
        lemma_planned_vertex_equal(tiles, keys, positions, topology, t, k, t, a0);
        if k != a0 {
            lemma_corner_keys_distinct(c, k, a0);
        }
    }
    assert forall|k: int| 0 <= k < 6 implies ((#[trigger] va[k] == va[a1]) <==> k == a1) by {
        lemma_planned_vertex_equal(tiles, keys, positions, topology, t, k, t, a1);
        if k != a1 {
            lemma_corner_keys_distinct(c, k, a1);
        }
    }
    assert forall|m: int| 0 <= m < 6 implies ((#[trigger] vb[m] == va[a0]) <==> m == b1) by {
        lemma_planned_vertex_equal(tiles, keys, positions, topology, g, m, g, b1);
        if m != b1 {
            lemma_corner_keys_distinct(n, m, b1);
        }
    }
    assert forall|m: int| 0 <= m < 6 implies ((#[trigger] vb[m] == va[a1]) <==> m == b0) by {
        lemma_planned_vertex_equal(tiles, keys, positions, topology, g, m, g, b0);
        if m != b0 {
            lemma_corner_keys_distinct(n, m, b0);
        }
    }
}

/// The half-edges of face `f` of an assembled topology between two vertices
/// of `shared` are the one on side `s0`, where that is its only side with
/// both ends in `shared`.
#[verifier::spinoff_prover]
proof fn lemma_face_shared_half_edges(
    tiles: Seq<HexCoord>,
    keys: Seq<SharedCornerKey>,
    positions: Seq<PositionBits>,
    topology: HexFaceTopology,
    f: int,
    shared: Set<VertexId>,
    s0: int,
)
    requires
        assembled(tiles, keys, positions, topology),
        0 <= f < tiles.len(),
        0 <= s0 < 6,
        forall|k: int|
            0 <= k < 6 ==> ((shared.contains(#[trigger] topology.faces@[f].vertices[k]) && shared.contains(
                topology.faces@[f].vertices[(k + 1) % 6],
            )) <==> k == s0),
    ensures
        6 * f + s0 < topology.half_edges@.len(),
        shared_half_edges(
            topology.half_edges@,
            FaceId(f as usize),
            shared,
            topology.half_edges@.len() as int,
        ) == seq![HalfEdgeId((6 * f + s0) as usize)],
{
    let edges = topology.half_edges@;
    let e0 = 6 * f + s0;
    assert(e0 < 6 * tiles.len()) by (nonlinear_arith)
        requires 0 <= f < tiles.len(), 0 <= s0 < 6, e0 == 6 * f + s0;
    assert(edges.len() == topology.half_edges.len());
    assert forall|e: int| 0 <= e < edges.len() implies ((#[trigger] edges[e]).incident_face == FaceId(f as usize)
        && shared.contains(edges[e].origin) && shared.contains(edges[e].destination) <==> e == e0) by {
        lemma_assembled_edge(tiles, keys, positions, topology, e);
        let h = e / 6;
        let k = e % 6;
        lemma_planned_vertex_equal(tiles, keys, positions, topology, h, k, h, k);
        lemma_planned_vertex_equal(tiles, keys, positions, topology, h, (k + 1) % 6, h, (k + 1) % 6);
        assert(edges[e].origin == topology.faces@[h].vertices[k]);
        assert(edges[e].destination == topology.faces@[h].vertices[(k + 1) % 6]);
        if h == f {
            assert(shared.contains(topology.faces@[f].vertices[k]) && shared.contains(
                topology.faces@[f].vertices[(k + 1) % 6],
            ) <==> k == s0);
        }
    }
    lemma_one_shared_half_edge(edges, FaceId(f as usize), shared, e0, edges.len() as int);
}

/// The faces of neighboring tiles `t` and `t`'s neighbor in direction `d`
/// of an assembled topology share exactly one reciprocal side.
#[verifier::spinoff_prover]
#[verifier::rlimit(40)]
proof fn lemma_assembled_pair_exact(
    layout: MapLayout,
    keys: Seq<SharedCornerKey>,
    positions: Seq<PositionBits>,
    topology: HexFaceTopology,
    t: int,
    d: int,
)
    requires
        assembled(layout.tile_seq(), keys, positions, topology),
        strictly_ascending(layout.tile_seq()),
        tiles_have_neighbors(layout.tile_seq()),
        0 <= t < layout.tile_seq().len(),
        0 <= d < 6,
        layout.has_tile(layout.tile_seq()[t].neighbor(d)),
    ensures
        neighbor_pair_exact(topology, layout.tile_seq()[t], layout.tile_seq()[t].neighbor(d)),
{
    let tiles = layout.tile_seq();
    let c = tiles[t];
    let n = c.neighbor(d);
    let g = choose|g: int| 0 <= g < tiles.len() && tiles[g] == n;
    lemma_mapped_tile(tiles, topology, t);
    lemma_mapped_tile(tiles, topology, g);
    assert(topology.faces@.len() == topology.faces.len());
    lemma_neighbor_face_vertices(tiles, keys, positions, topology, t, d, g);
    lemma_neighbor_back(c, d);
    let face_a = topology.faces@[t];
    let face_b = topology.faces@[g];
    let va = face_a.vertices;
    let vb = face_b.vertices;
    let a0 = 5 - d;
    let a1 = (6 - d) % 6;
    let b0 = (8 - d) % 6;
    let b1 = (9 - d) % 6;
    let shared = shared_vertices(face_a, face_b);
    assert forall|x: VertexId| shared.contains(x) <==> (x == va[a0] || x == va[a1]) by {
        if shared.contains(x) {
            assert(va@.to_set().contains(x));
            let k = choose|k: int| 0 <= k < va@.len() && va@[k] == x;
            assert(vb@.contains(va[k]));
        }
        if x == va[a0] {
            assert(va@[a0] == x);
            assert(vb@.contains(va[a0]));
        }
        if x == va[a1] {
            assert(va@[a1] == x);
            assert(vb@.contains(va[a1]));
        }
    }
    assert(shared =~= set![va[a0], va[a1]]);
    assert(shared.len() == 2);
    assert forall|k: int| 0 <= k < 6 implies ((shared.contains(#[trigger] va[k]) && shared.contains(
        va[(k + 1) % 6],
    )) <==> k == a0) by {
        assert(va[(k + 1) % 6] == va[a0] <==> (k + 1) % 6 == a0);
        assert(va[(k + 1) % 6] == va[a1] <==> (k + 1) % 6 == a1);
    }
    assert forall|m: int| 0 <= m < 6 implies ((shared.contains(#[trigger] vb[m]) && shared.contains(
        vb[(m + 1) % 6],
    )) <==> m == b0) by {
        assert(vb[(m + 1) % 6] == va[a0] <==> (m + 1) % 6 == b1);
        assert(vb[(m + 1) % 6] == va[a1] <==> (m + 1) % 6 == b0);
    }
    lemma_one_shared_side(face_a, shared, a0, 6);
    lemma_one_shared_side(face_b, shared, b0, 6);
    lemma_face_shared_half_edges(tiles, keys, positions, topology, t, shared, a0);
    lemma_face_shared_half_edges(tiles, keys, positions, topology, g, shared, b0);
    let ea = 6 * t + a0;
    let eb = 6 * g + b0;
    lemma_assembled_edge(tiles, keys, positions, topology, ea);
    lemma_assembled_edge(tiles, keys, positions, topology, eb);
    lemma_planned_vertex_equal(tiles, keys, positions, topology, t, a0, t, a0);
    lemma_planned_vertex_equal(tiles, keys, positions, topology, t, a1, t, a1);
    lemma_planned_vertex_equal(tiles, keys, positions, topology, g, b0, g, b0);
    lemma_planned_vertex_equal(tiles, keys, positions, topology, g, b1, g, b1);
    assert(ea / 6 == t && ea % 6 == a0);
    assert(eb / 6 == g && eb % 6 == b0);
    lemma_assembled_side_twin(tiles, keys, positions, topology, t, d, g);
    lemma_assembled_side_twin(tiles, keys, positions, topology, g, (d + 3) % 6, t);
    let edges = topology.half_edges@;
    let fa = FaceId(t as usize);
    let fb = FaceId(g as usize);
    assert(mapped_face(topology, c) == Some(fa));
    assert(mapped_face(topology, n) == Some(fb));
    let keys_a = shared_side_keys(face_a, shared, 6);
    let keys_b = shared_side_keys(face_b, shared, 6);
    assert(keys_a.len() == 1);
    assert(keys_b.len() == 1);
    assert(keys_a[0] == keys_b[0]);
    let halves_a = shared_half_edges(edges, fa, shared, edges.len() as int);
    let halves_b = shared_half_edges(edges, fb, shared, edges.len() as int);
    assert(edges.len() == topology.half_edges.len());
    assert(halves_a[0] == HalfEdgeId(ea as usize));
    assert(halves_a[0].0 as int == ea);
    assert(halves_b[0].0 as int == eb);
    assert(edges[ea].origin == va[a0]);
    assert(edges[ea].destination == va[a1]);
    assert(edges[eb].origin == vb[b0]);
    assert(edges[eb].destination == vb[b1]);
    assert(edges[ea].twin == Some(halves_b[0]));
    assert(edges[eb].twin == Some(halves_a[0]));
}

/// The logical adjacency of an assembled topology is exact: every two
/// neighboring tiles' faces share exactly one side, carried by one half-edge
/// of each, running opposite ways and twinned with each other; every twin
/// joins faces of neighboring cells; and only faces of neighboring cells
/// share a side or an undirected edge.
pub proof fn law_assembled_adjacency_is_exact(
    layout: MapLayout,
    keys: Seq<SharedCornerKey>,
    positions: Seq<PositionBits>,
    topology: HexFaceTopology,
)
    requires
        assembled(layout.tile_seq(), keys, positions, topology),
        strictly_ascending(layout.tile_seq()),
        tiles_have_neighbors(layout.tile_seq()),
    ensures
        logical_adjacency_ok(topology, layout),
{
    let tiles = layout.tile_seq();
    assert forall|t: int, i: int|
        0 <= t < tiles.len() && 0 <= i < 6 && tiles[t].precedes(tiles[t].neighbor(i)) && layout.has_tile(
            tiles[t].neighbor(i),
        ) implies #[trigger] neighbor_pair_exact(topology, tiles[t], tiles[t].neighbor(i)) by {
        lemma_assembled_pair_exact(layout, keys, positions, topology, t, i);
    }
    lemma_assembled_twin_links(tiles, keys, positions, topology);
    lemma_assembled_shared_sides(tiles, keys, positions, topology);
    lemma_assembled_shared_half_edges(tiles, keys, positions, topology);
}

/// A side's ordered pair of corner keys determines its cell and its place:
/// sides of two cells running between the same corners in the same direction
/// are the same side of the same cell.
proof fn lemma_side_direction_unique(c: HexCoord, x: HexCoord, k: int, m: int)
    requires
        c.has_neighbors(),
        x.has_neighbors(),
        0 <= k < 6,
        0 <= m < 6,
        corner_key_spec(c, k) == corner_key_spec(x, m),
        corner_key_spec(c, (k + 1) % 6) == corner_key_spec(x, (m + 1) % 6),
    ensures
        c == x,
        k == m,
{
    if c != x {
        lemma_shared_side_neighbor(c, x, k, m, (m + 1) % 6);
        let d = 5 - k;
        lemma_side_shared_with_neighbor(c, d);
        assert((6 - d) % 6 == (k + 1) % 6);
        if m != (9 - d) % 6 {
            lemma_corner_keys_distinct(x, m, (9 - d) % 6);
        }
        if (m + 1) % 6 != (8 - d) % 6 {
            lemma_corner_keys_distinct(x, (m + 1) % 6, (8 - d) % 6);
        }
    } else if k != m {
        lemma_corner_keys_distinct(c, k, m);
    }
}

/// A map's own corner keys always assemble: every corner key of every tile is
/// among them, and no two planned half-edges run between the same corners in
/// the same direction, so assembly succeeds on every map with a tile.
pub proof fn law_own_corner_keys_assemble(layout: MapLayout, keys: Seq<SharedCornerKey>)
    requires
        tiles_have_neighbors(layout.tile_seq()),
        strictly_ascending(layout.tile_seq()),
        keys.len() <= usize::MAX,
        forall|key: SharedCornerKey| keys.contains(key) <==> is_tile_corner_key(layout.tile_seq(), key),
    ensures
        all_corner_keys_present(keys, layout.tile_seq()),
        planned_directions_distinct(keys, layout.tile_seq()),
{
    let tiles = layout.tile_seq();
    assert forall|t: int, i: int| 0 <= t < tiles.len() && 0 <= i < 6 implies keys.contains(
        #[trigger] corner_key_spec(tiles[t], i),
    ) by {
        assert(is_tile_corner_key(tiles, corner_key_spec(tiles[t], i)));
    }
    assert forall|a: int, b: int| 0 <= a < b < 6 * tiles.len() implies !same_direction(
        #[trigger] planned_half_edge(keys, tiles, a, None),
        #[trigger] planned_half_edge(keys, tiles, b, None),
    ) by {
        let fa = a / 6;
        let ia = a % 6;
        let fb = b / 6;
        let ib = b % 6;
        if same_direction(planned_half_edge(keys, tiles, a, None), planned_half_edge(keys, tiles, b, None)) {
            lemma_key_index(keys, corner_key_spec(tiles[fa], ia));
            lemma_key_index(keys, corner_key_spec(tiles[fb], ib));
            lemma_key_index(keys, corner_key_spec(tiles[fa], (ia + 1) % 6));
            lemma_key_index(keys, corner_key_spec(tiles[fb], (ib + 1) % 6));
            assert(planned_vertex(keys, tiles, fa, ia) == planned_vertex(keys, tiles, fb, ib));
            assert(planned_vertex(keys, tiles, fa, (ia + 1) % 6) == planned_vertex(keys, tiles, fb, (ib + 1) % 6));
            lemma_planned_vertex_injective(tiles, keys, fa, ia, fb, ib);
            lemma_planned_vertex_injective(tiles, keys, fa, (ia + 1) % 6, fb, (ib + 1) % 6);
            lemma_side_direction_unique(tiles[fa], tiles[fb], ia, ib);
            if fa < fb {
                assert(tiles[fa].ordered_before(tiles[fb]));
                HexCoord::ordered_before_trichotomy(tiles[fa], tiles[fa]);
            } else if fb < fa {
                assert(tiles[fb].ordered_before(tiles[fa]));
                HexCoord::ordered_before_trichotomy(tiles[fa], tiles[fa]);
            }
        }
    }
}

} // verus!
