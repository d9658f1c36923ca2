//! Where a generated map gets cliff edges.
//!
//! Every edge between two neighboring tiles is considered once, in ascending
//! order. An edge between different landscape features of which at least one
//! is high ground (mountain or plateau) is a cliff, lower on the side that is
//! not high. Otherwise, between two unclaimed land tiles whose distances to
//! the ocean differ and one of which is a multiple of eight, the edge is a
//! fault cliff where the fault field at its first cell says so, lower on the
//! side nearer the ocean.
use vstd::prelude::*;

use crate::edge_binding::{edge_between, CliffEdgeEntry, CliffLowerSide, EdgeCoord};
use crate::hex_coord::HexCoord;
use crate::map_layout::MapLayout;
use crate::sorted_set::{insert_sorted, search_sorted, strictly_ascending, StrictOrder};
use crate::topology::tiles_have_neighbors;

verus! {

/// The landscape feature of a tile.
#[derive(Debug, Clone, Copy, PartialEq, Eq, Hash, Structural)]
pub enum LandscapeFeature {
    /// No landscape feature.
    NoFeature,
    Mountain,
    Plateau,
    Lake,
}

/// Whether a tile is ocean or land.
#[derive(Debug, Clone, Copy, PartialEq, Eq, Hash, Structural)]
pub enum OceanState {
    Ocean,
    Land,
}

/// What cliff generation reads of a tile.
#[derive(Debug, Clone, Copy, PartialEq, Eq, Structural)]
pub struct CliffTile {
    pub landscape_feature: LandscapeFeature,
    pub ocean_state: OceanState,
    /// The tile belongs to a faction.
    pub claimed: bool,
}

/// Mountains and plateaus are high ground.
pub open spec fn is_high(feature: LandscapeFeature) -> bool {
    feature == LandscapeFeature::Mountain || feature == LandscapeFeature::Plateau
}

/// The cliff, if any, on the edge between tiles `a` and `b`, at distances
/// `d_a` and `d_b` from the ocean, where `fault` is the fault field's verdict
/// at `a`.
pub open spec fn cliff_side(a: CliffTile, b: CliffTile, d_a: int, d_b: int, fault: bool) -> Option<CliffLowerSide> {
    let high_a = is_high(a.landscape_feature);
    let high_b = is_high(b.landscape_feature);
    if a.landscape_feature != b.landscape_feature && (high_a || high_b) {
        Some(
            if high_a && !high_b {
                CliffLowerSide::B
            } else if high_b && !high_a {
                CliffLowerSide::A
            } else {
                CliffLowerSide::Unresolved
            },
        )
    } else if a.ocean_state == OceanState::Land && b.ocean_state == OceanState::Land && !a.claimed
        && !b.claimed {
        if d_a != d_b && (d_a % 8 == 0 || d_b % 8 == 0) && fault {
            Some(
                if d_a < d_b {
                    CliffLowerSide::A
                } else {
                    CliffLowerSide::B
                },
            )
        } else {
            None
        }
    } else {
        None
    }
}

/// `edge` joins a tile and one of its neighbors that is a tile too.
pub open spec fn is_neighbor_edge(tiles: Seq<HexCoord>, edge: EdgeCoord) -> bool {
    exists|t: int, i: int|
        0 <= t < tiles.len() && 0 <= i < 6 && tiles.contains(tiles[t].neighbor(i)) && edge == edge_between(
            tiles[t],
            tiles[t].neighbor(i),
        )
}

/// The position of `coord` among the tiles (meaningful when it is a tile).
pub open spec fn tile_index(tiles: Seq<HexCoord>, coord: HexCoord) -> int {
    choose|t: int| 0 <= t < tiles.len() && tiles[t] == coord
}

/// The ocean distance recorded for tile `t`, zero when none is.
pub open spec fn distance_of(distances: Seq<Option<u32>>, t: int) -> int {
    match distances[t] {
        Some(d) => d as int,
        None => 0,
    }
}

/// The cliff entries of the first `n` edges, in edge order; an edge whose
/// cells are not both tiles gets none.
pub open spec fn planned_cliffs(
    tiles: Seq<HexCoord>,
    info: Seq<CliffTile>,
    distances: Seq<Option<u32>>,
    fault: Seq<bool>,
    edges: Seq<EdgeCoord>,
    n: int,
) -> Seq<CliffEdgeEntry>
    decreases n,
{
    if n <= 0 {
        Seq::empty()
    } else {
        let earlier = planned_cliffs(tiles, info, distances, fault, edges, n - 1);
        let edge = edges[n - 1];
        if tiles.contains(edge.a) && tiles.contains(edge.b) {
            let ta = tile_index(tiles, edge.a);
            let tb = tile_index(tiles, edge.b);
            match cliff_side(info[ta], info[tb], distance_of(distances, ta), distance_of(distances, tb), fault[ta]) {
                Some(side) => earlier.push(CliffEdgeEntry { edge, lower_side: side }),
                None => earlier,
            }
        } else {
            earlier
        }
    }
}

/// Every edge between two neighboring tiles, ascending and each once.
pub fn unique_neighbor_edges(layout: &MapLayout) -> (edges: Vec<EdgeCoord>)
    requires
        tiles_have_neighbors(layout.tile_seq()),
    ensures
        strictly_ascending(edges@),
        forall|edge: EdgeCoord| edges@.contains(edge) <==> is_neighbor_edge(layout.tile_seq(), edge),
{
    let tiles = layout.tiles();
    let mut edges: Vec<EdgeCoord> = Vec::new();
    let mut t: usize = 0;
    while t < tiles.len()
        invariant
            t <= tiles@.len(),
            tiles@ == layout.tile_seq(),
            tiles_have_neighbors(tiles@),
            strictly_ascending(edges@),
            forall|edge: EdgeCoord| edges@.contains(edge) <==> exists|u: int, i: int|
                0 <= u < t && 0 <= i < 6 && tiles@.contains(tiles@[u].neighbor(i)) && edge == edge_between(
                    tiles@[u],
                    tiles@[u].neighbor(i),
                ),
        decreases tiles@.len() - t,
    {
        let coord = tiles[t];
        let neighbors = coord.neighbors();
        let mut i: usize = 0;
        while i < 6
            invariant
                t < tiles@.len(),
                i <= 6,
                tiles@ == layout.tile_seq(),
                coord == tiles@[t as int],
                forall|j: int| 0 <= j < 6 ==> #[trigger] neighbors[j] == coord.neighbor(j),
                strictly_ascending(edges@),
                forall|edge: EdgeCoord| edges@.contains(edge) <==> (exists|u: int, j: int|
                    0 <= u < t && 0 <= j < 6 && tiles@.contains(tiles@[u].neighbor(j)) && edge == edge_between(
                        tiles@[u],
                        tiles@[u].neighbor(j),
                    )) || (exists|j: int|
                    0 <= j < i && tiles@.contains(coord.neighbor(j)) && edge == edge_between(
                        coord,
                        coord.neighbor(j),
                    )),
            decreases 6 - i,
        {
            let n = neighbors[i];
            let ghost before = edges@;
            if layout.contains_tile(n) {
                let edge = EdgeCoord::new(coord, n);
                insert_sorted(&mut edges, edge);
            }
            proof {
                assert forall|e: EdgeCoord| edges@.contains(e) <==> (exists|u: int, j: int|
                    0 <= u < t && 0 <= j < 6 && tiles@.contains(tiles@[u].neighbor(j)) && e == edge_between(
                        tiles@[u],
                        tiles@[u].neighbor(j),
                    )) || (exists|j: int|
                    0 <= j < i + 1 && tiles@.contains(coord.neighbor(j)) && e == edge_between(
                        coord,
                        coord.neighbor(j),
                    )) by {
                    assert(edges@.contains(e) == edges@.to_set().contains(e));
                    assert(before.contains(e) == before.to_set().contains(e));
                    if tiles@.contains(coord.neighbor(i as int)) && e == edge_between(coord, coord.neighbor(i as int)) {
                        assert(0 <= i < i + 1 && tiles@.contains(coord.neighbor(i as int)) && e == edge_between(
                            coord,
                            coord.neighbor(i as int),
                        ));
                    }
                    if exists|j: int|
                        0 <= j < i + 1 && tiles@.contains(coord.neighbor(j)) && e == edge_between(
                            coord,
                            coord.neighbor(j),
                        ) {
                        let j = choose|j: int|
                            0 <= j < i + 1 && tiles@.contains(coord.neighbor(j)) && e == edge_between(
                                coord,
                                coord.neighbor(j),
                            );
                        if j < i {
                            assert(exists|j2: int|
                                0 <= j2 < i && tiles@.contains(coord.neighbor(j2)) && e == edge_between(
                                    coord,
                                    coord.neighbor(j2),
                                ));
                        }
                    }
                }
            }
            i += 1;
        }
        proof {
            assert forall|e: EdgeCoord| edges@.contains(e) <==> exists|u: int, j: int|
                0 <= u < t + 1 && 0 <= j < 6 && tiles@.contains(tiles@[u].neighbor(j)) && e == edge_between(
                    tiles@[u],
                    tiles@[u].neighbor(j),
                ) by {
                if exists|u: int, j: int|
                    0 <= u < t + 1 && 0 <= j < 6 && tiles@.contains(tiles@[u].neighbor(j)) && e == edge_between(
                        tiles@[u],
                        tiles@[u].neighbor(j),
                    ) {
                    let (u, j) = choose|u: int, j: int|
                        0 <= u < t + 1 && 0 <= j < 6 && tiles@.contains(tiles@[u].neighbor(j)) && e == edge_between(
                            tiles@[u],
                            tiles@[u].neighbor(j),
                        );
                    if u == t {
                        assert(exists|j2: int|
                            0 <= j2 < 6 && tiles@.contains(coord.neighbor(j2)) && e == edge_between(
                                coord,
                                coord.neighbor(j2),
                            ));
                    }
                }
            }
        }
        t += 1;
    }
    edges
}

fn is_high_ground(feature: LandscapeFeature) -> (high: bool)
    ensures
        high == is_high(feature),
{
    feature == LandscapeFeature::Mountain || feature == LandscapeFeature::Plateau
}

fn cliff_side_of(a: CliffTile, b: CliffTile, d_a: u32, d_b: u32, fault: bool) -> (side: Option<CliffLowerSide>)
    ensures
        side == cliff_side(a, b, d_a as int, d_b as int, fault),
{
    let high_a = is_high_ground(a.landscape_feature);
    let high_b = is_high_ground(b.landscape_feature);
    if a.landscape_feature != b.landscape_feature && (high_a || high_b) {
        if high_a && !high_b {
            Some(CliffLowerSide::B)
        } else if high_b && !high_a {
            Some(CliffLowerSide::A)
        } else {
            Some(CliffLowerSide::Unresolved)
        }
    } else if a.ocean_state == OceanState::Land && b.ocean_state == OceanState::Land && !a.claimed
        && !b.claimed {
        if d_a != d_b && (d_a % 8 == 0 || d_b % 8 == 0) && fault {
            if d_a < d_b {
                Some(CliffLowerSide::A)
            } else {
                Some(CliffLowerSide::B)
            }
        } else {
            None
        }
    } else {
        None
    }
}

/// In a strictly ascending sequence the index of a present element is the
/// one found.
pub(crate) proof fn lemma_tile_index(tiles: Seq<HexCoord>, t: int)
    requires
        strictly_ascending(tiles),
        0 <= t < tiles.len(),
    ensures
        tile_index(tiles, tiles[t]) == t,
        tiles.contains(tiles[t]),
{
    let u = tile_index(tiles, tiles[t]);
    assert(0 <= t < tiles.len() && tiles[t] == tiles[t]);
    if u < t {
        assert(tiles[u].ordered_before(tiles[t]));
        HexCoord::ordered_before_trichotomy(tiles[t], tiles[t]);
    } else if t < u {
        assert(tiles[t].ordered_before(tiles[u]));
        HexCoord::ordered_before_trichotomy(tiles[t], tiles[t]);
    }
}

/// The cliff edges of a generated map, in ascending edge order. `info[t]`,
/// `distances[t]` and `fault[t]` describe the `t`-th tile in ascending
/// `(q, r)` order: its landscape feature, ocean state and claim; its
/// distance to the ocean, when known (zero otherwise); and the fault field's
/// verdict at its cell.
pub fn generate_cliffs(
    layout: &MapLayout,
    info: &Vec<CliffTile>,
    distances: &Vec<Option<u32>>,
    fault: &Vec<bool>,
) -> (cliffs: Vec<CliffEdgeEntry>)
    requires
        tiles_have_neighbors(layout.tile_seq()),
        info@.len() == layout.tile_seq().len(),
        distances@.len() == layout.tile_seq().len(),
        fault@.len() == layout.tile_seq().len(),
    ensures
        exists|edges: Seq<EdgeCoord>|
            {
                &&& strictly_ascending(edges)
                &&& forall|edge: EdgeCoord| edges.contains(edge) <==> is_neighbor_edge(layout.tile_seq(), edge)
                &&& cliffs@ == planned_cliffs(layout.tile_seq(), info@, distances@, fault@, edges, edges.len() as int)
            },
{
    let edges = unique_neighbor_edges(layout);
    let tiles = layout.tiles();
    let mut cliffs: Vec<CliffEdgeEntry> = Vec::new();
    let mut k: usize = 0;
    while k < edges.len()
        invariant
            k <= edges@.len(),
            tiles@ == layout.tile_seq(),
            strictly_ascending(tiles@),
            info@.len() == tiles@.len(),
            distances@.len() == tiles@.len(),
            fault@.len() == tiles@.len(),
            cliffs@ == planned_cliffs(tiles@, info@, distances@, fault@, edges@, k as int),
        decreases edges@.len() - k,
    {
        let edge = edges[k];
        match (search_sorted(tiles, &edge.a), search_sorted(tiles, &edge.b)) {
            (Ok(ta), Ok(tb)) => {
                proof {
                    lemma_tile_index(tiles@, ta as int);
                    lemma_tile_index(tiles@, tb as int);
                }
                let d_a = match distances[ta] {
                    Some(d) => d,
                    None => 0,
                };
                let d_b = match distances[tb] {
                    Some(d) => d,
                    None => 0,
                };
                match cliff_side_of(info[ta], info[tb], d_a, d_b, fault[ta]) {
                    Some(side) => {
                        cliffs.push(CliffEdgeEntry { edge, lower_side: side });
                    },
                    None => {},
                }
            },
            _ => {},
        }
        k += 1;
    }
    cliffs
}

/// A cliff on the edge between tiles `a` and `b` (at ocean distances `d_a`
/// and `d_b`, with the fault verdict `fault` at `a`) is justified with
/// `lower` as its lower side: either the tiles carry different landscape
/// features and at least one is a mountain or plateau, the lower side being
/// the tile that is not high ground (unresolved when both are); or both tiles
/// are unclaimed land, the fault field fires at `a`, their ocean distances
/// differ with one of them a multiple of eight, and the lower side is the
/// tile nearer the ocean.
pub open spec fn justified_cliff(a: CliffTile, b: CliffTile, d_a: int, d_b: int, fault: bool, lower: CliffLowerSide) -> bool {
    let high_a = a.landscape_feature == LandscapeFeature::Mountain || a.landscape_feature == LandscapeFeature::Plateau;
    let high_b = b.landscape_feature == LandscapeFeature::Mountain || b.landscape_feature == LandscapeFeature::Plateau;
    ||| {
        &&& a.landscape_feature != b.landscape_feature
        &&& high_a || high_b
        &&& high_a && !high_b ==> lower == CliffLowerSide::B
        &&& high_b && !high_a ==> lower == CliffLowerSide::A
        &&& high_a && high_b ==> lower == CliffLowerSide::Unresolved
    }
    ||| {
        &&& a.ocean_state == OceanState::Land
        &&& b.ocean_state == OceanState::Land
        &&& !a.claimed
        &&& !b.claimed
        &&& fault
        &&& d_a != d_b
        &&& d_a % 8 == 0 || d_b % 8 == 0
        &&& lower == if d_a < d_b {
            CliffLowerSide::A
        } else {
            CliffLowerSide::B
        }
    }
}

/// Every planned cliff stands on one of the given edges between two tiles
/// and is justified: by high ground with different features on its two
/// sides, or by a fault between two unclaimed land tiles. In particular an
/// edge with an ocean tile and no mountain or plateau is never a cliff.
pub proof fn law_cliffs_are_justified(
    tiles: Seq<HexCoord>,
    info: Seq<CliffTile>,
    distances: Seq<Option<u32>>,
    fault: Seq<bool>,
    edges: Seq<EdgeCoord>,
    n: int,
)
    requires
        0 <= n <= edges.len(),
    ensures
        forall|k: int|
            0 <= k < planned_cliffs(tiles, info, distances, fault, edges, n).len() ==> {
                let entry = #[trigger] planned_cliffs(tiles, info, distances, fault, edges, n)[k];
                let ta = tile_index(tiles, entry.edge.a);
                let tb = tile_index(tiles, entry.edge.b);
                &&& edges.contains(entry.edge)
                &&& tiles.contains(entry.edge.a)
                &&& tiles.contains(entry.edge.b)
                &&& justified_cliff(
                    info[ta],
                    info[tb],
                    distance_of(distances, ta),
                    distance_of(distances, tb),
                    fault[ta],
                    entry.lower_side,
                )
            },
    decreases n,
{
    if n > 0 {
        law_cliffs_are_justified(tiles, info, distances, fault, edges, n - 1);
        let earlier = planned_cliffs(tiles, info, distances, fault, edges, n - 1);
        let all = planned_cliffs(tiles, info, distances, fault, edges, n);
        assert(edges[n - 1] == edges[n - 1]);
        assert forall|k: int| 0 <= k < all.len() implies {
            let entry = #[trigger] all[k];
            let ta = tile_index(tiles, entry.edge.a);
            let tb = tile_index(tiles, entry.edge.b);
            &&& edges.contains(entry.edge)
            &&& tiles.contains(entry.edge.a)
            &&& tiles.contains(entry.edge.b)
            &&& justified_cliff(
                info[ta],
                info[tb],
                distance_of(distances, ta),
                distance_of(distances, tb),
                fault[ta],
                entry.lower_side,
            )
        } by {
            if k < earlier.len() {
                assert(all[k] == earlier[k]);
            } else {
                assert(edges.contains(edges[n - 1]));
            }
        }
    }
}

/// Every cliff that [`generate_cliffs`] returns stands between two
/// neighboring tiles and is justified by high ground or by a fault between
/// two unclaimed land tiles (see [`justified_cliff`]).
pub proof fn law_generated_cliffs_are_justified(
    tiles: Seq<HexCoord>,
    info: Seq<CliffTile>,
    distances: Seq<Option<u32>>,
    fault: Seq<bool>,
    cliffs: Seq<CliffEdgeEntry>,
)
    requires
        exists|edges: Seq<EdgeCoord>|
            {
                &&& strictly_ascending(edges)
                &&& forall|edge: EdgeCoord| edges.contains(edge) <==> is_neighbor_edge(tiles, edge)
                &&& cliffs == planned_cliffs(tiles, info, distances, fault, edges, edges.len() as int)
            },
    ensures
        forall|k: int|
            0 <= k < cliffs.len() ==> {
                let entry = #[trigger] cliffs[k];
                let ta = tile_index(tiles, entry.edge.a);
                let tb = tile_index(tiles, entry.edge.b);
                &&& is_neighbor_edge(tiles, entry.edge)
                &&& tiles.contains(entry.edge.a)
                &&& tiles.contains(entry.edge.b)
                &&& justified_cliff(
                    info[ta],
                    info[tb],
                    distance_of(distances, ta),
                    distance_of(distances, tb),
                    fault[ta],
                    entry.lower_side,
                )
            },
{
    let edges = choose|edges: Seq<EdgeCoord>|
        {
            &&& strictly_ascending(edges)
            &&& forall|edge: EdgeCoord| edges.contains(edge) <==> is_neighbor_edge(tiles, edge)
            &&& cliffs == planned_cliffs(tiles, info, distances, fault, edges, edges.len() as int)
        };
    law_cliffs_are_justified(tiles, info, distances, fault, edges, edges.len() as int);
    assert forall|k: int| 0 <= k < cliffs.len() implies is_neighbor_edge(tiles, (#[trigger] cliffs[k]).edge) by {
        assert(edges.contains(cliffs[k].edge));
    }
}

/// Every one of the given edges between two tiles that calls for a cliff is
/// planned as one: one with high ground and different landscape features on
/// its sides, or one between unclaimed land tiles where the fault field
/// fires at the first tile and the ocean distances differ with one of them a
/// multiple of eight.
pub proof fn law_cliffs_are_complete(
    tiles: Seq<HexCoord>,
    info: Seq<CliffTile>,
    distances: Seq<Option<u32>>,
    fault: Seq<bool>,
    edges: Seq<EdgeCoord>,
    n: int,
)
    requires
        0 <= n <= edges.len(),
    ensures
        forall|j: int|
            0 <= j < n && tiles.contains((#[trigger] edges[j]).a) && tiles.contains(edges[j].b) && ({
                let a = info[tile_index(tiles, edges[j].a)];
                let b = info[tile_index(tiles, edges[j].b)];
                let d_a = distance_of(distances, tile_index(tiles, edges[j].a));
                let d_b = distance_of(distances, tile_index(tiles, edges[j].b));
                let high_a = a.landscape_feature == LandscapeFeature::Mountain || a.landscape_feature
                    == LandscapeFeature::Plateau;
                let high_b = b.landscape_feature == LandscapeFeature::Mountain || b.landscape_feature
                    == LandscapeFeature::Plateau;
                ||| a.landscape_feature != b.landscape_feature && (high_a || high_b)
                ||| a.ocean_state == OceanState::Land && b.ocean_state == OceanState::Land && !a.claimed
                    && !b.claimed && fault[tile_index(tiles, edges[j].a)] && d_a != d_b && (d_a % 8 == 0 || d_b
                    % 8 == 0)
            }) ==> exists|k: int|
                0 <= k < planned_cliffs(tiles, info, distances, fault, edges, n).len() && planned_cliffs(
                    tiles,
                    info,
                    distances,
                    fault,
                    edges,
                    n,
                )[k].edge == edges[j],
    decreases n,
{
    if n > 0 {
        law_cliffs_are_complete(tiles, info, distances, fault, edges, n - 1);
        let earlier = planned_cliffs(tiles, info, distances, fault, edges, n - 1);
        let all = planned_cliffs(tiles, info, distances, fault, edges, n);
        assert forall|k: int| 0 <= k < earlier.len() implies all[k] == earlier[k] by {}
        let e = edges[n - 1];
        if tiles.contains(e.a) && tiles.contains(e.b) {
            let ta = tile_index(tiles, e.a);
            let tb = tile_index(tiles, e.b);
            if cliff_side(info[ta], info[tb], distance_of(distances, ta), distance_of(distances, tb), fault[ta]) is Some {
                assert(all[earlier.len() as int].edge == e);
            }
        }
    }
}

} // verus!
