//! Faction territories grown at random over the land tiles of a map.
//!
//! A territory starts at a randomly chosen tile and spreads breadth-first,
//! visiting each tile's neighbors in a random order, over the tiles it may
//! claim, until it reaches a randomly drawn target size or runs out of
//! reachable tiles.
use vstd::prelude::*;

use rand::rngs::StdRng;

use crate::cliffs::{lemma_tile_index, tile_index, OceanState};
use crate::hex_coord::HexCoord;
use crate::map_layout::MapLayout;
use crate::random::{choose_coord, random_size, seeded_rng, shuffle_coords};
use crate::sorted_set::{search_sorted, strictly_ascending};
use crate::topology::tiles_have_neighbors;

verus! {

/// The faction id of the player.
pub const PLAYER_FACTION_ID: u32 = 1;

/// What territory generation reads and writes of a tile.
#[derive(Debug, Clone, Copy, PartialEq, Eq, Structural)]
pub struct TerritoryTile {
    pub ocean_state: OceanState,
    pub faction_id: Option<u32>,
}

/// Every neighbor tile of tile `t` that may be claimed is in `grown`.
pub open spec fn spreads_from(cells: Seq<HexCoord>, paintable: Seq<bool>, grown: Seq<bool>, t: int) -> bool {
    forall|i: int|
        0 <= i < 6 && cells.contains(#[trigger] cells[t].neighbor(i)) && paintable[tile_index(
            cells,
            cells[t].neighbor(i),
        )] ==> grown[tile_index(cells, cells[t].neighbor(i))]
}

/// The `k`-th tile of `order` neighbors an earlier one.
pub open spec fn joined_to_earlier(cells: Seq<HexCoord>, order: Seq<usize>, k: int) -> bool {
    exists|j: int, i: int|
        0 <= j < k && 0 <= i < 6 && cells[order[j] as int].neighbor(i) == cells[order[k] as int]
}

/// `order` lists a territory grown from `start`: distinct tiles, `start`
/// first, each later one claimable and next to an earlier one, and exactly
/// the tiles marked in `grown`.
pub open spec fn grown_territory(
    cells: Seq<HexCoord>,
    paintable: Seq<bool>,
    start: int,
    grown: Seq<bool>,
    order: Seq<usize>,
) -> bool {
    &&& grown.len() == cells.len()
    &&& order.len() >= 1
    &&& order[0] == start
    &&& order.no_duplicates()
    &&& forall|k: int| 0 <= k < order.len() ==> (#[trigger] order[k]) < cells.len()
    &&& forall|t: int| 0 <= t < cells.len() ==> (grown[t] <==> order.contains(t as usize))
    &&& forall|k: int| 0 < k < order.len() ==> paintable[#[trigger] order[k] as int]
    &&& forall|k: int| 0 < k < order.len() ==> #[trigger] joined_to_earlier(cells, order, k)
}

/// A territory of at most `target` tiles (one at least) that stops short of
/// `target` only when it has claimed every claimable neighbor of its tiles.
pub open spec fn sized_territory(
    cells: Seq<HexCoord>,
    paintable: Seq<bool>,
    grown: Seq<bool>,
    order: Seq<usize>,
    target: int,
) -> bool {
    &&& order.len() <= if target < 1 { 1 } else { target }
    &&& order.len() < target ==> forall|k: int|
        0 <= k < order.len() ==> spreads_from(cells, paintable, grown, #[trigger] order[k] as int)
}

/// A neighbor cell that is a claimable tile is claimed.
pub open spec fn handled(cells: Seq<HexCoord>, paintable: Seq<bool>, grown: Seq<bool>, x: HexCoord) -> bool {
    cells.contains(x) && paintable[tile_index(cells, x)] ==> grown[tile_index(cells, x)]
}

/// Tile `b` is one of the six neighbors of tile `a`.
pub open spec fn tiles_adjacent(cells: Seq<HexCoord>, a: usize, b: usize) -> bool {
    exists|i: int| 0 <= i < 6 && #[trigger] cells[a as int].neighbor(i) == cells[b as int]
}

/// `parents` records a breadth-first claim order: each later tile of `order`
/// joined through the earlier tile `order[parents[k]]` next to it, no tile
/// claimed before that one is next to it, and later tiles joined through
/// tiles claimed no earlier.
pub open spec fn breadth_first_parents(cells: Seq<HexCoord>, order: Seq<usize>, parents: Seq<int>) -> bool {
    &&& parents.len() == order.len()
    &&& forall|k: int| 0 < k < order.len() ==> 0 <= #[trigger] parents[k] < k
    &&& forall|k: int| 0 < k < order.len() ==> tiles_adjacent(cells, order[#[trigger] parents[k]], order[k])
    &&& forall|k: int, j: int|
        0 < k < order.len() && 0 <= j < parents[k] ==> !#[trigger] tiles_adjacent(cells, order[j], order[k])
    &&& forall|k1: int, k2: int|
        #![trigger parents[k1], parents[k2]]
        0 < k1 <= k2 < order.len() ==> parents[k1] <= parents[k2]
}

/// The tiles of `order` were claimed breadth first: each through the earliest
/// claimed tile next to it, in the order in which those tiles were claimed.
pub open spec fn breadth_first(cells: Seq<HexCoord>, order: Seq<usize>) -> bool {
    exists|parents: Seq<int>| breadth_first_parents(cells, order, parents)
}

/// Claiming tile `found` next to the tile being expanded keeps the claim order
/// breadth first: every tile expanded before had all its claimable neighbors
/// claimed already, so none of them is next to `found`.
proof fn lemma_claim_keeps_breadth_first(
    cells: Seq<HexCoord>,
    paintable: Seq<bool>,
    grown: Seq<bool>,
    order: Seq<usize>,
    parents: Seq<int>,
    head: int,
    found: usize,
    i: int,
)
    requires
        strictly_ascending(cells),
        breadth_first_parents(cells, order, parents),
        forall|k: int| 0 < k < order.len() ==> #[trigger] parents[k] < head,
        0 < head <= order.len(),
        forall|k: int| 0 <= k < order.len() ==> (#[trigger] order[k]) < cells.len(),
        found < cells.len(),
        0 <= i < 6,
        cells[order[head - 1] as int].neighbor(i) == cells[found as int],
        forall|j: int| 0 <= j < head - 1 ==> spreads_from(cells, paintable, grown, #[trigger] order[j] as int),
        paintable.len() == cells.len(),
        grown.len() == cells.len(),
        paintable[found as int],
        !grown[found as int],
    ensures
        breadth_first_parents(cells, order.push(found), parents.push(head - 1)),
        forall|k: int| 0 < k < order.len() + 1 ==> #[trigger] parents.push(head - 1)[k] < head,
{
    let o2 = order.push(found);
    let p2 = parents.push(head - 1);
    let last = order.len() as int;
    lemma_tile_index(cells, found as int);
    assert(tiles_adjacent(cells, o2[p2[last]], o2[last]));
    assert forall|k: int| 0 < k < o2.len() implies tiles_adjacent(cells, o2[#[trigger] p2[k]], o2[k]) by {
        if k < last {
            assert(tiles_adjacent(cells, order[parents[k]], order[k]));
        }
    }
    assert forall|k: int, j: int| 0 < k < o2.len() && 0 <= j < p2[k] implies !#[trigger] tiles_adjacent(
        cells,
        o2[j],
        o2[k],
    ) by {
        if k < last {
            assert(!tiles_adjacent(cells, order[j], order[k]));
        } else {
            if tiles_adjacent(cells, o2[j], o2[k]) {
                let d = choose|d: int| 0 <= d < 6 && #[trigger] cells[o2[j] as int].neighbor(d) == cells[o2[k] as int];
                assert(spreads_from(cells, paintable, grown, order[j] as int));
                assert(cells.contains(cells[order[j] as int].neighbor(d)));
                assert(grown[tile_index(cells, cells[order[j] as int].neighbor(d))]);
            }
        }
    }
    assert forall|k1: int, k2: int| 0 < k1 <= k2 < o2.len() implies #[trigger] p2[k1] <= #[trigger] p2[k2] by {
        if k2 < last {
            assert(parents[k1] <= parents[k2]);
        } else if k1 < last {
            assert(parents[k1] < head);
        }
    }
    assert forall|k: int| 0 < k < o2.len() implies 0 <= #[trigger] p2[k] < k by {
        if k < last {
            assert(0 <= parents[k] < k);
        }
    }
}

/// The six neighbors of `coord`, in direction order.
fn neighbor_list(coord: HexCoord) -> (list: Vec<HexCoord>)
    requires
        coord.has_neighbors(),
    ensures
        list@ == seq![
            coord.neighbor(0),
            coord.neighbor(1),
            coord.neighbor(2),
            coord.neighbor(3),
            coord.neighbor(4),
            coord.neighbor(5),
        ],
{
    let neighbors = coord.neighbors();
    let mut list: Vec<HexCoord> = Vec::new();
    list.push(neighbors[0]);
    list.push(neighbors[1]);
    list.push(neighbors[2]);
    list.push(neighbors[3]);
    list.push(neighbors[4]);
    list.push(neighbors[5]);
    list
}

fn unmarked(n: usize) -> (marks: Vec<bool>)
    ensures
        marks@.len() == n,
        forall|t: int| 0 <= t < n ==> !(#[trigger] marks@[t]),
{
    let mut marks: Vec<bool> = Vec::new();
    while marks.len() < n
        invariant
            marks@.len() <= n,
            forall|t: int| 0 <= t < marks@.len() ==> !(#[trigger] marks@[t]),
        decreases n - marks@.len(),
    {
        marks.push(false);
    }
    marks
}

/// Grows a territory from tile `start` over the claimable tiles, breadth
/// first, visiting each tile's neighbors in an order drawn from `rng`, until
/// it holds `target` tiles or no claimable neighbor is left. Returns which
/// tiles it holds and the order in which they were claimed.
fn grow_territory(
    layout: &MapLayout,
    paintable: &Vec<bool>,
    start: usize,
    target: usize,
    rng: &mut StdRng,
) -> (grown: (Vec<bool>, Vec<usize>))
    requires
        tiles_have_neighbors(layout.tile_seq()),
        paintable@.len() == layout.tile_seq().len(),
        start < layout.tile_seq().len(),
    ensures
        grown_territory(layout.tile_seq(), paintable@, start as int, grown.0@, grown.1@),
        sized_territory(layout.tile_seq(), paintable@, grown.0@, grown.1@, target as int),
        breadth_first(layout.tile_seq(), grown.1@),
{
    let cells = layout.tiles();
    let mut grown = unmarked(cells.len());
    grown.set(start, true);
    let mut order: Vec<usize> = Vec::new();
    order.push(start);
    let ghost mut parents: Seq<int> = seq![0int];
    proof {
        assert forall|t: int| 0 <= t < cells@.len() implies (grown@[t] <==> order@.contains(t as usize)) by {
            if t == start as int {
                assert(order@[0] == start);
            }
        }
    }
    let mut head: usize = 0;
    while head < order.len() && order.len() < target
        invariant
            cells@ == layout.tile_seq(),
            strictly_ascending(cells@),
            tiles_have_neighbors(cells@),
            paintable@.len() == cells@.len(),
            start < cells@.len(),
            head <= order@.len(),
            grown_territory(cells@, paintable@, start as int, grown@, order@),
            order@.len() <= if target < 1 { 1 } else { target as int },
            order@.len() < target ==> forall|k: int|
                0 <= k < head ==> spreads_from(cells@, paintable@, grown@, #[trigger] order@[k] as int),
            breadth_first_parents(cells@, order@, parents),
            forall|k: int| 0 < k < order@.len() ==> #[trigger] parents[k] < head,
        decreases target - head,
    {
        let curr = order[head];
        head += 1;
        let coord = cells[curr];
        let ghost listed = seq![
            coord.neighbor(0),
            coord.neighbor(1),
            coord.neighbor(2),
            coord.neighbor(3),
            coord.neighbor(4),
            coord.neighbor(5),
        ];
        let mut shuffled = neighbor_list(coord);
        assert(shuffled@ == listed);
        shuffle_coords(rng, &mut shuffled);
        proof {
            vstd::seq_lib::to_multiset_len(listed);
            vstd::seq_lib::to_multiset_len(shuffled@);
        }
        let mut k: usize = 0;
        while k < 6 && order.len() < target
            invariant
                cells@ == layout.tile_seq(),
                strictly_ascending(cells@),
                tiles_have_neighbors(cells@),
                paintable@.len() == cells@.len(),
                start < cells@.len(),
                0 < head <= order@.len(),
                curr == order@[head - 1],
                coord == cells@[curr as int],
                shuffled@.len() == 6,
                shuffled@.to_multiset() == listed.to_multiset(),
                listed == seq![
                    coord.neighbor(0),
                    coord.neighbor(1),
                    coord.neighbor(2),
                    coord.neighbor(3),
                    coord.neighbor(4),
                    coord.neighbor(5),
                ],
                k <= 6,
                grown_territory(cells@, paintable@, start as int, grown@, order@),
                order@.len() <= if target < 1 { 1 } else { target as int },
                order@.len() < target ==> forall|j: int|
                    0 <= j < head - 1 ==> spreads_from(cells@, paintable@, grown@, #[trigger] order@[j] as int),
                forall|m: int| 0 <= m < k ==> handled(cells@, paintable@, grown@, #[trigger] shuffled@[m]),
                breadth_first_parents(cells@, order@, parents),
                forall|kk: int| 0 < kk < order@.len() ==> #[trigger] parents[kk] < head,
            decreases 6 - k,
        {
            let next = shuffled[k];
            let ghost before_grown = grown@;
            let ghost before_order = order@;
            match search_sorted(cells, &next) {
                Ok(found) => {
                    proof {
                        lemma_tile_index(cells@, found as int);
                    }
                    if paintable[found] && !grown[found] {
                        grown.set(found, true);
                        order.push(found);
                        proof {
                            assert(listed.contains(next)) by {
                                assert(shuffled@[k as int] == next);
                                vstd::seq_lib::to_multiset_contains(shuffled@, next);
                                vstd::seq_lib::to_multiset_contains(listed, next);
                            }
                            let i = choose|i: int| 0 <= i < listed.len() && listed[i] == next;
                            lemma_claim_keeps_breadth_first(
                                cells@,
                                paintable@,
                                before_grown,
                                before_order,
                                parents,
                                head as int,
                                found,
                                i,
                            );
                            parents = parents.push(head - 1);
                            let last = order@.len() - 1;
                            assert(cells@[order@[head - 1] as int].neighbor(i) == cells@[order@[last] as int]);
                            assert(joined_to_earlier(cells@, order@, last));
                            assert forall|kk: int| 0 < kk < order@.len() implies #[trigger] joined_to_earlier(
                                cells@,
                                order@,
                                kk,
                            ) by {
                                if kk < last {
                                    assert(joined_to_earlier(cells@, before_order, kk));
                                    let (j, i2) = choose|j: int, i2: int|
                                        0 <= j < kk && 0 <= i2 < 6 && cells@[before_order[j] as int].neighbor(i2)
                                            == cells@[before_order[kk] as int];
                                    assert(order@[j] == before_order[j]);
                                }
                            }
                            assert(!before_order.contains(found));
                            assert forall|t: int| 0 <= t < cells@.len() implies (grown@[t] <==> order@.contains(
                                t as usize,
                            )) by {
                                if t == found as int {
                                    assert(order@[last] == found);
                                } else {
                                    assert(grown@[t] == before_grown[t]);
                                    if before_order.contains(t as usize) {
                                        let w = choose|w: int| 0 <= w < before_order.len() && before_order[w] == t as usize;
                                        assert(order@[w] == t as usize);
                                    }
                                    if order@.contains(t as usize) {
                                        let w = choose|w: int| 0 <= w < order@.len() && order@[w] == t as usize;
                                        assert(order@[last] == found);
                                        assert(cells@.len() == cells.len());
                                        assert((t as usize) as int == t);
                                        assert(w != last);
                                        assert(before_order[w] == t as usize);
                                    }
                                }
                            }
                            assert forall|j: int| 0 <= j < head - 1 implies spreads_from(
                                cells@,
                                paintable@,
                                grown@,
                                #[trigger] order@[j] as int,
                            ) by {
                                if order@.len() < target {
                                    assert(spreads_from(cells@, paintable@, before_grown, before_order[j] as int));
                                }
                            }
                            assert forall|m: int| 0 <= m < k + 1 implies handled(
                                cells@,
                                paintable@,
                                grown@,
                                #[trigger] shuffled@[m],
                            ) by {
                                if m < k {
                                    assert(handled(cells@, paintable@, before_grown, shuffled@[m]));
                                }
                            }
                        }
                    }
                },
                Err(_) => {},
            }
            k += 1;
        }
        proof {
            if order@.len() < target {
                assert(k == 6);
                assert forall|i: int| 0 <= i < 6 && cells@.contains(#[trigger] coord.neighbor(i)) && paintable@[tile_index(
                    cells@,
                    coord.neighbor(i),
                )] implies grown@[tile_index(cells@, coord.neighbor(i))] by {
                    assert(listed[i] == coord.neighbor(i));
                    assert(listed.contains(coord.neighbor(i)));
                    vstd::seq_lib::to_multiset_contains(shuffled@, coord.neighbor(i));
                    vstd::seq_lib::to_multiset_contains(listed, coord.neighbor(i));
                    assert(shuffled@.contains(coord.neighbor(i)));
                    let m = choose|m: int| 0 <= m < shuffled@.len() && shuffled@[m] == coord.neighbor(i);
                    assert(handled(cells@, paintable@, grown@, shuffled@[m]));
                }
                assert(spreads_from(cells@, paintable@, grown@, curr as int));
            }
        }
    }
    assert(breadth_first_parents(cells@, order@, parents));
    (grown, order)
}

/// The neighbor of tile `t` in direction `i` is a tile.
pub open spec fn has_neighbor_tile(cells: Seq<HexCoord>, t: int, i: int) -> bool {
    cells.contains(cells[t].neighbor(i))
}

/// The tile data of the neighbor of tile `t` in direction `i`.
pub open spec fn neighbor_tile(cells: Seq<HexCoord>, tiles: Seq<TerritoryTile>, t: int, i: int) -> TerritoryTile {
    tiles[tile_index(cells, cells[t].neighbor(i))]
}

/// Tile `t` is land next to an ocean tile.
pub open spec fn is_coastal(cells: Seq<HexCoord>, tiles: Seq<TerritoryTile>, t: int) -> bool {
    &&& tiles[t].ocean_state == OceanState::Land
    &&& exists|i: int|
        0 <= i < 6 && has_neighbor_tile(cells, t, i) && (#[trigger] neighbor_tile(cells, tiles, t, i)).ocean_state
            == OceanState::Ocean
}

/// Tile `t` is land that no faction holds.
pub open spec fn is_free_land(tiles: Seq<TerritoryTile>, t: int) -> bool {
    tiles[t].ocean_state == OceanState::Land && tiles[t].faction_id is None
}

/// Which tiles are land.
pub open spec fn land_mask(tiles: Seq<TerritoryTile>) -> Seq<bool> {
    Seq::new(tiles.len(), |t: int| tiles[t].ocean_state == OceanState::Land)
}

/// Which tiles a faction may claim: free land none of whose neighbor tiles
/// is held by another faction.
pub open spec fn claimable_mask(cells: Seq<HexCoord>, tiles: Seq<TerritoryTile>, faction_id: u32) -> Seq<bool> {
    Seq::new(
        tiles.len(),
        |t: int|
            is_free_land(tiles, t) && forall|i: int|
                0 <= i < 6 && has_neighbor_tile(cells, t, i) ==> match (#[trigger] neighbor_tile(
                    cells,
                    tiles,
                    t,
                    i,
                )).faction_id {
                    Some(other) => other == faction_id,
                    None => true,
                },
    )
}

/// `after` is `before` with the tiles of `grown` given to `faction_id`.
pub open spec fn claimed(before: Seq<TerritoryTile>, after: Seq<TerritoryTile>, grown: Seq<bool>, faction_id: u32) -> bool {
    &&& after.len() == before.len()
    &&& forall|t: int|
        0 <= t < before.len() ==> #[trigger] after[t] == if grown[t] {
            TerritoryTile { ocean_state: before[t].ocean_state, faction_id: Some(faction_id) }
        } else {
            before[t]
        }
}

/// The tile data of `coord`'s neighbor in direction `i`, when it is a tile.
fn neighbor_data(cells: &Vec<HexCoord>, tiles: &Vec<TerritoryTile>, t: usize, i: usize) -> (data: Option<TerritoryTile>)
    requires
        strictly_ascending(cells@),
        tiles_have_neighbors(cells@),
        tiles@.len() == cells@.len(),
        t < cells@.len(),
        i < 6,
    ensures
        data is Some <==> has_neighbor_tile(cells@, t as int, i as int),
        data matches Some(d) ==> d == neighbor_tile(cells@, tiles@, t as int, i as int),
{
    let neighbors = cells[t].neighbors();
    match search_sorted(cells, &neighbors[i]) {
        Ok(found) => {
            proof {
                lemma_tile_index(cells@, found as int);
            }
            Some(tiles[found])
        },
        Err(_) => None,
    }
}

/// The coastal tiles.
fn coastal_tiles(cells: &Vec<HexCoord>, tiles: &Vec<TerritoryTile>) -> (coastal: Vec<HexCoord>)
    requires
        strictly_ascending(cells@),
        tiles_have_neighbors(cells@),
        tiles@.len() == cells@.len(),
    ensures
        forall|c: HexCoord|
            coastal@.contains(c) <==> exists|t: int| 0 <= t < cells@.len() && cells@[t] == c && is_coastal(cells@, tiles@, t),
{
    let mut coastal: Vec<HexCoord> = Vec::new();
    let mut t: usize = 0;
    while t < cells.len()
        invariant
            t <= cells@.len(),
            strictly_ascending(cells@),
            tiles_have_neighbors(cells@),
            tiles@.len() == cells@.len(),
            forall|c: HexCoord|
                coastal@.contains(c) <==> exists|u: int| 0 <= u < t && cells@[u] == c && is_coastal(cells@, tiles@, u),
        decreases cells@.len() - t,
    {
        let ghost before = coastal@;
        let mut near_ocean = false;
        if tiles[t].ocean_state == OceanState::Land {
            let mut i: usize = 0;
            while i < 6
                invariant
                    i <= 6,
                    t < cells@.len(),
                    strictly_ascending(cells@),
                    tiles_have_neighbors(cells@),
                    tiles@.len() == cells@.len(),
                    near_ocean == exists|j: int|
                        0 <= j < i && has_neighbor_tile(cells@, t as int, j) && (#[trigger] neighbor_tile(
                            cells@,
                            tiles@,
                            t as int,
                            j,
                        )).ocean_state == OceanState::Ocean,
                decreases 6 - i,
            {
                let data = neighbor_data(cells, tiles, t, i);
                if let Some(d) = data {
                    if d.ocean_state == OceanState::Ocean {
                        near_ocean = true;
                    }
                }
                proof {
                    if exists|j: int|
                        0 <= j < i + 1 && has_neighbor_tile(cells@, t as int, j) && (#[trigger] neighbor_tile(
                            cells@,
                            tiles@,
                            t as int,
                            j,
                        )).ocean_state == OceanState::Ocean {
                        let j = choose|j: int|
                            0 <= j < i + 1 && has_neighbor_tile(cells@, t as int, j) && (#[trigger] neighbor_tile(
                                cells@,
                                tiles@,
                                t as int,
                                j,
                            )).ocean_state == OceanState::Ocean;
                        if j < i {
                            assert(exists|j2: int|
                                0 <= j2 < i && has_neighbor_tile(cells@, t as int, j2) && (#[trigger] neighbor_tile(
                                    cells@,
                                    tiles@,
                                    t as int,
                                    j2,
                                )).ocean_state == OceanState::Ocean);
                        }
                    }
                }
                i += 1;
            }
        }
        assert(near_ocean == is_coastal(cells@, tiles@, t as int));
        if near_ocean {
            coastal.push(cells[t]);
        }
        proof {
            assert forall|c: HexCoord| coastal@.contains(c) <==> exists|u: int|
                0 <= u < t + 1 && cells@[u] == c && is_coastal(cells@, tiles@, u) by {
                if coastal@.contains(c) && !before.contains(c) {
                    assert(c == cells@[t as int]);
                }
                if before.contains(c) {
                    assert(coastal@.contains(c)) by {
                        let w = choose|w: int| 0 <= w < before.len() && before[w] == c;
                        assert(coastal@[w] == c);
                    }
                }
                if exists|u: int| 0 <= u < t + 1 && cells@[u] == c && is_coastal(cells@, tiles@, u) {
                    let u = choose|u: int| 0 <= u < t + 1 && cells@[u] == c && is_coastal(cells@, tiles@, u);
                    if u == t {
                        assert(coastal@[coastal@.len() - 1] == c);
                    }
                }
            }
        }
        t += 1;
    }
    coastal
}

/// The free land tiles.
fn free_land_tiles(cells: &Vec<HexCoord>, tiles: &Vec<TerritoryTile>) -> (free: Vec<HexCoord>)
    requires
        tiles@.len() == cells@.len(),
    ensures
        forall|c: HexCoord|
            free@.contains(c) <==> exists|t: int| 0 <= t < cells@.len() && cells@[t] == c && is_free_land(tiles@, t),
{
    let mut free: Vec<HexCoord> = Vec::new();
    let mut t: usize = 0;
    while t < cells.len()
        invariant
            t <= cells@.len(),
            tiles@.len() == cells@.len(),
            forall|c: HexCoord|
                free@.contains(c) <==> exists|u: int| 0 <= u < t && cells@[u] == c && is_free_land(tiles@, u),
        decreases cells@.len() - t,
    {
        let ghost before = free@;
        let tile = tiles[t];
        let is_free = tile.ocean_state == OceanState::Land && tile.faction_id.is_none();
        if is_free {
            free.push(cells[t]);
        }
        proof {
            assert forall|c: HexCoord| free@.contains(c) <==> exists|u: int|
                0 <= u < t + 1 && cells@[u] == c && is_free_land(tiles@, u) by {
                if free@.contains(c) && !before.contains(c) {
                    assert(c == cells@[t as int]);
                }
                if before.contains(c) {
                    let w = choose|w: int| 0 <= w < before.len() && before[w] == c;
                    assert(free@[w] == c);
                }
                if exists|u: int| 0 <= u < t + 1 && cells@[u] == c && is_free_land(tiles@, u) {
                    let u = choose|u: int| 0 <= u < t + 1 && cells@[u] == c && is_free_land(tiles@, u);
                    if u == t {
                        assert(free@[free@.len() - 1] == c);
                    }
                }
            }
        }
        t += 1;
    }
    free
}

/// Which tiles are land.
fn land_tiles(tiles: &Vec<TerritoryTile>) -> (mask: Vec<bool>)
    ensures
        mask@ == land_mask(tiles@),
{
    let mut mask: Vec<bool> = Vec::new();
    let mut t: usize = 0;
    while t < tiles.len()
        invariant
            t <= tiles@.len(),
            mask@.len() == t,
            forall|u: int| 0 <= u < t ==> mask@[u] == (tiles@[u].ocean_state == OceanState::Land),
        decreases tiles@.len() - t,
    {
        mask.push(tiles[t].ocean_state == OceanState::Land);
        t += 1;
    }
    assert(mask@ =~= land_mask(tiles@));
    mask
}

/// Which tiles faction `faction_id` may claim.
fn claimable_tiles(cells: &Vec<HexCoord>, tiles: &Vec<TerritoryTile>, faction_id: u32) -> (mask: Vec<bool>)
    requires
        strictly_ascending(cells@),
        tiles_have_neighbors(cells@),
        tiles@.len() == cells@.len(),
    ensures
        mask@ == claimable_mask(cells@, tiles@, faction_id),
{
    let mut mask: Vec<bool> = Vec::new();
    let mut t: usize = 0;
    while t < tiles.len()
        invariant
            t <= tiles@.len(),
            strictly_ascending(cells@),
            tiles_have_neighbors(cells@),
            tiles@.len() == cells@.len(),
            mask@.len() == t,
            forall|u: int| 0 <= u < t ==> mask@[u] == claimable_mask(cells@, tiles@, faction_id)[u],
        decreases tiles@.len() - t,
    {
        let tile = tiles[t];
        let mut can_claim = tile.ocean_state == OceanState::Land && tile.faction_id.is_none();
        if can_claim {
            let mut i: usize = 0;
            while i < 6
                invariant
                    i <= 6,
                    t < cells@.len(),
                    strictly_ascending(cells@),
                    tiles_have_neighbors(cells@),
                    tiles@.len() == cells@.len(),
                    is_free_land(tiles@, t as int),
                    can_claim == forall|j: int|
                        0 <= j < i && has_neighbor_tile(cells@, t as int, j) ==> match (#[trigger] neighbor_tile(
                            cells@,
                            tiles@,
                            t as int,
                            j,
                        )).faction_id {
                            Some(other) => other == faction_id,
                            None => true,
                        },
                decreases 6 - i,
            {
                let data = neighbor_data(cells, tiles, t, i);
                if let Some(d) = data {
                    if let Some(other) = d.faction_id {
                        if other != faction_id {
                            can_claim = false;
                        }
                    }
                }
                i += 1;
            }
        }
        mask.push(can_claim);
        t += 1;
    }
    assert(mask@ =~= claimable_mask(cells@, tiles@, faction_id));
    mask
}

/// Gives the tiles of `grown` to `faction_id`.
fn claim(tiles: &mut Vec<TerritoryTile>, grown: &Vec<bool>, faction_id: u32)
    requires
        grown@.len() == old(tiles)@.len(),
    ensures
        claimed(old(tiles)@, final(tiles)@, grown@, faction_id),
{
    let mut t: usize = 0;
    while t < tiles.len()
        invariant
            t <= tiles@.len(),
            tiles@.len() == old(tiles)@.len(),
            grown@.len() == old(tiles)@.len(),
            forall|u: int|
                0 <= u < t ==> #[trigger] tiles@[u] == if grown@[u] {
                    TerritoryTile { ocean_state: old(tiles)@[u].ocean_state, faction_id: Some(faction_id) }
                } else {
                    old(tiles)@[u]
                },
            forall|u: int| t <= u < tiles@.len() ==> #[trigger] tiles@[u] == old(tiles)@[u],
        decreases tiles@.len() - t,
    {
        if grown[t] {
            let state = tiles[t].ocean_state;
            tiles.set(t, TerritoryTile { ocean_state: state, faction_id: Some(faction_id) });
        }
        t += 1;
    }
}

/// The index of a tile cell.
fn index_of_tile(cells: &Vec<HexCoord>, coord: HexCoord) -> (index: usize)
    requires
        strictly_ascending(cells@),
        cells@.contains(coord),
    ensures
        index < cells@.len(),
        cells@[index as int] == coord,
        index as int == tile_index(cells@, coord),
{
    match search_sorted(cells, &coord) {
        Ok(found) => {
            proof {
                lemma_tile_index(cells@, found as int);
            }
            found
        },
        Err(_) => {
            proof {
                assert(false);
            }
            0
        },
    }
}

/// Claims a territory of 15 to 25 land tiles for the player's faction, grown
/// breadth first from a coastal tile, all drawn from the generator seeded
/// with `seed`. A map without a coastal tile is left unchanged.
pub fn auto_spawn_player_territory(layout: &MapLayout, tiles: &mut Vec<TerritoryTile>, seed: u32)
    requires
        tiles_have_neighbors(layout.tile_seq()),
        old(tiles)@.len() == layout.tile_seq().len(),
    ensures
        (forall|t: int| 0 <= t < old(tiles)@.len() ==> !is_coastal(layout.tile_seq(), old(tiles)@, t)) ==> final(tiles)@ == old(tiles)@,
        (exists|t: int| 0 <= t < old(tiles)@.len() && is_coastal(layout.tile_seq(), old(tiles)@, t)) ==> exists|
            start: int,
            target: int,
            grown: Seq<bool>,
            order: Seq<usize>,
        |
            {
                &&& 0 <= start < old(tiles)@.len()
                &&& is_coastal(layout.tile_seq(), old(tiles)@, start)
                &&& 15 <= target <= 25
                &&& grown_territory(layout.tile_seq(), land_mask(old(tiles)@), start, grown, order)
                &&& sized_territory(layout.tile_seq(), land_mask(old(tiles)@), grown, order, target)
                &&& breadth_first(layout.tile_seq(), order)
                &&& claimed(old(tiles)@, final(tiles)@, grown, PLAYER_FACTION_ID)
            },
{
    let cells = layout.tiles();
    let mut rng = seeded_rng(seed as u64);
    let coastal = coastal_tiles(cells, tiles);
    match choose_coord(&mut rng, &coastal) {
        None => {
            proof {
                assert forall|t: int| 0 <= t < old(tiles)@.len() implies !is_coastal(layout.tile_seq(), old(tiles)@, t) by {
                    if is_coastal(layout.tile_seq(), old(tiles)@, t) {
                        assert(coastal@.contains(cells@[t]));
                    }
                }
            }
        },
        Some(start_coord) => {
            let ghost t0 = choose|t: int| 0 <= t < cells@.len() && cells@[t] == start_coord && is_coastal(cells@, tiles@, t);
            let start = index_of_tile(cells, start_coord);
            proof {
                lemma_tile_index(cells@, t0);
            }
            let target = random_size(&mut rng, 15, 25);
            let paintable = land_tiles(tiles);
            let (grown, _order) = grow_territory(layout, &paintable, start, target, &mut rng);
            claim(tiles, &grown, PLAYER_FACTION_ID);
        },
    }
}

/// Claims a territory of 20 to 30 tiles for faction `faction_id`, grown
/// breadth first from a free land tile over the free land not bordering
/// another faction, all drawn from the generator seeded with `seed`. A map
/// without free land is left unchanged.
pub fn auto_spawn_npc_territory(layout: &MapLayout, tiles: &mut Vec<TerritoryTile>, faction_id: u32, seed: u32)
    requires
        tiles_have_neighbors(layout.tile_seq()),
        old(tiles)@.len() == layout.tile_seq().len(),
    ensures
        (forall|t: int| 0 <= t < old(tiles)@.len() ==> !is_free_land(old(tiles)@, t)) ==> final(tiles)@ == old(tiles)@,
        (exists|t: int| 0 <= t < old(tiles)@.len() && is_free_land(old(tiles)@, t)) ==> exists|
            start: int,
            target: int,
            grown: Seq<bool>,
            order: Seq<usize>,
        |
            {
                &&& 0 <= start < old(tiles)@.len()
                &&& is_free_land(old(tiles)@, start)
                &&& 20 <= target <= 30
                &&& grown_territory(
                    layout.tile_seq(),
                    claimable_mask(layout.tile_seq(), old(tiles)@, faction_id),
                    start,
                    grown,
                    order,
                )
                &&& sized_territory(
                    layout.tile_seq(),
                    claimable_mask(layout.tile_seq(), old(tiles)@, faction_id),
                    grown,
                    order,
                    target,
                )
                &&& breadth_first(layout.tile_seq(), order)
                &&& claimed(old(tiles)@, final(tiles)@, grown, faction_id)
            },
{
    let cells = layout.tiles();
    let mut rng = seeded_rng(seed as u64);
    let free = free_land_tiles(cells, tiles);
    match choose_coord(&mut rng, &free) {
        None => {
            proof {
                assert forall|t: int| 0 <= t < old(tiles)@.len() implies !is_free_land(old(tiles)@, t) by {
                    if is_free_land(old(tiles)@, t) {
                        assert(free@.contains(cells@[t]));
                    }
                }
            }
        },
        Some(start_coord) => {
            let ghost t0 = choose|t: int| 0 <= t < cells@.len() && cells@[t] == start_coord && is_free_land(tiles@, t);
            let start = index_of_tile(cells, start_coord);
            proof {
                lemma_tile_index(cells@, t0);
            }
            let target = random_size(&mut rng, 20, 30);
            let paintable = claimable_tiles(cells, tiles, faction_id);
            let (grown, _order) = grow_territory(layout, &paintable, start, target, &mut rng);
            claim(tiles, &grown, faction_id);
        },
    }
}

} // verus!
