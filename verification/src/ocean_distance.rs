//! How many steps each tile lies from the ocean.
//!
//! A step goes from a tile to a neighboring cell that is a tile too. The
//! distance of a tile is the fewest steps of any walk that starts on an ocean
//! tile and ends on it; a tile that no such walk reaches has none.
use vstd::prelude::*;

use crate::cliffs::{lemma_tile_index, tile_index, CliffTile, OceanState};
use crate::hex_coord::HexCoord;
use crate::map_layout::MapLayout;
use crate::sorted_set::{search_sorted, strictly_ascending};
use crate::topology::tiles_have_neighbors;

verus! {

/// Step `j` of `path` (from entry `j - 1` to entry `j`) goes to a neighboring
/// cell.
pub open spec fn walk_step(cells: Seq<HexCoord>, path: Seq<int>, j: int) -> bool {
    cells[path[j - 1]].is_neighbor_of(cells[path[j]])
}

/// `path` lists tile indices, each a step from the one before.
pub open spec fn is_tile_walk(cells: Seq<HexCoord>, path: Seq<int>) -> bool {
    &&& forall|j: int| 0 <= j < path.len() ==> 0 <= #[trigger] path[j] < cells.len()
    &&& forall|j: int| 1 <= j < path.len() ==> #[trigger] walk_step(cells, path, j)
}

/// `path` is a walk over the tiles that starts on an ocean tile.
pub open spec fn ocean_walk(cells: Seq<HexCoord>, info: Seq<CliffTile>, path: Seq<int>) -> bool {
    &&& path.len() > 0
    &&& is_tile_walk(cells, path)
    &&& info[path[0]].ocean_state == OceanState::Ocean
}

/// Some walk from an ocean tile ends on tile `t` after exactly `steps` steps.
pub open spec fn reached_in(cells: Seq<HexCoord>, info: Seq<CliffTile>, t: int, steps: int) -> bool {
    exists|path: Seq<int>|
        #[trigger] ocean_walk(cells, info, path) && path.last() == t && path.len() == steps + 1
}

/// How many tiles have no distance yet.
pub open spec fn unassigned(dist: Seq<Option<u32>>) -> nat
    decreases dist.len(),
{
    if dist.len() == 0 {
        0
    } else {
        unassigned(dist.drop_last()) + if dist.last() is None {
            1nat
        } else {
            0nat
        }
    }
}

proof fn lemma_unassigned_bound(dist: Seq<Option<u32>>)
    ensures
        unassigned(dist) <= dist.len(),
    decreases dist.len(),
{
    if dist.len() > 0 {
        lemma_unassigned_bound(dist.drop_last());
    }
}

proof fn lemma_unassigned_push(dist: Seq<Option<u32>>, v: Option<u32>)
    ensures
        unassigned(dist.push(v)) == unassigned(dist) + if v is None {
            1nat
        } else {
            0nat
        },
{
    assert(dist.push(v).drop_last() =~= dist);
}

proof fn lemma_unassigned_assign(dist: Seq<Option<u32>>, i: int, v: u32)
    requires
        0 <= i < dist.len(),
        dist[i] is None,
    ensures
        unassigned(dist.update(i, Some(v))) + 1 == unassigned(dist),
    decreases dist.len(),
{
    let updated = dist.update(i, Some(v));
    if i == dist.len() - 1 {
        assert(updated.drop_last() =~= dist.drop_last());
    } else {
        lemma_unassigned_assign(dist.drop_last(), i, v);
        assert(updated.drop_last() =~= dist.drop_last().update(i, Some(v)));
    }
}

/// Every neighboring cell of tile `t` that is a tile has a distance at most
/// one more than `t`'s.
pub open spec fn neighbors_within_one(cells: Seq<HexCoord>, dist: Seq<Option<u32>>, t: int) -> bool {
    forall|i: int|
        0 <= i < 6 && cells.contains(#[trigger] cells[t].neighbor(i)) ==> {
            let u = tile_index(cells, cells[t].neighbor(i));
            &&& dist[u] is Some
            &&& dist[u]->0 <= dist[t]->0 + 1
        }
}

/// Entries that had a distance keep it.
pub open spec fn keeps_assigned(before: Seq<Option<u32>>, after: Seq<Option<u32>>) -> bool {
    &&& after.len() == before.len()
    &&& forall|x: int| 0 <= x < before.len() && (#[trigger] before[x]) is Some ==> after[x] == before[x]
}

proof fn lemma_keeps_neighbors(
    cells: Seq<HexCoord>,
    before: Seq<Option<u32>>,
    after: Seq<Option<u32>>,
    t: int,
)
    requires
        strictly_ascending(cells),
        before.len() == cells.len(),
        keeps_assigned(before, after),
        0 <= t < cells.len(),
        before[t] is Some,
        neighbors_within_one(cells, before, t),
    ensures
        neighbors_within_one(cells, after, t),
{
    assert forall|i: int| 0 <= i < 6 && cells.contains(#[trigger] cells[t].neighbor(i)) implies {
        let u = tile_index(cells, cells[t].neighbor(i));
        &&& after[u] is Some
        &&& after[u]->0 <= after[t]->0 + 1
    } by {
        let u = tile_index(cells, cells[t].neighbor(i));
        assert(before[u] is Some);
        assert(0 <= u < cells.len() && cells[u] == cells[t].neighbor(i));
        assert(after[u] == before[u]);
        assert(after[t] == before[t]);
    }
}

/// A walk that reaches tile `t` extends by one step to a neighboring tile.
proof fn lemma_extend_walk(cells: Seq<HexCoord>, info: Seq<CliffTile>, t: int, steps: int, u: int, i: int)
    requires
        reached_in(cells, info, t, steps),
        0 <= u < cells.len(),
        0 <= i < 6,
        cells[t].neighbor(i) == cells[u],
    ensures
        reached_in(cells, info, u, steps + 1),
{
    let path = choose|path: Seq<int>|
        #[trigger] ocean_walk(cells, info, path) && path.last() == t && path.len() == steps + 1;
    let longer = path.push(u);
    assert forall|j: int| 0 <= j < longer.len() implies 0 <= #[trigger] longer[j] < cells.len() by {
        if j < path.len() {
            assert(longer[j] == path[j]);
        }
    }
    assert forall|j: int| 1 <= j < longer.len() implies #[trigger] walk_step(cells, longer, j) by {
        if j < path.len() {
            assert(walk_step(cells, path, j));
            assert(longer[j] == path[j] && longer[j - 1] == path[j - 1]);
        } else {
            assert(longer[j - 1] == t && longer[j] == u);
            assert(cells[t].neighbor(i) == cells[u]);
        }
    }
    assert(longer[0] == path[0]);
    assert(ocean_walk(cells, info, longer));
}

/// Along a walk from the ocean, once every assigned tile has its neighbors
/// within one step, every entry is assigned and no farther than its position.
proof fn lemma_walk_bounded(
    cells: Seq<HexCoord>,
    info: Seq<CliffTile>,
    dist: Seq<Option<u32>>,
    path: Seq<int>,
    j: int,
)
    requires
        strictly_ascending(cells),
        dist.len() == cells.len(),
        info.len() == cells.len(),
        ocean_walk(cells, info, path),
        0 <= j < path.len(),
        forall|t: int| 0 <= t < cells.len() && info[t].ocean_state == OceanState::Ocean ==> #[trigger] dist[t] == Some(0u32),
        forall|t: int| 0 <= t < cells.len() && (#[trigger] dist[t]) is Some ==> neighbors_within_one(cells, dist, t),
    ensures
        dist[path[j]] is Some,
        dist[path[j]]->0 <= j,
    decreases j,
{
    assert(0 <= path[j] < cells.len());
    if j == 0 {
        assert(dist[path[0]] == Some(0u32));
    } else {
        lemma_walk_bounded(cells, info, dist, path, j - 1);
        let t = path[j - 1];
        let u = path[j];
        assert(0 <= t < cells.len());
        assert(walk_step(cells, path, j));
        let i = choose|i: int| 0 <= i < 6 && cells[t].neighbor(i) == cells[u];
        lemma_tile_index(cells, u);
        assert(cells.contains(cells[t].neighbor(i)));
        assert(dist[t] is Some);
        assert(neighbors_within_one(cells, dist, t));
        assert(tile_index(cells, cells[t].neighbor(i)) == u);
    }
}

/// The number of steps from the ocean to each tile (in ascending tile
/// order), `None` for a tile that no walk from an ocean tile reaches. Ocean
/// tiles are at distance zero.
pub fn distance_to_ocean(layout: &MapLayout, info: &Vec<CliffTile>) -> (distances: Vec<Option<u32>>)
    requires
        info@.len() == layout.tile_seq().len(),
        layout.tile_seq().len() <= u32::MAX,
        tiles_have_neighbors(layout.tile_seq()),
    ensures
        distances@.len() == layout.tile_seq().len(),
        forall|t: int|
            0 <= t < distances@.len() && (#[trigger] distances@[t]) is Some ==> reached_in(
                layout.tile_seq(),
                info@,
                t,
                distances@[t]->0 as int,
            ),
        forall|path: Seq<int>|
            #[trigger] ocean_walk(layout.tile_seq(), info@, path) ==> {
                &&& distances@[path.last()] is Some
                &&& distances@[path.last()]->0 < path.len()
            },
{
    let cells = layout.tiles();
    let ghost tiles = cells@;
    let n = cells.len();
    let mut dist: Vec<Option<u32>> = Vec::new();
    let mut frontier: Vec<usize> = Vec::new();
    let mut t: usize = 0;
    while t < n
        invariant
            cells@ == tiles,
            n == tiles.len(),
            info@.len() == n,
            t <= n,
            dist@.len() == t,
            unassigned(dist@) + frontier@.len() == t,
            forall|x: int| 0 <= x < t ==> (#[trigger] dist@[x] == Some(0u32)) == (info@[x].ocean_state == OceanState::Ocean),
            forall|x: int| 0 <= x < t ==> (#[trigger] dist@[x]) is None || dist@[x] == Some(0u32),
            forall|i: int| 0 <= i < frontier@.len() ==> (#[trigger] frontier@[i]) < t && dist@[frontier@[i] as int] == Some(0u32),
            forall|x: int| 0 <= x < t && (#[trigger] dist@[x]) == Some(0u32) ==> frontier@.contains(x as usize),
        decreases n - t,
    {
        proof {
            lemma_unassigned_push(dist@, None);
            lemma_unassigned_push(dist@, Some(0u32));
        }
        let ghost frontier_before = frontier@;
        if info[t].ocean_state == OceanState::Ocean {
            dist.push(Some(0));
            frontier.push(t);
        } else {
            dist.push(None);
        }
        proof {
            assert forall|x: int| 0 <= x < t + 1 && (#[trigger] dist@[x]) == Some(0u32) implies frontier@.contains(x as usize) by {
                if x < t {
                    assert(frontier_before.contains(x as usize));
                    let j = choose|j: int| 0 <= j < frontier_before.len() && frontier_before[j] == x as usize;
                    assert(frontier@[j] == x as usize);
                } else {
                    assert(frontier@[frontier@.len() - 1] == t);
                }
            }
        }
        t += 1;
    }
    proof {
        assert forall|x: int| 0 <= x < n && (#[trigger] dist@[x]) is Some implies reached_in(tiles, info@, x, dist@[x]->0 as int) by {
            let path = seq![x];
            assert(path[0] == x);
            assert(ocean_walk(tiles, info@, path));
        }
    }
    let mut k: u32 = 0;
    while frontier.len() > 0
        invariant
            cells@ == tiles,
            strictly_ascending(tiles),
            tiles_have_neighbors(tiles),
            n == tiles.len(),
            n <= u32::MAX,
            info@.len() == n,
            dist@.len() == n,
            unassigned(dist@) <= n,
            frontier@.len() > 0 ==> n - unassigned(dist@) >= k + 1,
            forall|x: int| 0 <= x < n && info@[x].ocean_state == OceanState::Ocean ==> #[trigger] dist@[x] == Some(0u32),
            forall|x: int| 0 <= x < n && (#[trigger] dist@[x]) is Some ==> dist@[x]->0 <= k,
            forall|i: int| 0 <= i < frontier@.len() ==> (#[trigger] frontier@[i]) < n && dist@[frontier@[i] as int] == Some(k),
            forall|x: int| 0 <= x < n && (#[trigger] dist@[x]) == Some(k) ==> frontier@.contains(x as usize),
            forall|x: int| 0 <= x < n && (#[trigger] dist@[x]) is Some ==> reached_in(tiles, info@, x, dist@[x]->0 as int),
            forall|x: int| 0 <= x < n && (#[trigger] dist@[x]) is Some && dist@[x]->0 < k ==> neighbors_within_one(tiles, dist@, x),
        decreases unassigned(dist@) + frontier@.len(),
    {
        let ghost start = dist@;
        let mut next: Vec<usize> = Vec::new();
        let mut i: usize = 0;
        while i < frontier.len()
            invariant
                cells@ == tiles,
                strictly_ascending(tiles),
                tiles_have_neighbors(tiles),
                n == tiles.len(),
                n <= u32::MAX,
                info@.len() == n,
                start.len() == n,
                k + 1 <= n,
                i <= frontier@.len(),
                keeps_assigned(start, dist@),
                unassigned(dist@) + next@.len() == unassigned(start),
                forall|x: int| 0 <= x < n && (#[trigger] start[x]) is Some ==> start[x]->0 <= k,
                forall|x: int| 0 <= x < n && (#[trigger] dist@[x]) is Some && start[x] is None ==> dist@[x] == Some((k + 1) as u32),
                forall|j: int| 0 <= j < frontier@.len() ==> (#[trigger] frontier@[j]) < n && start[frontier@[j] as int] == Some(k),
                forall|j: int| 0 <= j < next@.len() ==> (#[trigger] next@[j]) < n && dist@[next@[j] as int] == Some((k + 1) as u32),
                forall|x: int| 0 <= x < n && (#[trigger] dist@[x]) == Some((k + 1) as u32) ==> next@.contains(x as usize),
                forall|x: int| 0 <= x < n && (#[trigger] dist@[x]) is Some ==> reached_in(tiles, info@, x, dist@[x]->0 as int),
                forall|j: int| 0 <= j < i ==> neighbors_within_one(tiles, dist@, #[trigger] frontier@[j] as int),
            decreases frontier@.len() - i,
        {
            let t = frontier[i];
            assert(start[t as int] == Some(k));
            assert(tiles[t as int].has_neighbors());
            let neighbors = cells[t].neighbors();
            let mut d: usize = 0;
            while d < 6
                invariant
                    cells@ == tiles,
                    strictly_ascending(tiles),
                    n == tiles.len(),
                    n <= u32::MAX,
                    info@.len() == n,
                    start.len() == n,
                    k + 1 <= n,
                    i < frontier@.len(),
                    t == frontier@[i as int],
                    t < n,
                    start[t as int] == Some(k),
                    forall|e: int| 0 <= e < 6 ==> neighbors[e] == tiles[t as int].neighbor(e),
                    d <= 6,
                    keeps_assigned(start, dist@),
                    unassigned(dist@) + next@.len() == unassigned(start),
                    forall|x: int| 0 <= x < n && (#[trigger] start[x]) is Some ==> start[x]->0 <= k,
                    forall|x: int| 0 <= x < n && (#[trigger] dist@[x]) is Some && start[x] is None ==> dist@[x] == Some((k + 1) as u32),
                    forall|j: int| 0 <= j < frontier@.len() ==> (#[trigger] frontier@[j]) < n && start[frontier@[j] as int] == Some(k),
                    forall|j: int| 0 <= j < next@.len() ==> (#[trigger] next@[j]) < n && dist@[next@[j] as int] == Some((k + 1) as u32),
                    forall|x: int| 0 <= x < n && (#[trigger] dist@[x]) == Some((k + 1) as u32) ==> next@.contains(x as usize),
                    forall|x: int| 0 <= x < n && (#[trigger] dist@[x]) is Some ==> reached_in(tiles, info@, x, dist@[x]->0 as int),
                    forall|j: int| 0 <= j < i ==> neighbors_within_one(tiles, dist@, #[trigger] frontier@[j] as int),
                    forall|e: int| 0 <= e < d && tiles.contains(#[trigger] tiles[t as int].neighbor(e)) ==> {
                        let u = tile_index(tiles, tiles[t as int].neighbor(e));
                        &&& dist@[u] is Some
                        &&& dist@[u]->0 <= k + 1
                    },
                decreases 6 - d,
            {
                let cell = neighbors[d];
                match search_sorted(cells, &cell) {
                    Ok(u) => {
                        proof {
                            lemma_tile_index(tiles, u as int);
                        }
                        if dist[u].is_none() {
                            let ghost before = dist@;
                            let ghost next_before = next@;
                            proof {
                                assert(dist@[t as int] == Some(k));
                                lemma_extend_walk(tiles, info@, t as int, k as int, u as int, d as int);
                                lemma_unassigned_assign(dist@, u as int, (k + 1) as u32);
                            }
                            dist.set(u, Some(k + 1));
                            next.push(u);
                            proof {
                                assert(keeps_assigned(start, dist@)) by {
                                    assert forall|x: int| 0 <= x < start.len() && (#[trigger] start[x]) is Some implies dist@[x] == start[x] by {
                                        assert(before[x] == start[x]);
                                    }
                                }
                                assert forall|j: int| 0 <= j < next@.len() implies (#[trigger] next@[j]) < n && dist@[next@[j] as int] == Some((k + 1) as u32) by {
                                    if j < next@.len() - 1 {
                                        assert(before[next@[j] as int] == Some((k + 1) as u32));
                                    }
                                }
                                assert forall|x: int| 0 <= x < n && (#[trigger] dist@[x]) == Some((k + 1) as u32) implies next@.contains(x as usize) by {
                                    if x == u {
                                        assert(next@[next@.len() - 1] == u);
                                    } else {
                                        assert(before[x] == dist@[x]);
                                        assert(next_before.contains(x as usize));
                                        let j = choose|j: int| 0 <= j < next_before.len() && next_before[j] == x as usize;
                                        assert(next@[j] == x as usize);
                                    }
                                }
                                assert forall|x: int| 0 <= x < n && (#[trigger] dist@[x]) is Some implies reached_in(tiles, info@, x, dist@[x]->0 as int) by {
                                    if x != u {
                                        assert(before[x] == dist@[x]);
                                    }
                                }
                                assert forall|j: int| 0 <= j < i implies neighbors_within_one(tiles, dist@, #[trigger] frontier@[j] as int) by {
                                    let f = frontier@[j] as int;
                                    assert(neighbors_within_one(tiles, before, f));
                                    assert(keeps_assigned(before, dist@)) by {
                                        assert forall|x: int| 0 <= x < before.len() && (#[trigger] before[x]) is Some implies dist@[x] == before[x] by {
                                            assert(x != u);
                                        }
                                    }
                                    assert(before[f] == start[f]);
                                    lemma_keeps_neighbors(tiles, before, dist@, f);
                                }
                            }
                        }
                        proof {
                            assert(tiles[u as int] == tiles[t as int].neighbor(d as int));
                            assert(tile_index(tiles, tiles[t as int].neighbor(d as int)) == u);
                            if start[u as int] is Some {
                                assert(dist@[u as int] == start[u as int]);
                            }
                        }
                    },
                    Err(_) => {},
                }
                d += 1;
            }
            proof {
                assert(neighbors_within_one(tiles, dist@, t as int)) by {
                    assert(dist@[t as int] == Some(k));
                    assert forall|e: int| 0 <= e < 6 && tiles.contains(#[trigger] tiles[t as int].neighbor(e)) implies {
                        let u = tile_index(tiles, tiles[t as int].neighbor(e));
                        &&& dist@[u] is Some
                        &&& dist@[u]->0 <= dist@[t as int]->0 + 1
                    } by {}
                }
            }
            i += 1;
        }
        proof {
            lemma_unassigned_bound(dist@);
            assert forall|x: int| 0 <= x < n && (#[trigger] dist@[x]) is Some && dist@[x]->0 < k + 1 implies neighbors_within_one(tiles, dist@, x) by {
                assert(start[x] is Some) by {
                    if start[x] is None {
                        assert(dist@[x] == Some((k + 1) as u32));
                    }
                }
                assert(dist@[x] == start[x]);
                if start[x]->0 < k {
                    lemma_keeps_neighbors(tiles, start, dist@, x);
                } else {
                    assert(frontier@.contains(x as usize));
                    let j = choose|j: int| 0 <= j < frontier@.len() && frontier@[j] == x as usize;
                    assert(neighbors_within_one(tiles, dist@, frontier@[j] as int));
                }
            }
            assert forall|x: int| 0 <= x < n && info@[x].ocean_state == OceanState::Ocean implies #[trigger] dist@[x] == Some(0u32) by {
                assert(start[x] == Some(0u32));
            }
            assert forall|x: int| 0 <= x < n && (#[trigger] dist@[x]) is Some implies dist@[x]->0 <= k + 1 by {
                if start[x] is Some {
                    assert(dist@[x] == start[x]);
                }
            }
        }
        frontier = next;
        k += 1;
    }
    proof {
        assert forall|x: int| 0 <= x < n && (#[trigger] dist@[x]) is Some implies neighbors_within_one(tiles, dist@, x) by {
            if dist@[x]->0 == k {
                assert(frontier@.contains(x as usize));
            }
        }
        assert forall|path: Seq<int>| #[trigger] ocean_walk(tiles, info@, path) implies {
            &&& dist@[path.last()] is Some
            &&& dist@[path.last()]->0 < path.len()
        } by {
            lemma_walk_bounded(tiles, info@, dist@, path, path.len() - 1);
        }
    }
    dist
}

} // verus!
