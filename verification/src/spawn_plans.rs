//! Where generation places wildlife and plant deposits, treasures, faction
//! settlements and scattered points of interest on a map, drawn from the
//! generator seeded for each kind.
use vstd::prelude::*;

use rand::rngs::StdRng;

use crate::cliffs::{lemma_tile_index, tile_index, LandscapeFeature, OceanState};
use crate::fixed_point::tdiv;
use crate::hex_coord::HexCoord;
use crate::map_layout::MapLayout;
use crate::random::{choose_coord, random_amount, random_count, random_ratio, random_size, seeded_rng};
use crate::sorted_set::{search_sorted, strictly_ascending};
use crate::topology::tiles_have_neighbors;

verus! {

/// What spawn planning reads of a tile.
#[derive(Debug, Clone, Copy, PartialEq, Eq, Structural)]
pub struct SpawnTile {
    pub ocean_state: OceanState,
    pub faction_id: Option<u32>,
    pub landscape_feature: LandscapeFeature,
    /// The tile carries a forest.
    pub forested: bool,
    /// The tile's terrain is fertile ground or grass.
    pub plant_ground: bool,
}

/// The kind of a resource deposit.
#[derive(Debug, Clone, Copy, PartialEq, Eq, Hash, Structural)]
pub enum DepositType {
    OceanFish,
    Deer,
    Boar,
    WildFlax,
    Raspberries,
}

/// A resource deposit to place: where, what, and how much of it.
#[derive(Debug, Clone, Copy, PartialEq, Eq, Structural)]
pub struct PlannedDeposit {
    pub coord: HexCoord,
    pub deposit_type: DepositType,
    pub amount: u32,
}

/// Tile `t` is ocean next to a land tile.
pub open spec fn is_coastal_ocean(cells: Seq<HexCoord>, tiles: Seq<SpawnTile>, t: int) -> bool {
    &&& tiles[t].ocean_state == OceanState::Ocean
    &&& exists|i: int|
        0 <= i < 6 && cells.contains(#[trigger] cells[t].neighbor(i)) && tiles[tile_index(
            cells,
            cells[t].neighbor(i),
        )].ocean_state == OceanState::Land
}

/// Tile `t` is forested land, where game lives.
pub open spec fn is_game_ground(tiles: Seq<SpawnTile>, t: int) -> bool {
    tiles[t].ocean_state == OceanState::Land && tiles[t].forested
}

/// Tile `t` is land of fertile ground or grass, where wild plants grow.
pub open spec fn is_plant_ground(tiles: Seq<SpawnTile>, t: int) -> bool {
    tiles[t].ocean_state == OceanState::Land && tiles[t].plant_ground
}

/// `coord` is the cell of a tile that `marks` marks.
pub open spec fn marked_cell(cells: Seq<HexCoord>, marks: Seq<bool>, coord: HexCoord) -> bool {
    exists|t: int| 0 <= t < cells.len() && marks[t] && cells[t] == coord
}

/// The cells of the marked tiles, in layout order.
fn marked_cells(cells: &Vec<HexCoord>, marks: &Vec<bool>) -> (found: Vec<HexCoord>)
    requires
        marks@.len() == cells@.len(),
    ensures
        forall|c: HexCoord| found@.contains(c) <==> marked_cell(cells@, marks@, c),
        found@.len() == 0 <==> forall|t: int| 0 <= t < cells@.len() ==> !marks@[t],
{
    let mut found: Vec<HexCoord> = Vec::new();
    let mut t: usize = 0;
    while t < cells.len()
        invariant
            t <= cells@.len(),
            marks@.len() == cells@.len(),
            forall|c: HexCoord|
                found@.contains(c) <==> exists|u: int| 0 <= u < t && marks@[u] && cells@[u] == c,
            found@.len() == 0 <==> forall|u: int| 0 <= u < t ==> !marks@[u],
        decreases cells@.len() - t,
    {
        let ghost before = found@;
        if marks[t] {
            found.push(cells[t]);
        }
        proof {
            assert forall|c: HexCoord| found@.contains(c) <==> exists|u: int|
                0 <= u < t + 1 && marks@[u] && cells@[u] == c by {
                if found@.contains(c) && !before.contains(c) {
                    assert(c == cells@[t as int]);
                }
                if before.contains(c) {
                    let w = choose|w: int| 0 <= w < before.len() && before[w] == c;
                    assert(found@[w] == c);
                }
                if exists|u: int| 0 <= u < t + 1 && marks@[u] && cells@[u] == c {
                    let u = choose|u: int| 0 <= u < t + 1 && marks@[u] && cells@[u] == c;
                    if u == t {
                        assert(found@[found@.len() - 1] == c);
                    }
                }
            }
            if found@.len() == 0 {
                assert forall|u: int| 0 <= u < t + 1 implies !marks@[u] by {
                    if u == t {
                        assert(!marks@[u]);
                    }
                }
            }
        }
        t += 1;
    }
    found
}

/// Whether tile `t` has a land tile among its neighbors.
fn has_land_neighbor(cells: &Vec<HexCoord>, tiles: &Vec<SpawnTile>, t: usize) -> (near: bool)
    requires
        strictly_ascending(cells@),
        tiles_have_neighbors(cells@),
        tiles@.len() == cells@.len(),
        t < cells@.len(),
    ensures
        near == exists|i: int|
            0 <= i < 6 && cells@.contains(#[trigger] cells@[t as int].neighbor(i)) && tiles@[tile_index(
                cells@,
                cells@[t as int].neighbor(i),
            )].ocean_state == OceanState::Land,
{
    let neighbors = cells[t].neighbors();
    let mut i: usize = 0;
    while i < 6
        invariant
            i <= 6,
            t < cells@.len(),
            strictly_ascending(cells@),
            tiles@.len() == cells@.len(),
            neighbors@ == seq![
                cells@[t as int].neighbor(0),
                cells@[t as int].neighbor(1),
                cells@[t as int].neighbor(2),
                cells@[t as int].neighbor(3),
                cells@[t as int].neighbor(4),
                cells@[t as int].neighbor(5),
            ],
            forall|j: int|
                0 <= j < i ==> !(cells@.contains(#[trigger] cells@[t as int].neighbor(j)) && tiles@[tile_index(
                    cells@,
                    cells@[t as int].neighbor(j),
                )].ocean_state == OceanState::Land),
        decreases 6 - i,
    {
        match search_sorted(cells, &neighbors[i]) {
            Ok(found) => {
                proof {
                    lemma_tile_index(cells@, found as int);
                }
                if tiles[found].ocean_state == OceanState::Land {
                    return true;
                }
            },
            Err(_) => {},
        }
        i += 1;
    }
    false
}

/// Which tiles are coastal ocean, game ground and plant ground.
fn deposit_grounds(cells: &Vec<HexCoord>, tiles: &Vec<SpawnTile>) -> (grounds: (Vec<bool>, Vec<bool>, Vec<bool>))
    requires
        strictly_ascending(cells@),
        tiles_have_neighbors(cells@),
        tiles@.len() == cells@.len(),
    ensures
        grounds.0@.len() == cells@.len(),
        grounds.1@.len() == cells@.len(),
        grounds.2@.len() == cells@.len(),
        forall|t: int| 0 <= t < cells@.len() ==> grounds.0@[t] == is_coastal_ocean(cells@, tiles@, t),
        forall|t: int| 0 <= t < cells@.len() ==> grounds.1@[t] == is_game_ground(tiles@, t),
        forall|t: int| 0 <= t < cells@.len() ==> grounds.2@[t] == is_plant_ground(tiles@, t),
{
    let mut coastal: Vec<bool> = Vec::new();
    let mut game: Vec<bool> = Vec::new();
    let mut plants: Vec<bool> = Vec::new();
    let mut t: usize = 0;
    while t < cells.len()
        invariant
            t <= cells@.len(),
            strictly_ascending(cells@),
            tiles_have_neighbors(cells@),
            tiles@.len() == cells@.len(),
            coastal@.len() == t,
            game@.len() == t,
            plants@.len() == t,
            forall|u: int| 0 <= u < t ==> coastal@[u] == is_coastal_ocean(cells@, tiles@, u),
            forall|u: int| 0 <= u < t ==> game@[u] == is_game_ground(tiles@, u),
            forall|u: int| 0 <= u < t ==> plants@[u] == is_plant_ground(tiles@, u),
        decreases cells@.len() - t,
    {
        let tile = tiles[t];
        let ocean = tile.ocean_state == OceanState::Ocean;
        let near_land = if ocean {
            has_land_neighbor(cells, tiles, t)
        } else {
            false
        };
        coastal.push(ocean && near_land);
        game.push(tile.ocean_state == OceanState::Land && tile.forested);
        plants.push(tile.ocean_state == OceanState::Land && tile.plant_ground);
        t += 1;
    }
    (coastal, game, plants)
}

/// The deposit that a draw gives on `coord`: of type `first` when the draw
/// picked it, `second` otherwise, with the drawn `amount`.
pub fn deposit_from_draw(
    coord: HexCoord,
    first_drawn: bool,
    first: DepositType,
    second: DepositType,
    amount: u32,
) -> (deposit: PlannedDeposit)
    ensures
        deposit == (PlannedDeposit {
            coord,
            deposit_type: if first_drawn {
                first
            } else {
                second
            },
            amount,
        }),
{
    let deposit_type = if first_drawn {
        first
    } else {
        second
    };
    PlannedDeposit { coord, deposit_type, amount }
}

/// Places `rounds` deposits on sites drawn from `sites`, none when there is
/// no site. Each is of type `first`, or, when `pick` is set, of type `first`
/// with a chance of `numerator` in `denominator` and `second` otherwise, with
/// an amount drawn from `low..high`.
fn place_deposits(
    rng: &mut StdRng,
    plan: &mut Vec<PlannedDeposit>,
    sites: &Vec<HexCoord>,
    rounds: usize,
    first: DepositType,
    second: DepositType,
    pick: bool,
    numerator: u32,
    denominator: u32,
    low: u32,
    high: u32,
)
    requires
        0 < denominator,
        numerator <= denominator,
        low < high,
        old(plan)@.len() + rounds <= usize::MAX,
    ensures
        final(plan)@.len() == old(plan)@.len() + if sites@.len() == 0 {
            0
        } else {
            rounds as int
        },
        forall|k: int| 0 <= k < old(plan)@.len() ==> final(plan)@[k] == old(plan)@[k],
        forall|k: int|
            old(plan)@.len() <= k < final(plan)@.len() ==> {
                &&& sites@.contains((#[trigger] final(plan)@[k]).coord)
                &&& low <= final(plan)@[k].amount < high
                &&& final(plan)@[k].deposit_type == first || (pick && final(plan)@[k].deposit_type == second)
            },
{
    let ghost start = plan@;
    let mut n: usize = 0;
    while n < rounds
        invariant
            n <= rounds,
            0 < denominator,
            numerator <= denominator,
            low < high,
            start.len() + rounds <= usize::MAX,
            plan@.len() == start.len() + if sites@.len() == 0 {
                0
            } else {
                n as int
            },
            forall|k: int| 0 <= k < start.len() ==> plan@[k] == start[k],
            forall|k: int|
                start.len() <= k < plan@.len() ==> {
                    &&& sites@.contains((#[trigger] plan@[k]).coord)
                    &&& low <= plan@[k].amount < high
                    &&& plan@[k].deposit_type == first || (pick && plan@[k].deposit_type == second)
                },
        decreases rounds - n,
    {
        match choose_coord(rng, sites) {
            Some(coord) => {
                let first_drawn = if pick {
                    random_ratio(rng, numerator, denominator)
                } else {
                    true
                };
                let amount = random_amount(rng, low, high);
                plan.push(deposit_from_draw(coord, first_drawn, first, second, amount));
            },
            None => {},
        }
        n += 1;
    }
}

/// Deposit `d` is a fish shoal of 5 to 14 on a coastal ocean tile.
pub open spec fn fish_deposit(cells: Seq<HexCoord>, tiles: Seq<SpawnTile>, d: PlannedDeposit) -> bool {
    &&& d.deposit_type == DepositType::OceanFish
    &&& 5 <= d.amount < 15
    &&& exists|t: int| 0 <= t < cells.len() && cells[t] == d.coord && is_coastal_ocean(cells, tiles, t)
}

/// Deposit `d` is deer or boar, 3 to 7 of them, on forested land.
pub open spec fn game_deposit(cells: Seq<HexCoord>, tiles: Seq<SpawnTile>, d: PlannedDeposit) -> bool {
    &&& d.deposit_type == DepositType::Deer || d.deposit_type == DepositType::Boar
    &&& 3 <= d.amount < 8
    &&& exists|t: int| 0 <= t < cells.len() && cells[t] == d.coord && is_game_ground(tiles, t)
}

/// Deposit `d` is wild flax or raspberries, 10 to 29 of them, on fertile
/// ground or grass.
pub open spec fn plant_deposit(cells: Seq<HexCoord>, tiles: Seq<SpawnTile>, d: PlannedDeposit) -> bool {
    &&& d.deposit_type == DepositType::WildFlax || d.deposit_type == DepositType::Raspberries
    &&& 10 <= d.amount < 30
    &&& exists|t: int| 0 <= t < cells.len() && cells[t] == d.coord && is_plant_ground(tiles, t)
}

/// Fifteen fish shoals when some tile is coastal ocean, none otherwise.
pub open spec fn fish_rounds(cells: Seq<HexCoord>, tiles: Seq<SpawnTile>) -> int {
    if exists|t: int| 0 <= t < cells.len() && is_coastal_ocean(cells, tiles, t) {
        15
    } else {
        0
    }
}

/// Ten herds when some tile is forested land, none otherwise.
pub open spec fn game_rounds(cells: Seq<HexCoord>, tiles: Seq<SpawnTile>) -> int {
    if exists|t: int| 0 <= t < cells.len() && is_game_ground(tiles, t) {
        10
    } else {
        0
    }
}

/// Twenty plant patches when some tile is fertile ground or grass, none
/// otherwise.
pub open spec fn plant_rounds(cells: Seq<HexCoord>, tiles: Seq<SpawnTile>) -> int {
    if exists|t: int| 0 <= t < cells.len() && is_plant_ground(tiles, t) {
        20
    } else {
        0
    }
}

/// Plans the wildlife and plant deposits of a map, drawn from the generator
/// seeded with `seed + 200`: fifteen fish shoals on coastal ocean, then ten
/// herds of deer (a chance of 3 in 5) or boar on forested land, then twenty
/// patches of wild flax (1 in 2) or raspberries on fertile ground or grass.
/// A kind with no suitable tile is left out.
pub fn plan_bio_deposits(layout: &MapLayout, tiles: &Vec<SpawnTile>, seed: u32) -> (plan: Vec<PlannedDeposit>)
    requires
        tiles_have_neighbors(layout.tile_seq()),
        tiles@.len() == layout.tile_seq().len(),
        seed <= u32::MAX - 200,
    ensures
        ({
            let cells = layout.tile_seq();
            let f = fish_rounds(cells, tiles@);
            let g = game_rounds(cells, tiles@);
            let h = plant_rounds(cells, tiles@);
            &&& plan@.len() == f + g + h
            &&& forall|k: int| 0 <= k < f ==> fish_deposit(cells, tiles@, #[trigger] plan@[k])
            &&& forall|k: int| f <= k < f + g ==> game_deposit(cells, tiles@, #[trigger] plan@[k])
            &&& forall|k: int| f + g <= k < f + g + h ==> plant_deposit(cells, tiles@, #[trigger] plan@[k])
        }),
{
    let cells = layout.tiles();
    let ghost ts = tiles@;
    let mut rng = seeded_rng((seed + 200) as u64);
    let (coastal, game, plants) = deposit_grounds(cells, tiles);
    let fish_sites = marked_cells(cells, &coastal);
    let game_sites = marked_cells(cells, &game);
    let plant_sites = marked_cells(cells, &plants);
    let mut plan: Vec<PlannedDeposit> = Vec::new();
    place_deposits(&mut rng, &mut plan, &fish_sites, 15, DepositType::OceanFish, DepositType::OceanFish, false, 1, 1, 5, 15);
    let ghost after_fish = plan@;
    place_deposits(&mut rng, &mut plan, &game_sites, 10, DepositType::Deer, DepositType::Boar, true, 3, 5, 3, 8);
    let ghost after_game = plan@;
    place_deposits(
        &mut rng,
        &mut plan,
        &plant_sites,
        20,
        DepositType::WildFlax,
        DepositType::Raspberries,
        true,
        1,
        2,
        10,
        30,
    );
    proof {
        let cs = cells@;
        let f = fish_rounds(cs, ts);
        let g = game_rounds(cs, ts);
        let h = plant_rounds(cs, ts);
        if exists|t: int| 0 <= t < cs.len() && is_coastal_ocean(cs, ts, t) {
            let t = choose|t: int| 0 <= t < cs.len() && is_coastal_ocean(cs, ts, t);
            assert(coastal@[t]);
        }
        if exists|t: int| 0 <= t < cs.len() && is_game_ground(ts, t) {
            let t = choose|t: int| 0 <= t < cs.len() && is_game_ground(ts, t);
            assert(game@[t]);
        }
        if exists|t: int| 0 <= t < cs.len() && is_plant_ground(ts, t) {
            let t = choose|t: int| 0 <= t < cs.len() && is_plant_ground(ts, t);
            assert(plants@[t]);
        }
        if fish_sites@.len() != 0 {
            let t = choose|t: int| 0 <= t < cs.len() && coastal@[t];
            assert(is_coastal_ocean(cs, ts, t));
        }
        if game_sites@.len() != 0 {
            let t = choose|t: int| 0 <= t < cs.len() && game@[t];
            assert(is_game_ground(ts, t));
        }
        if plant_sites@.len() != 0 {
            let t = choose|t: int| 0 <= t < cs.len() && plants@[t];
            assert(is_plant_ground(ts, t));
        }
        assert(after_fish.len() == f);
        assert(after_game.len() == f + g);
        assert forall|k: int| 0 <= k < f implies fish_deposit(cs, ts, #[trigger] plan@[k]) by {
            assert(plan@[k] == after_game[k]);
            assert(after_game[k] == after_fish[k]);
            assert(fish_sites@.contains(after_fish[k].coord));
        }
        assert forall|k: int| f <= k < f + g implies game_deposit(cs, ts, #[trigger] plan@[k]) by {
            assert(plan@[k] == after_game[k]);
            assert(game_sites@.contains(after_game[k].coord));
        }
        assert forall|k: int| f + g <= k < f + g + h implies plant_deposit(cs, ts, #[trigger] plan@[k]) by {
            assert(plant_sites@.contains(plan@[k].coord));
        }
    }
    plan
}

/// What a treasure holds.
#[derive(Debug, Clone, Copy, PartialEq, Eq, Structural)]
pub enum TreasureContents {
    /// This much gold and an ancient relic.
    GoldAndRelic(u32),
    /// This much gold.
    Gold(u32),
    /// This much wood.
    Wood(u32),
}

/// A treasure to place: where, whether it is hidden, and what it holds.
#[derive(Debug, Clone, Copy, PartialEq, Eq, Structural)]
pub struct PlannedTreasure {
    pub coord: HexCoord,
    pub hidden: bool,
    pub contents: TreasureContents,
}

/// The cells of the land tiles among the first `n` tiles, in layout order.
pub open spec fn land_cells(cells: Seq<HexCoord>, tiles: Seq<SpawnTile>, n: int) -> Seq<HexCoord>
    decreases n,
{
    if n <= 0 {
        seq![]
    } else if tiles[n - 1].ocean_state == OceanState::Land {
        land_cells(cells, tiles, n - 1).push(cells[n - 1])
    } else {
        land_cells(cells, tiles, n - 1)
    }
}

/// The sums of the `q` and of the `r` coordinates of `coords`.
pub open spec fn coordinate_sums(coords: Seq<HexCoord>) -> (int, int)
    decreases coords.len(),
{
    if coords.len() == 0 {
        (0, 0)
    } else {
        let rest = coordinate_sums(coords.drop_last());
        (rest.0 + coords.last().q, rest.1 + coords.last().r)
    }
}

/// The integer center of a nonempty list of cells: each coordinate's sum
/// divided by their number, rounding toward zero.
pub open spec fn integer_center(coords: Seq<HexCoord>) -> HexCoord {
    let sums = coordinate_sums(coords);
    HexCoord { q: tdiv(sums.0, coords.len() as int) as i32, r: tdiv(sums.1, coords.len() as int) as i32 }
}

/// `a` is nearer to `center` than `b`, ties going to the cell first in
/// `(q, r)` order.
pub open spec fn nearer(a: HexCoord, b: HexCoord, center: HexCoord) -> bool {
    ||| a.distance_spec(center) < b.distance_spec(center)
    ||| a.distance_spec(center) == b.distance_spec(center) && a.precedes(b)
}

/// The contents of a visible treasure: 50 to 149 gold with an ancient relic,
/// or 30 to 79 wood.
pub open spec fn visible_contents(contents: TreasureContents) -> bool {
    match contents {
        TreasureContents::GoldAndRelic(gold) => 50 <= gold < 150,
        TreasureContents::Wood(wood) => 30 <= wood < 80,
        TreasureContents::Gold(_) => false,
    }
}

/// The contents of a hidden treasure: 20 to 59 gold, or 15 to 39 wood.
pub open spec fn hidden_contents(contents: TreasureContents) -> bool {
    match contents {
        TreasureContents::Gold(gold) => 20 <= gold < 60,
        TreasureContents::Wood(wood) => 15 <= wood < 40,
        TreasureContents::GoldAndRelic(_) => false,
    }
}

/// `plan` holds `visible` visible treasures followed by at most four hidden
/// ones.
pub open spec fn treasure_layout(plan: Seq<PlannedTreasure>, visible: int) -> bool {
    &&& visible <= plan.len() <= visible + 4
    &&& forall|k: int| 0 <= k < plan.len() ==> ((#[trigger] plan[k]).hidden <==> k >= visible)
}

/// The cells of the land tiles, in layout order.
fn collect_land(cells: &Vec<HexCoord>, tiles: &Vec<SpawnTile>) -> (land: Vec<HexCoord>)
    requires
        tiles@.len() == cells@.len(),
    ensures
        land@ == land_cells(cells@, tiles@, cells@.len() as int),
        forall|c: HexCoord|
            land@.contains(c) <==> exists|t: int|
                0 <= t < cells@.len() && tiles@[t].ocean_state == OceanState::Land && cells@[t] == c,
        land@.len() <= cells@.len(),
{
    let mut land: Vec<HexCoord> = Vec::new();
    let mut t: usize = 0;
    while t < cells.len()
        invariant
            t <= cells@.len(),
            tiles@.len() == cells@.len(),
            land@ == land_cells(cells@, tiles@, t as int),
            land@.len() <= t,
            forall|c: HexCoord|
                land@.contains(c) <==> exists|u: int|
                    0 <= u < t && tiles@[u].ocean_state == OceanState::Land && cells@[u] == c,
        decreases cells@.len() - t,
    {
        let ghost before = land@;
        if tiles[t].ocean_state == OceanState::Land {
            land.push(cells[t]);
        }
        proof {
            assert forall|c: HexCoord| land@.contains(c) <==> exists|u: int|
                0 <= u < t + 1 && tiles@[u].ocean_state == OceanState::Land && cells@[u] == c by {
                if land@.contains(c) && !before.contains(c) {
                    assert(c == cells@[t as int]);
                }
                if before.contains(c) {
                    let w = choose|w: int| 0 <= w < before.len() && before[w] == c;
                    assert(land@[w] == c);
                }
                if exists|u: int| 0 <= u < t + 1 && tiles@[u].ocean_state == OceanState::Land && cells@[u] == c {
                    let u = choose|u: int|
                        0 <= u < t + 1 && tiles@[u].ocean_state == OceanState::Land && cells@[u] == c;
                    if u == t {
                        assert(land@[land@.len() - 1] == c);
                    }
                }
            }
        }
        t += 1;
    }
    land
}

/// The integer center of a nonempty list of cells.
fn center_of(coords: &Vec<HexCoord>) -> (center: HexCoord)
    requires
        0 < coords@.len() <= u32::MAX,
    ensures
        center == integer_center(coords@),
{
    let mut sum_q: i64 = 0;
    let mut sum_r: i64 = 0;
    let mut k: usize = 0;
    while k < coords.len()
        invariant
            k <= coords@.len() <= u32::MAX,
            (sum_q as int, sum_r as int) == coordinate_sums(coords@.take(k as int)),
            -0x8000_0000 * k <= sum_q <= 0x7fff_ffff * k,
            -0x8000_0000 * k <= sum_r <= 0x7fff_ffff * k,
        decreases coords@.len() - k,
    {
        assert(coords@.take(k as int + 1).drop_last() == coords@.take(k as int));
        assert(0x7fff_ffff * k + 0x7fff_ffff <= 0x7fff_ffff * 0x1_0000_0000) by (nonlinear_arith)
            requires
                k < 0x1_0000_0000,
        ;
        sum_q = sum_q + coords[k].q as i64;
        sum_r = sum_r + coords[k].r as i64;
        k += 1;
    }
    assert(coords@.take(coords@.len() as int) == coords@);
    let n = coords.len() as i64;
    proof {
        lemma_average_fits(sum_q as int, n as int);
        lemma_average_fits(sum_r as int, n as int);
    }
    let q = (sum_q / n) as i32;
    let r = (sum_r / n) as i32;
    HexCoord { q, r }
}

/// The truncated average of `n` values of `i32` is an `i32`.
proof fn lemma_average_fits(sum: int, n: int)
    requires
        n >= 1,
        -0x8000_0000 * n <= sum <= 0x7fff_ffff * n,
    ensures
        -0x8000_0000 <= tdiv(sum, n) <= 0x7fff_ffff,
{
    if sum >= 0 {
        assert(sum / n <= 0x7fff_ffff) by (nonlinear_arith)
            requires
                n >= 1,
                0 <= sum <= 0x7fff_ffff * n,
        ;
        assert(sum / n >= 0) by (nonlinear_arith)
            requires
                n >= 1,
                0 <= sum,
        ;
    } else {
        assert((-sum) / n <= 0x8000_0000) by (nonlinear_arith)
            requires
                n >= 1,
                0 < -sum <= 0x8000_0000 * n,
        ;
        assert((-sum) / n >= 0) by (nonlinear_arith)
            requires
                n >= 1,
                0 < -sum,
        ;
    }
}

/// The cell of `coords` nearest to `center` other than `skip`, ties going to
/// the cell first in `(q, r)` order; `None` when every cell is `skip`.
fn nearest_cell(coords: &Vec<HexCoord>, center: HexCoord, skip: Option<HexCoord>) -> (nearest: Option<HexCoord>)
    ensures
        nearest is None <==> forall|k: int| 0 <= k < coords@.len() ==> skip == Some(#[trigger] coords@[k]),
        nearest matches Some(best) ==> {
            &&& coords@.contains(best)
            &&& skip != Some(best)
            &&& forall|k: int|
                0 <= k < coords@.len() && skip != Some(#[trigger] coords@[k]) && coords@[k] != best ==> nearer(
                    best,
                    coords@[k],
                    center,
                )
        },
{
    let mut nearest: Option<HexCoord> = None;
    let mut best_distance: i64 = 0;
    let mut k: usize = 0;
    while k < coords.len()
        invariant
            k <= coords@.len(),
            nearest is None <==> forall|j: int| 0 <= j < k ==> skip == Some(#[trigger] coords@[j]),
            nearest matches Some(best) ==> {
                &&& coords@.subrange(0, k as int).contains(best)
                &&& skip != Some(best)
                &&& best_distance == best.distance_spec(center)
                &&& forall|j: int|
                    0 <= j < k && skip != Some(#[trigger] coords@[j]) && coords@[j] != best ==> nearer(
                        best,
                        coords@[j],
                        center,
                    )
            },
        decreases coords@.len() - k,
    {
        let candidate = coords[k];
        let eligible = match skip {
            Some(s) => s != candidate,
            None => true,
        };
        if eligible {
            let d = candidate.distance(center);
            match nearest {
                None => {
                    nearest = Some(candidate);
                    best_distance = d;
                    proof {
                        assert(coords@.subrange(0, k + 1)[k as int] == candidate);
                    }
                },
                Some(best) => {
                    if d < best_distance || (d == best_distance && candidate.is_before(best)) {
                        nearest = Some(candidate);
                        best_distance = d;
                        proof {
                            assert(coords@.subrange(0, k + 1)[k as int] == candidate);
                        }
                    } else {
                        proof {
                            let w = choose|w: int| 0 <= w < k && coords@.subrange(0, k as int)[w] == best;
                            assert(coords@.subrange(0, k + 1)[w] == best);
                        }
                    }
                },
            }
        } else {
            proof {
                if nearest is Some {
                    let best = nearest->0;
                    let w = choose|w: int| 0 <= w < k && coords@.subrange(0, k as int)[w] == best;
                    assert(coords@.subrange(0, k + 1)[w] == best);
                }
            }
        }
        k += 1;
    }
    proof {
        assert(coords@.subrange(0, coords@.len() as int) == coords@);
    }
    nearest
}

/// Whether some planned treasure stands on `coord`.
fn occupied(plan: &Vec<PlannedTreasure>, coord: HexCoord) -> (taken: bool)
    ensures
        taken <==> exists|k: int| 0 <= k < plan@.len() && (#[trigger] plan@[k]).coord == coord,
{
    let mut k: usize = 0;
    while k < plan.len()
        invariant
            k <= plan@.len(),
            forall|j: int| 0 <= j < k ==> (#[trigger] plan@[j]).coord != coord,
        decreases plan@.len() - k,
    {
        if plan[k].coord == coord {
            return true;
        }
        k += 1;
    }
    false
}

/// The range of the amount a treasure holds, from whether it is hidden and
/// whether gold was drawn: visible gold (with a relic) `50..150`, visible
/// wood `30..80`, hidden gold `20..60`, hidden wood `15..40`.
pub fn treasure_amount_range(hidden: bool, gold_drawn: bool) -> (range: (u32, u32))
    ensures
        range == if hidden {
            if gold_drawn {
                (20u32, 60u32)
            } else {
                (15u32, 40u32)
            }
        } else {
            if gold_drawn {
                (50u32, 150u32)
            } else {
                (30u32, 80u32)
            }
        },
{
    if hidden {
        if gold_drawn {
            (20, 60)
        } else {
            (15, 40)
        }
    } else {
        if gold_drawn {
            (50, 150)
        } else {
            (30, 80)
        }
    }
}

/// The treasure that a draw gives on `coord`: when gold was drawn, that
/// `amount` of gold (with an ancient relic for a visible treasure),
/// otherwise that amount of wood.
pub fn treasure_from_draw(coord: HexCoord, hidden: bool, gold_drawn: bool, amount: u32) -> (treasure: PlannedTreasure)
    ensures
        treasure == (PlannedTreasure {
            coord,
            hidden,
            contents: if !gold_drawn {
                TreasureContents::Wood(amount)
            } else if hidden {
                TreasureContents::Gold(amount)
            } else {
                TreasureContents::GoldAndRelic(amount)
            },
        }),
{
    let contents = if !gold_drawn {
        TreasureContents::Wood(amount)
    } else if hidden {
        TreasureContents::Gold(amount)
    } else {
        TreasureContents::GoldAndRelic(amount)
    };
    PlannedTreasure { coord, hidden, contents }
}

/// Draws a treasure on `coord`: gold with a chance of 7 in 10 for a visible
/// treasure and of 1 in 2 for a hidden one, wood otherwise, then its amount.
fn draw_treasure(rng: &mut StdRng, coord: HexCoord, hidden: bool) -> (treasure: PlannedTreasure)
    ensures
        treasure.coord == coord,
        treasure.hidden == hidden,
        !hidden ==> visible_contents(treasure.contents),
        hidden ==> hidden_contents(treasure.contents),
{
    let gold_drawn = if hidden {
        random_ratio(rng, 1, 2)
    } else {
        random_ratio(rng, 7, 10)
    };
    let (low, high) = treasure_amount_range(hidden, gold_drawn);
    let amount = random_amount(rng, low, high);
    treasure_from_draw(coord, hidden, gold_drawn, amount)
}

/// `visible` lists one or two visible treasures on the land cells nearest to
/// `center`, in order of nearness.
spec fn nearest_visible(visible: Seq<PlannedTreasure>, land: Seq<HexCoord>, center: HexCoord) -> bool {
    &&& visible.len() == 1 || (visible.len() == 2 && land.len() >= 2)
    &&& forall|k: int|
        0 <= k < visible.len() ==> !(#[trigger] visible[k]).hidden && visible_contents(visible[k].contents)
            && land.contains(visible[k].coord)
    &&& visible.len() == 2 ==> visible[0].coord != visible[1].coord && nearer(visible[0].coord, visible[1].coord, center)
    &&& forall|k: int, x: HexCoord|
        0 <= k < visible.len() && #[trigger] land.contains(x) && (forall|j: int|
            0 <= j < visible.len() ==> visible[j].coord != x) ==> nearer((#[trigger] visible[k]).coord, x, center)
}

/// Plans the treasures of a map, drawn from the generator seeded with
/// `seed + 300`: one or two visible treasures (ruins) on the land tiles
/// nearest the integer center of the land, then up to four hidden ones on
/// other land tiles, found within twenty draws. A map without land gets none.
pub fn plan_treasures(layout: &MapLayout, tiles: &Vec<SpawnTile>, seed: u32) -> (plan: Vec<PlannedTreasure>)
    requires
        tiles@.len() == layout.tile_seq().len(),
        layout.tile_seq().len() <= u32::MAX,
        seed <= u32::MAX - 300,
    ensures
        ({
            let cells = layout.tile_seq();
            let land = land_cells(cells, tiles@, cells.len() as int);
            let center = integer_center(land);
            &&& land.len() == 0 ==> plan@.len() == 0
            &&& land.len() > 0 ==> treasure_layout(plan@, 1) || (land.len() >= 2 && treasure_layout(plan@, 2))
            &&& forall|k: int| 0 <= k < plan@.len() ==> land.contains((#[trigger] plan@[k]).coord)
            &&& forall|k: int, j: int|
                0 <= k < j < plan@.len() ==> (#[trigger] plan@[k]).coord != (#[trigger] plan@[j]).coord
            &&& forall|k: int|
                0 <= k < plan@.len() && !(#[trigger] plan@[k]).hidden ==> visible_contents(plan@[k].contents)
            &&& forall|k: int|
                0 <= k < plan@.len() && (#[trigger] plan@[k]).hidden ==> hidden_contents(plan@[k].contents)
            &&& forall|k: int, x: HexCoord|
                0 <= k < plan@.len() && !(#[trigger] plan@[k]).hidden && #[trigger] land.contains(x) && (
                forall|j: int| 0 <= j < plan@.len() && !plan@[j].hidden ==> plan@[j].coord != x) ==> nearer(
                    plan@[k].coord,
                    x,
                    center,
                )
            &&& plan@.len() >= 2 && !plan@[1].hidden ==> nearer(plan@[0].coord, plan@[1].coord, center)
        }),
{
    let cells = layout.tiles();
    let mut rng = seeded_rng((seed + 300) as u64);
    let land = collect_land(cells, tiles);
    let mut plan: Vec<PlannedTreasure> = Vec::new();
    if land.len() == 0 {
        return plan;
    }
    let center = center_of(&land);
    let num_visible = random_size(&mut rng, 1, 2);
    let first = match nearest_cell(&land, center, None) {
        Some(cell) => cell,
        None => {
            // `land` is not empty, so it has a nearest cell.
            proof {
                assert(land@[0] == land@[0]);
                assert(false);
            }
            return plan;
        },
    };
    plan.push(draw_treasure(&mut rng, first, false));
    if num_visible == 2 {
        match nearest_cell(&land, center, Some(first)) {
            Some(second) => {
                plan.push(draw_treasure(&mut rng, second, false));
            },
            None => {},
        }
    }
    let ghost visible = plan@;
    proof {
        if visible.len() == 2 {
            let i0 = choose|i: int| 0 <= i < land@.len() && land@[i] == visible[0].coord;
            let i1 = choose|i: int| 0 <= i < land@.len() && land@[i] == visible[1].coord;
            assert(i0 != i1);
        }
        assert forall|k: int, x: HexCoord|
            0 <= k < visible.len() && #[trigger] land@.contains(x) && (forall|j: int|
                0 <= j < visible.len() ==> visible[j].coord != x) implies nearer((#[trigger] visible[k]).coord, x, center) by {
            let i = choose|i: int| 0 <= i < land@.len() && land@[i] == x;
            assert(visible[0].coord != x);
            if k == 1 {
                assert(visible[1].coord != x);
            }
        }
        assert(nearest_visible(visible, land@, center));
    }
    let num_hidden = random_count(&mut rng, 2, 4);
    let mut hidden_count: i32 = 0;
    let mut attempts: u32 = 0;
    while hidden_count < num_hidden && attempts < 20
        invariant
            0 <= hidden_count <= num_hidden <= 4,
            plan@.len() == visible.len() + hidden_count,
            forall|k: int| 0 <= k < visible.len() ==> plan@[k] == visible[k],
            nearest_visible(visible, land@, center),
            forall|k: int| visible.len() <= k < plan@.len() ==> (#[trigger] plan@[k]).hidden && hidden_contents(plan@[k].contents),
            forall|k: int| 0 <= k < plan@.len() ==> land@.contains((#[trigger] plan@[k]).coord),
            forall|k: int, j: int|
                0 <= k < j < plan@.len() ==> (#[trigger] plan@[k]).coord != (#[trigger] plan@[j]).coord,
        decreases 20 - attempts,
    {
        attempts += 1;
        match choose_coord(&mut rng, &land) {
            Some(coord) => {
                if !occupied(&plan, coord) {
                    let ghost before = plan@;
                    plan.push(draw_treasure(&mut rng, coord, true));
                    hidden_count += 1;
                    proof {
                        assert forall|k: int, j: int| 0 <= k < j < plan@.len() implies (#[trigger] plan@[k]).coord
                            != (#[trigger] plan@[j]).coord by {
                            if j == before.len() {
                                assert(plan@[k] == before[k]);
                            } else {
                                assert(plan@[k] == before[k] && plan@[j] == before[j]);
                            }
                        }
                    }
                }
            },
            None => {},
        }
    }
    proof {
        assert(treasure_layout(plan@, visible.len() as int)) by {
            assert forall|k: int| 0 <= k < plan@.len() implies ((#[trigger] plan@[k]).hidden <==> k >= visible.len()) by {
                if k < visible.len() {
                    assert(plan@[k] == visible[k]);
                    assert(!visible[k].hidden);
                }
            }
        }
        assert forall|k: int| 0 <= k < plan@.len() && !(#[trigger] plan@[k]).hidden implies visible_contents(
            plan@[k].contents,
        ) by {
            if k < visible.len() {
                assert(plan@[k] == visible[k]);
                assert(!visible[k].hidden);
            }
        }
        assert forall|k: int| 0 <= k < plan@.len() && (#[trigger] plan@[k]).hidden implies hidden_contents(
            plan@[k].contents,
        ) by {
            if k < visible.len() {
                assert(plan@[k] == visible[k]);
                assert(!visible[k].hidden);
            }
        }
        assert forall|k: int, x: HexCoord|
            0 <= k < plan@.len() && !(#[trigger] plan@[k]).hidden && #[trigger] land@.contains(x) && (forall|j: int|
                0 <= j < plan@.len() && !plan@[j].hidden ==> plan@[j].coord != x) implies nearer(
            plan@[k].coord,
            x,
            center,
        ) by {
            assert(k < visible.len()) by {
                if k >= visible.len() {
                    assert(plan@[k].hidden);
                }
            }
            assert(plan@[k] == visible[k]);
            assert forall|j: int| 0 <= j < visible.len() implies visible[j].coord != x by {
                assert(plan@[j] == visible[j]);
                assert(!visible[j].hidden);
            }
            assert(nearer(visible[k].coord, x, center));
        }
        if plan@.len() >= 2 && !plan@[1].hidden {
            assert(1 < visible.len()) by {
                if visible.len() <= 1 {
                    assert(plan@[1].hidden);
                }
            }
            assert(plan@[0] == visible[0] && plan@[1] == visible[1]);
        }
    }
    plan
}

/// The kind of a faction.
#[derive(Debug, Clone, Copy, PartialEq, Eq, Hash, Structural)]
pub enum FactionType {
    Player,
    Neutral,
    Enemy,
}

/// A faction and its kind.
#[derive(Debug, Clone, Copy, PartialEq, Eq, Structural)]
pub struct FactionInfo {
    pub id: u32,
    pub faction_type: FactionType,
}

/// The kind of a point of interest placed on the map.
#[derive(Debug, Clone, Copy, PartialEq, Eq, Hash, Structural)]
pub enum PoiType {
    Treasure,
    Ruins,
}

/// The center of a faction's settlement: the village center of a neutral
/// faction, or the main camp of an enemy one.
#[derive(Debug, Clone, Copy, PartialEq, Eq, Structural)]
pub struct PlannedSettlement {
    pub faction_id: u32,
    pub coord: HexCoord,
    pub enemy: bool,
}

/// A point of interest to place.
#[derive(Debug, Clone, Copy, PartialEq, Eq, Structural)]
pub struct PlannedPoi {
    pub coord: HexCoord,
    pub poi_type: PoiType,
}

/// The settlements of the factions and the scattered points of interest.
#[derive(Debug, Clone)]
pub struct NpcSitePlan {
    pub settlements: Vec<PlannedSettlement>,
    pub pois: Vec<PlannedPoi>,
}

/// Entry `k` is the first that lists faction `id`.
pub open spec fn first_listing(factions: Seq<FactionInfo>, id: u32, k: int) -> bool {
    &&& 0 <= k < factions.len()
    &&& factions[k].id == id
    &&& forall|j: int| 0 <= j < k ==> (#[trigger] factions[j]).id != id
}

/// The kind of faction `id`: that of the first entry listing it, neutral
/// when none does.
pub open spec fn faction_kind(factions: Seq<FactionInfo>, id: u32) -> FactionType {
    if exists|k: int| first_listing(factions, id, k) {
        factions[choose|k: int| first_listing(factions, id, k)].faction_type
    } else {
        FactionType::Neutral
    }
}

/// The cells of the tiles held by faction `id` among the first `n` tiles, in
/// layout order.
pub open spec fn held_cells(cells: Seq<HexCoord>, tiles: Seq<SpawnTile>, id: u32, n: int) -> Seq<HexCoord>
    decreases n,
{
    if n <= 0 {
        seq![]
    } else if tiles[n - 1].faction_id == Some(id) {
        held_cells(cells, tiles, id, n - 1).push(cells[n - 1])
    } else {
        held_cells(cells, tiles, id, n - 1)
    }
}

/// How poorly tile `t` suits a settlement around `center`: a hundred per step
/// from the center plus the flatness key of the tile.
pub open spec fn site_key(cells: Seq<HexCoord>, flatness: Seq<i32>, t: int, center: HexCoord) -> int {
    cells[t].distance_spec(center) * 100 + flatness[t]
}

/// Tile `t` is the settlement site of faction `id`: held by it, of the least
/// key around the center of the faction's tiles, the first such in layout
/// order.
pub open spec fn settlement_site(cells: Seq<HexCoord>, tiles: Seq<SpawnTile>, flatness: Seq<i32>, id: u32, t: int) -> bool {
    let center = integer_center(held_cells(cells, tiles, id, cells.len() as int));
    &&& 0 <= t < cells.len()
    &&& tiles[t].faction_id == Some(id)
    &&& forall|u: int|
        0 <= u < cells.len() && (#[trigger] tiles[u]).faction_id == Some(id) ==> site_key(cells, flatness, t, center)
            <= site_key(cells, flatness, u, center)
    &&& forall|u: int|
        0 <= u < t && (#[trigger] tiles[u]).faction_id == Some(id) ==> site_key(cells, flatness, t, center)
            < site_key(cells, flatness, u, center)
}

/// Faction `id` gets a settlement: it holds a tile, is not the player's
/// faction, and is not of the player's kind.
pub open spec fn settles(tiles: Seq<SpawnTile>, factions: Seq<FactionInfo>, id: u32) -> bool {
    &&& id != 1
    &&& exists|t: int| 0 <= t < tiles.len() && (#[trigger] tiles[t]).faction_id == Some(id)
    &&& faction_kind(factions, id) != FactionType::Player
}

/// Tile `t` is free land without a landscape feature.
pub open spec fn is_open_land(tiles: Seq<SpawnTile>, t: int) -> bool {
    &&& tiles[t].ocean_state == OceanState::Land
    &&& tiles[t].faction_id is None
    &&& tiles[t].landscape_feature == LandscapeFeature::NoFeature
}

/// The point of interest that a draw gives on `coord`: a treasure when the
/// draw picked one, ruins otherwise.
pub fn poi_from_draw(coord: HexCoord, treasure_drawn: bool) -> (poi: PlannedPoi)
    ensures
        poi == (PlannedPoi {
            coord,
            poi_type: if treasure_drawn {
                PoiType::Treasure
            } else {
                PoiType::Ruins
            },
        }),
{
    let poi_type = if treasure_drawn {
        PoiType::Treasure
    } else {
        PoiType::Ruins
    };
    PlannedPoi { coord, poi_type }
}

/// `coord` is the cell of a tile of free land without a landscape feature.
pub open spec fn on_open_land(cells: Seq<HexCoord>, tiles: Seq<SpawnTile>, coord: HexCoord) -> bool {
    exists|t: int| 0 <= t < cells.len() && is_open_land(tiles, t) && cells[t] == coord
}

/// The kind of faction `id`.
fn kind_of(factions: &Vec<FactionInfo>, id: u32) -> (kind: FactionType)
    ensures
        kind == faction_kind(factions@, id),
{
    let mut k: usize = 0;
    while k < factions.len()
        invariant
            k <= factions@.len(),
            forall|j: int| 0 <= j < k ==> (#[trigger] factions@[j]).id != id,
        decreases factions@.len() - k,
    {
        if factions[k].id == id {
            proof {
                assert(first_listing(factions@, id, k as int));
                let c = choose|c: int| first_listing(factions@, id, c);
                if c < k {
                    assert(factions@[c].id != id);
                }
                if c > k {
                    assert(factions@[k as int].id != id);
                }
            }
            return factions[k].faction_type;
        }
        k += 1;
    }
    proof {
        if exists|c: int| first_listing(factions@, id, c) {
            let c = choose|c: int| first_listing(factions@, id, c);
            assert(factions@[c].id != id);
        }
    }
    FactionType::Neutral
}

/// The cells of the tiles held by faction `id`, in layout order.
fn collect_held(cells: &Vec<HexCoord>, tiles: &Vec<SpawnTile>, id: u32) -> (held: Vec<HexCoord>)
    requires
        tiles@.len() == cells@.len(),
    ensures
        held@ == held_cells(cells@, tiles@, id, cells@.len() as int),
        held@.len() <= cells@.len(),
        held@.len() > 0 <==> exists|t: int| 0 <= t < cells@.len() && (#[trigger] tiles@[t]).faction_id == Some(id),
{
    let mut held: Vec<HexCoord> = Vec::new();
    let mut t: usize = 0;
    while t < cells.len()
        invariant
            t <= cells@.len(),
            tiles@.len() == cells@.len(),
            held@ == held_cells(cells@, tiles@, id, t as int),
            held@.len() <= t,
            held@.len() > 0 <==> exists|u: int| 0 <= u < t && (#[trigger] tiles@[u]).faction_id == Some(id),
        decreases cells@.len() - t,
    {
        if tiles[t].faction_id == Some(id) {
            held.push(cells[t]);
        }
        proof {
            if held@.len() > 0 && !(exists|u: int| 0 <= u < t && (#[trigger] tiles@[u]).faction_id == Some(id)) {
                assert(tiles@[t as int].faction_id == Some(id));
            }
        }
        t += 1;
    }
    held
}

/// The settlement site of faction `id` around `center`.
fn settlement_site_of(
    cells: &Vec<HexCoord>,
    tiles: &Vec<SpawnTile>,
    flatness: &Vec<i32>,
    id: u32,
    center: HexCoord,
) -> (site: usize)
    requires
        tiles@.len() == cells@.len(),
        flatness@.len() == cells@.len(),
        center == integer_center(held_cells(cells@, tiles@, id, cells@.len() as int)),
        exists|t: int| 0 <= t < cells@.len() && (#[trigger] tiles@[t]).faction_id == Some(id),
    ensures
        settlement_site(cells@, tiles@, flatness@, id, site as int),
{
    let mut best: usize = 0;
    let mut best_key: i64 = 0;
    let mut found = false;
    let mut t: usize = 0;
    while t < cells.len()
        invariant
            t <= cells@.len(),
            tiles@.len() == cells@.len(),
            flatness@.len() == cells@.len(),
            found <==> exists|u: int| 0 <= u < t && (#[trigger] tiles@[u]).faction_id == Some(id),
            found ==> {
                &&& best < t
                &&& tiles@[best as int].faction_id == Some(id)
                &&& best_key == site_key(cells@, flatness@, best as int, center)
                &&& forall|u: int|
                    0 <= u < t && (#[trigger] tiles@[u]).faction_id == Some(id) ==> best_key <= site_key(
                        cells@,
                        flatness@,
                        u,
                        center,
                    )
                &&& forall|u: int|
                    0 <= u < best && (#[trigger] tiles@[u]).faction_id == Some(id) ==> best_key < site_key(
                        cells@,
                        flatness@,
                        u,
                        center,
                    )
            },
        decreases cells@.len() - t,
    {
        if tiles[t].faction_id == Some(id) {
            let key = cells[t].distance(center) * 100 + flatness[t] as i64;
            if !found || key < best_key {
                best = t;
                best_key = key;
                found = true;
            }
        }
        t += 1;
    }
    best
}

/// The settlements of the first `k` factions of `ids`: one for each of them
/// that settles, each on its site, no faction twice, and every faction held
/// on the map listed in `ids`.
pub open spec fn settled_prefix(
    cells: Seq<HexCoord>,
    tiles: Seq<SpawnTile>,
    flatness: Seq<i32>,
    factions: Seq<FactionInfo>,
    ids: Seq<u32>,
    k: int,
    settlements: Seq<PlannedSettlement>,
) -> bool {
    &&& forall|j: int|
        0 <= j < settlements.len() ==> {
            let s = #[trigger] settlements[j];
            &&& settles(tiles, factions, s.faction_id)
            &&& s.enemy == (faction_kind(factions, s.faction_id) == FactionType::Enemy)
            &&& exists|u: int| settlement_site(cells, tiles, flatness, s.faction_id, u) && cells[u] == s.coord
            &&& exists|i: int| 0 <= i < k && ids[i] == s.faction_id
        }
    &&& forall|i: int|
        0 <= i < k && settles(tiles, factions, #[trigger] ids[i]) ==> exists|j: int|
            0 <= j < settlements.len() && (#[trigger] settlements[j]).faction_id == ids[i]
    &&& forall|j: int, m: int|
        0 <= j < m < settlements.len() ==> (#[trigger] settlements[j]).faction_id != (#[trigger] settlements[m]).faction_id
    &&& forall|id: u32|
        ids.contains(id) <==> exists|u: int| 0 <= u < tiles.len() && (#[trigger] tiles[u]).faction_id == Some(id)
}

/// Adds the settlement of faction `ids[k]`, if it settles.
#[verifier::rlimit(30)]
fn settle_next(
    cells: &Vec<HexCoord>,
    tiles: &Vec<SpawnTile>,
    flatness: &Vec<i32>,
    factions: &Vec<FactionInfo>,
    ids: &Vec<u32>,
    k: usize,
    settlements: &mut Vec<PlannedSettlement>,
)
    requires
        k < ids@.len(),
        cells@.len() <= u32::MAX,
        tiles@.len() == cells@.len(),
        flatness@.len() == cells@.len(),
        ids@.no_duplicates(),
        settled_prefix(cells@, tiles@, flatness@, factions@, ids@, k as int, old(settlements)@),
    ensures
        settled_prefix(cells@, tiles@, flatness@, factions@, ids@, k + 1, final(settlements)@),
{
    let id = ids[k];
    let ghost before = settlements@;
    let kind = kind_of(factions, id);
    if id != 1 && kind != FactionType::Player {
        assert(ids@.contains(id));
        let held = collect_held(cells, tiles, id);
        let center = center_of(&held);
        let site = settlement_site_of(cells, tiles, flatness, id, center);
        settlements.push(PlannedSettlement { faction_id: id, coord: cells[site], enemy: kind == FactionType::Enemy });
        proof {
            assert(settles(tiles@, factions@, id));
            assert forall|j: int, m: int| 0 <= j < m < settlements@.len() implies (#[trigger] settlements@[j]).faction_id
                != (#[trigger] settlements@[m]).faction_id by {
                if m == before.len() {
                    assert(settlements@[j] == before[j]);
                    let i = choose|i: int| 0 <= i < k && ids@[i] == before[j].faction_id;
                    assert(ids@[i] != ids@[k as int]);
                } else {
                    assert(settlements@[j] == before[j] && settlements@[m] == before[m]);
                }
            }
            assert forall|j: int| 0 <= j < settlements@.len() implies {
                let s = #[trigger] settlements@[j];
                &&& settles(tiles@, factions@, s.faction_id)
                &&& s.enemy == (faction_kind(factions@, s.faction_id) == FactionType::Enemy)
                &&& exists|u: int| settlement_site(cells@, tiles@, flatness@, s.faction_id, u) && cells@[u] == s.coord
                &&& exists|i: int| 0 <= i < k + 1 && ids@[i] == s.faction_id
            } by {
                if j < before.len() {
                    assert(settlements@[j] == before[j]);
                    let i = choose|i: int| 0 <= i < k && ids@[i] == before[j].faction_id;
                    assert(0 <= i < k + 1 && ids@[i] == settlements@[j].faction_id);
                } else {
                    assert(settlement_site(cells@, tiles@, flatness@, id, site as int));
                    assert(ids@[k as int] == settlements@[j].faction_id);
                }
            }
            assert forall|i: int| 0 <= i < k + 1 && settles(tiles@, factions@, #[trigger] ids@[i]) implies exists|j: int|
                0 <= j < settlements@.len() && (#[trigger] settlements@[j]).faction_id == ids@[i] by {
                if i < k {
                    let j = choose|j: int| 0 <= j < before.len() && (#[trigger] before[j]).faction_id == ids@[i];
                    assert(settlements@[j] == before[j]);
                } else {
                    assert(settlements@[before.len() as int].faction_id == ids@[i]);
                }
            }
        }
    } else {
        proof {
            assert(!settles(tiles@, factions@, id));
            assert forall|j: int| 0 <= j < settlements@.len() implies exists|i: int|
                0 <= i < k + 1 && ids@[i] == (#[trigger] settlements@[j]).faction_id by {
                let i = choose|i: int| 0 <= i < k && ids@[i] == settlements@[j].faction_id;
            }
        }
    }
}

/// Plans the settlement centers and the scattered points of interest of a
/// map. Each faction other than the player's (id 1) that holds tiles and is
/// not of the player's kind gets one settlement, on its tile of least
/// `100 * steps to the center of its tiles + flatness key` (the first such
/// in layout order); the list follows the order in which the factions first
/// appear in the layout. Then five points of interest are drawn from the
/// generator seeded with `seed + 100` on free land without a landscape
/// feature, each a treasure with a chance of 7 in 10 and ruins otherwise;
/// none when no such tile exists.
pub fn plan_npc_sites(
    layout: &MapLayout,
    tiles: &Vec<SpawnTile>,
    flatness: &Vec<i32>,
    factions: &Vec<FactionInfo>,
    seed: u32,
) -> (plan: NpcSitePlan)
    requires
        tiles@.len() == layout.tile_seq().len(),
        flatness@.len() == layout.tile_seq().len(),
        layout.tile_seq().len() <= u32::MAX,
        seed <= u32::MAX - 100,
    ensures
        ({
            let cells = layout.tile_seq();
            &&& forall|k: int|
                0 <= k < plan.settlements@.len() ==> {
                    let s = #[trigger] plan.settlements@[k];
                    &&& settles(tiles@, factions@, s.faction_id)
                    &&& s.enemy == (faction_kind(factions@, s.faction_id) == FactionType::Enemy)
                    &&& exists|t: int| settlement_site(cells, tiles@, flatness@, s.faction_id, t) && cells[t] == s.coord
                }
            &&& forall|id: u32|
                settles(tiles@, factions@, id) ==> exists|k: int|
                    0 <= k < plan.settlements@.len() && (#[trigger] plan.settlements@[k]).faction_id == id
            &&& forall|k: int, j: int|
                0 <= k < j < plan.settlements@.len() ==> (#[trigger] plan.settlements@[k]).faction_id
                    != (#[trigger] plan.settlements@[j]).faction_id
            &&& plan.pois@.len() == if exists|t: int| 0 <= t < cells.len() && is_open_land(tiles@, t) {
                5int
            } else {
                0
            }
            &&& forall|k: int| 0 <= k < plan.pois@.len() ==> on_open_land(cells, tiles@, (#[trigger] plan.pois@[k]).coord)
        }),
{
    let cells = layout.tiles();
    let mut rng = seeded_rng((seed + 100) as u64);
    let ids = faction_ids(tiles);
    let mut settlements: Vec<PlannedSettlement> = Vec::new();
    let mut k: usize = 0;
    while k < ids.len()
        invariant
            k <= ids@.len(),
            cells@ == layout.tile_seq(),
            cells@.len() <= u32::MAX,
            tiles@.len() == cells@.len(),
            flatness@.len() == cells@.len(),
            ids@.no_duplicates(),
            settled_prefix(cells@, tiles@, flatness@, factions@, ids@, k as int, settlements@),
        decreases ids@.len() - k,
    {
        settle_next(cells, tiles, flatness, factions, &ids, k, &mut settlements);
        k += 1;
    }
    let open: Vec<bool> = open_land(tiles);
    let sites = marked_cells(cells, &open);
    let mut pois: Vec<PlannedPoi> = Vec::new();
    let mut n: usize = 0;
    while n < 5
        invariant
            n <= 5,
            cells@ == layout.tile_seq(),
            open@.len() == cells@.len(),
            tiles@.len() == cells@.len(),
            forall|u: int| 0 <= u < tiles@.len() ==> open@[u] == is_open_land(tiles@, u),
            forall|c: HexCoord| sites@.contains(c) <==> marked_cell(cells@, open@, c),
            sites@.len() == 0 <==> forall|u: int| 0 <= u < cells@.len() ==> !open@[u],
            settled_prefix(cells@, tiles@, flatness@, factions@, ids@, ids@.len() as int, settlements@),
            pois@.len() == if sites@.len() == 0 {
                0
            } else {
                n as int
            },
            forall|k: int| 0 <= k < pois@.len() ==> sites@.contains((#[trigger] pois@[k]).coord),
        decreases 5 - n,
    {
        match choose_coord(&mut rng, &sites) {
            Some(coord) => {
                let treasure_drawn = random_ratio(&mut rng, 7, 10);
                pois.push(poi_from_draw(coord, treasure_drawn));
            },
            None => {},
        }
        n += 1;
    }
    proof {
        let cs = cells@;
        if exists|u: int| 0 <= u < cs.len() && is_open_land(tiles@, u) {
            let u = choose|u: int| 0 <= u < cs.len() && is_open_land(tiles@, u);
            assert(open@[u]);
        }
        assert forall|id: u32| settles(tiles@, factions@, id) implies exists|j: int|
            0 <= j < settlements@.len() && (#[trigger] settlements@[j]).faction_id == id by {
            let u = choose|u: int| 0 <= u < tiles@.len() && (#[trigger] tiles@[u]).faction_id == Some(id);
            assert(ids@.contains(id));
            let i = choose|i: int| 0 <= i < ids@.len() && ids@[i] == id;
            assert(settles(tiles@, factions@, ids@[i]));
        }
    }
    let ghost placed = pois@;
    let ghost settled = settlements@;
    let plan = NpcSitePlan { settlements, pois };
    assert(plan.pois@ == placed && plan.settlements@ == settled);
    assert forall|k: int| 0 <= k < plan.pois@.len() implies on_open_land(
        layout.tile_seq(),
        tiles@,
        (#[trigger] plan.pois@[k]).coord,
    ) by {
        assert(plan.pois@[k] == placed[k]);
        assert(sites@.contains(placed[k].coord));
        let u = choose|u: int| 0 <= u < cells@.len() && open@[u] && cells@[u] == placed[k].coord;
        assert(is_open_land(tiles@, u));
    }
    plan
}

/// Whether `id` is listed in `ids`.
fn listed(ids: &Vec<u32>, id: u32) -> (found: bool)
    ensures
        found == ids@.contains(id),
{
    let mut k: usize = 0;
    while k < ids.len()
        invariant
            k <= ids@.len(),
            forall|j: int| 0 <= j < k ==> ids@[j] != id,
        decreases ids@.len() - k,
    {
        if ids[k] == id {
            return true;
        }
        k += 1;
    }
    false
}

/// The factions that hold tiles, each once, in the order in which they first
/// appear in the layout.
fn faction_ids(tiles: &Vec<SpawnTile>) -> (ids: Vec<u32>)
    ensures
        ids@.no_duplicates(),
        forall|id: u32| ids@.contains(id) <==> exists|u: int| 0 <= u < tiles@.len() && (#[trigger] tiles@[u]).faction_id == Some(id),
{
    let mut ids: Vec<u32> = Vec::new();
    let mut t: usize = 0;
    while t < tiles.len()
        invariant
            t <= tiles@.len(),
            ids@.no_duplicates(),
            forall|id: u32| ids@.contains(id) <==> exists|u: int| 0 <= u < t && (#[trigger] tiles@[u]).faction_id == Some(id),
        decreases tiles@.len() - t,
    {
        let ghost before = ids@;
        if let Some(id) = tiles[t].faction_id {
            if !listed(&ids, id) {
                ids.push(id);
            }
        }
        proof {
            assert forall|id: u32| ids@.contains(id) <==> exists|u: int|
                0 <= u < t + 1 && (#[trigger] tiles@[u]).faction_id == Some(id) by {
                if ids@.contains(id) && !before.contains(id) {
                    assert(ids@[ids@.len() - 1] == id);
                    assert(tiles@[t as int].faction_id == Some(id));
                }
                if before.contains(id) {
                    let w = choose|w: int| 0 <= w < before.len() && before[w] == id;
                    assert(ids@[w] == id);
                }
                if exists|u: int| 0 <= u < t + 1 && (#[trigger] tiles@[u]).faction_id == Some(id) {
                    let u = choose|u: int| 0 <= u < t + 1 && (#[trigger] tiles@[u]).faction_id == Some(id);
                    if u == t {
                        if !before.contains(id) {
                            assert(ids@[ids@.len() - 1] == id);
                        }
                    }
                }
            }
        }
        t += 1;
    }
    ids
}

/// Which tiles are free land without a landscape feature.
fn open_land(tiles: &Vec<SpawnTile>) -> (marks: Vec<bool>)
    ensures
        marks@.len() == tiles@.len(),
        forall|t: int| 0 <= t < tiles@.len() ==> marks@[t] == is_open_land(tiles@, t),
{
    let mut marks: Vec<bool> = Vec::new();
    let mut t: usize = 0;
    while t < tiles.len()
        invariant
            t <= tiles@.len(),
            marks@.len() == t,
            forall|u: int| 0 <= u < t ==> marks@[u] == is_open_land(tiles@, u),
        decreases tiles@.len() - t,
    {
        let tile = tiles[t];
        marks.push(
            tile.ocean_state == OceanState::Land && tile.faction_id.is_none() && tile.landscape_feature
                == LandscapeFeature::NoFeature,
        );
        t += 1;
    }
    marks
}

} // verus!
