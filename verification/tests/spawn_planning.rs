//! Deposits and treasures planned over small maps.
use std::collections::HashSet;

use face_topology::cliffs::{LandscapeFeature, OceanState};
use face_topology::hex_coord::HexCoord;
use face_topology::map_layout::MapLayout;
use face_topology::spawn_plans::{
    deposit_from_draw, plan_bio_deposits, plan_npc_sites, plan_treasures, poi_from_draw, treasure_amount_range,
    treasure_from_draw, DepositType, FactionInfo, FactionType, PlannedDeposit, PlannedPoi, PlannedTreasure, PoiType,
    SpawnTile, TreasureContents,
};

fn ring_distance(a: HexCoord, b: HexCoord) -> i32 {
    let dq = a.q - b.q;
    let dr = a.r - b.r;
    (dq.abs() + dr.abs() + (dq + dr).abs()) / 2
}

/// A hexagonal map of radius `size` whose cells within `land` of the origin
/// are land; land in the east half is forested, the rest grass.
fn island(size: i32, land: i32) -> (MapLayout, Vec<SpawnTile>) {
    let mut map = MapLayout::new(0, 0);
    for q in -size..=size {
        for r in -size..=size {
            if (q + r).abs() <= size {
                map.insert_tile(HexCoord::new(q, r));
            }
        }
    }
    let origin = HexCoord::new(0, 0);
    let tiles = map
        .tiles()
        .iter()
        .map(|&c| {
            let is_land = ring_distance(c, origin) <= land;
            SpawnTile {
                ocean_state: if is_land { OceanState::Land } else { OceanState::Ocean },
                faction_id: None,
                landscape_feature: LandscapeFeature::NoFeature,
                forested: is_land && c.q > 0,
                plant_ground: is_land && c.q <= 0,
            }
        })
        .collect();
    (map, tiles)
}

#[test]
fn bio_deposits_follow_their_grounds() {
    let (map, tiles) = island(5, 3);
    for seed in [0u32, 9, 123] {
        let plan = plan_bio_deposits(&map, &tiles, seed);
        assert_eq!(plan.len(), 45);
        assert_eq!(plan, plan_bio_deposits(&map, &tiles, seed), "same seed, same plan");
        for (k, deposit) in plan.iter().enumerate() {
            let index = map.tiles().iter().position(|&c| c == deposit.coord).unwrap();
            let tile = tiles[index];
            if k < 15 {
                assert_eq!(deposit.deposit_type, DepositType::OceanFish);
                assert_eq!(tile.ocean_state, OceanState::Ocean);
                assert!(ring_distance(deposit.coord, HexCoord::new(0, 0)) == 4);
                assert!((5..15).contains(&deposit.amount));
            } else if k < 25 {
                assert!(matches!(deposit.deposit_type, DepositType::Deer | DepositType::Boar));
                assert!(tile.forested && tile.ocean_state == OceanState::Land);
                assert!((3..8).contains(&deposit.amount));
            } else {
                assert!(matches!(deposit.deposit_type, DepositType::WildFlax | DepositType::Raspberries));
                assert!(tile.plant_ground && tile.ocean_state == OceanState::Land);
                assert!((10..30).contains(&deposit.amount));
            }
        }
    }
}

#[test]
fn bio_deposits_skip_kinds_without_ground() {
    // All ocean: no coast, no forest, no plants.
    let (map, tiles) = island(3, -1);
    assert!(plan_bio_deposits(&map, &tiles, 4).is_empty());
    // All land: no coastal ocean, so only game and plants.
    let (map, tiles) = island(3, 3);
    let plan = plan_bio_deposits(&map, &tiles, 4);
    assert_eq!(plan.len(), 30);
    assert!(plan.iter().all(|d| d.deposit_type != DepositType::OceanFish));
}

fn check_treasures(map: &MapLayout, tiles: &[SpawnTile], plan: &[PlannedTreasure]) {
    let land: Vec<HexCoord> =
        map.tiles().iter().zip(tiles).filter(|(_, t)| t.ocean_state == OceanState::Land).map(|(c, _)| *c).collect();
    let n = land.len() as i64;
    let center = HexCoord::new(
        (land.iter().map(|c| i64::from(c.q)).sum::<i64>() / n) as i32,
        (land.iter().map(|c| i64::from(c.r)).sum::<i64>() / n) as i32,
    );
    let visible: Vec<&PlannedTreasure> = plan.iter().filter(|t| !t.hidden).collect();
    assert!((1..=2).contains(&visible.len()));
    assert!(plan.len() <= visible.len() + 4);
    for (k, treasure) in plan.iter().enumerate() {
        assert_eq!(treasure.hidden, k >= visible.len());
        assert!(land.contains(&treasure.coord));
        match (treasure.hidden, treasure.contents) {
            (false, TreasureContents::GoldAndRelic(gold)) => assert!((50..150).contains(&gold)),
            (false, TreasureContents::Wood(wood)) => assert!((30..80).contains(&wood)),
            (true, TreasureContents::Gold(gold)) => assert!((20..60).contains(&gold)),
            (true, TreasureContents::Wood(wood)) => assert!((15..40).contains(&wood)),
            other => panic!("unexpected contents {other:?}"),
        }
    }
    let coords: HashSet<HexCoord> = plan.iter().map(|t| t.coord).collect();
    assert_eq!(coords.len(), plan.len());
    let key = |c: HexCoord| (ring_distance(c, center), c.q, c.r);
    let mut sorted = land.clone();
    sorted.sort_by_key(|&c| key(c));
    for (k, treasure) in visible.iter().enumerate() {
        assert_eq!(treasure.coord, sorted[k]);
    }
}

#[test]
fn treasures_sit_near_the_center_and_apart() {
    let (map, tiles) = island(5, 3);
    for seed in [0u32, 2, 17, 500] {
        let plan = plan_treasures(&map, &tiles, seed);
        check_treasures(&map, &tiles, &plan);
        assert_eq!(plan[0].coord, HexCoord::new(0, 0));
        assert_eq!(plan, plan_treasures(&map, &tiles, seed));
    }
    // An island off center: the visible treasure moves with the land.
    let (map, mut tiles) = island(5, 5);
    for (tile, coord) in tiles.iter_mut().zip(map.tiles()) {
        if coord.q < 2 {
            tile.ocean_state = OceanState::Ocean;
        }
    }
    let plan = plan_treasures(&map, &tiles, 8);
    check_treasures(&map, &tiles, &plan);
}

#[test]
fn treasures_need_land() {
    let (map, tiles) = island(3, -1);
    assert!(plan_treasures(&map, &tiles, 1).is_empty());
    let (map, tiles) = island(3, 0);
    let plan = plan_treasures(&map, &tiles, 1);
    assert_eq!(plan.len(), 1);
    assert_eq!(plan[0].coord, HexCoord::new(0, 0));
    assert!(!plan[0].hidden);
}

/// The settlement site of `faction` as the rule gives it: the held tile of
/// least `100 * steps to the center + flatness`, the first such in layout
/// order.
fn expected_site(map: &MapLayout, tiles: &[SpawnTile], flatness: &[i32], faction: u32) -> HexCoord {
    let held: Vec<(usize, HexCoord)> = map
        .tiles()
        .iter()
        .enumerate()
        .filter(|(t, _)| tiles[*t].faction_id == Some(faction))
        .map(|(t, c)| (t, *c))
        .collect();
    let n = held.len() as i64;
    let center = HexCoord::new(
        (held.iter().map(|(_, c)| i64::from(c.q)).sum::<i64>() / n) as i32,
        (held.iter().map(|(_, c)| i64::from(c.r)).sum::<i64>() / n) as i32,
    );
    held.iter().min_by_key(|(t, c)| ring_distance(*c, center) * 100 + flatness[*t]).unwrap().1
}

#[test]
fn npc_settlements_sit_at_the_heart_of_their_factions() {
    let (map, mut tiles) = island(5, 5);
    let mut flatness = vec![0i32; tiles.len()];
    for (t, coord) in map.tiles().iter().enumerate() {
        tiles[t].faction_id = match coord.q {
            q if q <= -3 => Some(2),
            q if q >= 3 => Some(3),
            0 if coord.r > 2 => Some(1),
            0 if coord.r < -2 => Some(4),
            1 if coord.r < -2 => Some(5),
            _ => None,
        };
        if coord.r == 0 {
            flatness[t] = 250;
        }
        if coord.q == -1 && coord.r == 1 {
            tiles[t].landscape_feature = LandscapeFeature::Mountain;
        }
    }
    let factions = vec![
        FactionInfo { id: 2, faction_type: FactionType::Neutral },
        FactionInfo { id: 3, faction_type: FactionType::Enemy },
        FactionInfo { id: 4, faction_type: FactionType::Player },
        FactionInfo { id: 3, faction_type: FactionType::Neutral },
    ];
    let plan = plan_npc_sites(&map, &tiles, &flatness, &factions, 21);
    let ids: Vec<u32> = plan.settlements.iter().map(|s| s.faction_id).collect();
    assert_eq!(ids, vec![2, 5, 3], "factions in order of first appearance, without the player's");
    for settlement in &plan.settlements {
        assert_eq!(settlement.coord, expected_site(&map, &tiles, &flatness, settlement.faction_id));
        assert_eq!(settlement.enemy, settlement.faction_id == 3);
    }
    assert_eq!(plan.pois.len(), 5);
    for poi in &plan.pois {
        let t = map.tiles().iter().position(|&c| c == poi.coord).unwrap();
        assert_eq!(tiles[t].ocean_state, OceanState::Land);
        assert_eq!(tiles[t].faction_id, None);
        assert_eq!(tiles[t].landscape_feature, LandscapeFeature::NoFeature);
        assert!(matches!(poi.poi_type, PoiType::Treasure | PoiType::Ruins));
    }
    let again = plan_npc_sites(&map, &tiles, &flatness, &factions, 21);
    assert_eq!(again.settlements, plan.settlements);
    assert_eq!(again.pois, plan.pois);
}

#[test]
fn npc_sites_need_open_land_for_points_of_interest() {
    let (map, mut tiles) = island(3, 3);
    for tile in tiles.iter_mut() {
        tile.faction_id = Some(6);
    }
    let flatness = vec![0i32; tiles.len()];
    let plan = plan_npc_sites(&map, &tiles, &flatness, &Vec::new(), 0);
    assert!(plan.pois.is_empty());
    assert_eq!(plan.settlements.len(), 1);
    assert_eq!(plan.settlements[0].coord, HexCoord::new(0, 0));
    assert!(!plan.settlements[0].enemy);
}

#[test]
fn spawn_draws_vary_with_the_generator() {
    let (map, tiles) = island(5, 3);
    let mut fish_amounts = HashSet::new();
    let mut game_types = HashSet::new();
    let mut hidden = 0;
    for seed in [0u32, 9, 123] {
        let plan = plan_bio_deposits(&map, &tiles, seed);
        fish_amounts.extend(plan[..15].iter().map(|d| d.amount));
        game_types.extend(plan[15..25].iter().map(|d| d.deposit_type));
        hidden += plan_treasures(&map, &tiles, seed).iter().filter(|t| t.hidden).count();
    }
    assert!(fish_amounts.len() > 1, "{fish_amounts:?}");
    assert_eq!(game_types.len(), 2, "{game_types:?}");
    assert!(hidden >= 3, "{hidden}");
}

#[test]
fn draws_decide_the_kind_placed() {
    let c = HexCoord::new(2, -1);
    assert_eq!(
        deposit_from_draw(c, true, DepositType::Deer, DepositType::Boar, 4),
        PlannedDeposit { coord: c, deposit_type: DepositType::Deer, amount: 4 }
    );
    assert_eq!(
        deposit_from_draw(c, false, DepositType::WildFlax, DepositType::Raspberries, 12),
        PlannedDeposit { coord: c, deposit_type: DepositType::Raspberries, amount: 12 }
    );
    assert_eq!(treasure_from_draw(c, false, true, 99).contents, TreasureContents::GoldAndRelic(99));
    assert_eq!(treasure_from_draw(c, false, false, 31).contents, TreasureContents::Wood(31));
    assert_eq!(treasure_from_draw(c, true, true, 21).contents, TreasureContents::Gold(21));
    assert_eq!(treasure_from_draw(c, true, false, 16), PlannedTreasure { coord: c, hidden: true, contents: TreasureContents::Wood(16) });
    assert_eq!(treasure_amount_range(false, true), (50, 150));
    assert_eq!(treasure_amount_range(false, false), (30, 80));
    assert_eq!(treasure_amount_range(true, true), (20, 60));
    assert_eq!(treasure_amount_range(true, false), (15, 40));
    assert_eq!(poi_from_draw(c, true), PlannedPoi { coord: c, poi_type: PoiType::Treasure });
    assert_eq!(poi_from_draw(c, false), PlannedPoi { coord: c, poi_type: PoiType::Ruins });
}
