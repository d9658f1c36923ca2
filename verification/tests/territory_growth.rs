//! Faction territories grown over land tiles.
use std::collections::HashSet;

use face_topology::cliffs::OceanState;
use face_topology::hex_coord::HexCoord;
use face_topology::map_layout::MapLayout;
use face_topology::territory::{auto_spawn_npc_territory, auto_spawn_player_territory, TerritoryTile, PLAYER_FACTION_ID};

fn distance(a: HexCoord) -> i32 {
    (a.q.abs() + a.r.abs() + (a.q + a.r).abs()) / 2
}

/// A hexagonal island of radius `land` inside an ocean ring up to `size`.
fn island(size: i32, land: i32) -> (MapLayout, Vec<TerritoryTile>) {
    let mut map = MapLayout::new(0, 0);
    for q in -size..=size {
        for r in -size..=size {
            if (q + r).abs() <= size {
                map.insert_tile(HexCoord::new(q, r));
            }
        }
    }
    let tiles = map
        .tiles()
        .iter()
        .map(|&c| TerritoryTile {
            ocean_state: if distance(c) <= land { OceanState::Land } else { OceanState::Ocean },
            faction_id: None,
        })
        .collect();
    (map, tiles)
}

fn holders(map: &MapLayout, tiles: &[TerritoryTile], faction: u32) -> Vec<HexCoord> {
    map.tiles().iter().zip(tiles).filter(|(_, t)| t.faction_id == Some(faction)).map(|(c, _)| *c).collect()
}

fn is_connected(cells: &[HexCoord]) -> bool {
    let set: HashSet<_> = cells.iter().copied().collect();
    let mut seen = HashSet::new();
    let mut stack = vec![cells[0]];
    while let Some(c) = stack.pop() {
        if seen.insert(c) {
            for n in c.neighbors() {
                if set.contains(&n) {
                    stack.push(n);
                }
            }
        }
    }
    seen.len() == set.len()
}

#[test]
fn player_territory_is_connected_land_of_fifteen_to_twenty_five_tiles() {
    let (map, before) = island(5, 3);
    for seed in [0u32, 7, 42, 1_000] {
        let mut tiles = before.clone();
        auto_spawn_player_territory(&map, &mut tiles, seed);
        let held = holders(&map, &tiles, PLAYER_FACTION_ID);
        assert!((15..=25).contains(&held.len()), "seed {seed}: {} tiles", held.len());
        assert!(is_connected(&held));
        for (index, tile) in tiles.iter().enumerate() {
            assert_eq!(tile.ocean_state, before[index].ocean_state);
            if tile.faction_id.is_some() {
                assert_eq!(tile.ocean_state, OceanState::Land);
            }
        }
        let mut again = before.clone();
        auto_spawn_player_territory(&map, &mut again, seed);
        assert_eq!(again, tiles, "same seed, same territory");
    }
}

#[test]
fn a_map_without_coast_is_left_unchanged() {
    let (map, before) = island(3, 3);
    let mut tiles = before.clone();
    auto_spawn_player_territory(&map, &mut tiles, 42);
    assert_eq!(tiles, before);
}

#[test]
fn a_small_island_is_claimed_whole() {
    let (map, before) = island(3, 1);
    let mut tiles = before.clone();
    auto_spawn_player_territory(&map, &mut tiles, 9);
    assert_eq!(holders(&map, &tiles, PLAYER_FACTION_ID).len(), 7);
}

#[test]
fn npc_territory_keeps_away_from_other_factions() {
    let (map, before) = island(8, 6);
    let mut tiles = before.clone();
    auto_spawn_player_territory(&map, &mut tiles, 3);
    let player: HashSet<_> = holders(&map, &tiles, PLAYER_FACTION_ID).into_iter().collect();
    auto_spawn_npc_territory(&map, &mut tiles, 2, 11);
    let npc = holders(&map, &tiles, 2);
    assert!((1..=30).contains(&npc.len()));
    assert!(is_connected(&npc));
    assert_eq!(holders(&map, &tiles, PLAYER_FACTION_ID).len(), player.len());
    for coord in &npc {
        assert!(!player.contains(coord));
    }
    // Every NPC tile but the first one claimed keeps off the player's border.
    let bordering = npc.iter().filter(|c| c.neighbors().iter().any(|n| player.contains(n))).count();
    assert!(bordering <= 1);
}

#[test]
fn npc_territory_needs_free_land() {
    let (map, before) = island(2, 2);
    let mut tiles: Vec<TerritoryTile> = before.iter().map(|t| TerritoryTile { faction_id: Some(5), ..*t }).collect();
    let held = tiles.clone();
    auto_spawn_npc_territory(&map, &mut tiles, 2, 1);
    assert_eq!(tiles, held);
}

fn hex_distance(a: HexCoord, b: HexCoord) -> i32 {
    distance(HexCoord::new(a.q - b.q, a.r - b.r))
}

/// Some held tile `c` has every map tile closer to it than the farthest held
/// tile held too: the territory is whole rings around `c` plus part of one.
fn grown_in_rings(map: &MapLayout, held: &[HexCoord]) -> bool {
    held.iter().any(|&c| {
        let reach = held.iter().map(|&h| hex_distance(c, h)).max().unwrap_or(0);
        map.tiles().iter().filter(|&&x| hex_distance(c, x) < reach).all(|x| held.contains(x))
    })
}

#[test]
fn territories_grow_breadth_first_over_open_land() {
    let (map, before) = island(8, 8);
    for seed in [0u32, 5, 19, 77, 4_242] {
        let mut tiles = before.clone();
        auto_spawn_npc_territory(&map, &mut tiles, 3, seed);
        let held = holders(&map, &tiles, 3);
        assert!((20..=30).contains(&held.len()), "seed {seed}: {} tiles", held.len());
        assert!(grown_in_rings(&map, &held), "seed {seed}: {held:?}");
    }
    let (coast_map, coast_before) = island(8, 7);
    for seed in [1u32, 8, 30] {
        let mut tiles = coast_before.clone();
        auto_spawn_player_territory(&coast_map, &mut tiles, seed);
        let held = holders(&coast_map, &tiles, PLAYER_FACTION_ID);
        let land: Vec<HexCoord> =
            coast_map.tiles().iter().zip(&tiles).filter(|(_, t)| t.ocean_state == OceanState::Land).map(|(c, _)| *c).collect();
        assert!(held.iter().any(|&c| {
            let reach = held.iter().map(|&h| hex_distance(c, h)).max().unwrap_or(0);
            land.iter().filter(|&&x| hex_distance(c, x) < reach).all(|x| held.contains(x))
        }), "seed {seed}: {held:?}");
    }
}
