//! Map generation rules: base cells, ocean distances, landscape features,
//! cliff placement between neighboring tiles, and binding the placed cliffs.
use face_topology::base_cells::{base_layout, carried_tile_state, is_border_cell, CarriedTileState};
use face_topology::cliffs::{generate_cliffs, unique_neighbor_edges, CliffTile, LandscapeFeature, OceanState};
use face_topology::edge_binding::{bind_cliff_edges, CliffEdgeEntry, CliffLowerSide, EdgeCoord};
use face_topology::hex_coord::HexCoord;
use face_topology::landscape::{apply_landscape_features, landscape_feature_for, PlateauReading};
use face_topology::map_layout::MapLayout;
use face_topology::ocean_distance::distance_to_ocean;
use face_topology::topology::{assemble_topology, collect_corner_keys};
use face_topology::types::PositionBits;

fn two_tiles() -> MapLayout {
    let mut map = MapLayout::new(2, 1);
    map.insert_tile(HexCoord::new(1, 0));
    map.insert_tile(HexCoord::new(0, 0));
    map
}

fn land(feature: LandscapeFeature) -> CliffTile {
    CliffTile { landscape_feature: feature, ocean_state: OceanState::Land, claimed: false }
}

fn cliffs_of(a: CliffTile, b: CliffTile, d_a: Option<u32>, d_b: Option<u32>, fault: bool) -> Vec<CliffEdgeEntry> {
    generate_cliffs(&two_tiles(), &vec![a, b], &vec![d_a, d_b], &vec![fault, false])
}

fn only_edge() -> EdgeCoord {
    EdgeCoord::new(HexCoord::new(1, 0), HexCoord::new(0, 0))
}

#[test]
fn edge_coords_are_canonical() {
    let edge = only_edge();
    assert_eq!(edge, EdgeCoord { a: HexCoord::new(0, 0), b: HexCoord::new(1, 0) });
    assert_eq!(EdgeCoord::new(HexCoord::new(0, 0), HexCoord::new(1, 0)), edge);
    assert_eq!(EdgeCoord::new(HexCoord::new(0, 1), HexCoord::new(1, 0)).a, HexCoord::new(0, 1));
}

#[test]
fn high_ground_next_to_lower_ground_is_a_cliff() {
    let mountain = land(LandscapeFeature::Mountain);
    let flat = land(LandscapeFeature::NoFeature);
    let plateau = land(LandscapeFeature::Plateau);
    let lake = land(LandscapeFeature::Lake);
    let entry = |side| vec![CliffEdgeEntry { edge: only_edge(), lower_side: side }];
    assert_eq!(cliffs_of(mountain, flat, None, None, false), entry(CliffLowerSide::B));
    assert_eq!(cliffs_of(flat, plateau, None, None, false), entry(CliffLowerSide::A));
    assert_eq!(cliffs_of(mountain, plateau, None, None, false), entry(CliffLowerSide::Unresolved));
    assert_eq!(cliffs_of(lake, plateau, None, None, false), entry(CliffLowerSide::A));
    assert!(cliffs_of(mountain, mountain, None, None, false).is_empty());
    assert!(cliffs_of(lake, flat, None, None, true).is_empty());
}

#[test]
fn fault_cliffs_need_unclaimed_land_a_multiple_of_eight_and_the_fault_field() {
    let flat = land(LandscapeFeature::NoFeature);
    let entry = |side| vec![CliffEdgeEntry { edge: only_edge(), lower_side: side }];
    assert_eq!(cliffs_of(flat, flat, Some(8), Some(9), true), entry(CliffLowerSide::A));
    assert_eq!(cliffs_of(flat, flat, Some(16), Some(7), true), entry(CliffLowerSide::B));
    assert_eq!(cliffs_of(flat, flat, Some(9), None, true), entry(CliffLowerSide::B), "unknown distance is zero");
    assert!(cliffs_of(flat, flat, Some(8), Some(9), false).is_empty(), "fault field below threshold");
    assert!(cliffs_of(flat, flat, Some(8), Some(8), true).is_empty(), "equal distances");
    assert!(cliffs_of(flat, flat, Some(5), Some(6), true).is_empty(), "no multiple of eight");
    let claimed = CliffTile { claimed: true, ..flat };
    assert!(cliffs_of(claimed, flat, Some(8), Some(9), true).is_empty());
    let ocean = CliffTile { ocean_state: OceanState::Ocean, ..flat };
    assert!(cliffs_of(flat, ocean, Some(8), Some(9), true).is_empty());
}

fn hexagon(size: i32) -> MapLayout {
    let mut map = MapLayout::new(0, 0);
    for q in -size..=size {
        for r in -size..=size {
            if (q + r).abs() <= size {
                map.insert_tile(HexCoord::new(q, r));
            }
        }
    }
    map
}

#[test]
fn every_neighbor_edge_is_listed_once_in_order() {
    let map = hexagon(2);
    let edges = unique_neighbor_edges(&map);
    // 19 cells, each interior side shared by two of them.
    assert_eq!(map.tile_count(), 19);
    assert_eq!(edges.len(), 42);
    assert!(edges.windows(2).all(|pair| (pair[0].a.q, pair[0].a.r, pair[0].b.q, pair[0].b.r)
        < (pair[1].a.q, pair[1].a.r, pair[1].b.q, pair[1].b.r)));
    for edge in &edges {
        assert!(edge.a.neighbors().contains(&edge.b));
        assert!((edge.a.q, edge.a.r) < (edge.b.q, edge.b.r));
    }
}

#[test]
fn generated_cliffs_always_bind() {
    let map = hexagon(3);
    let count = map.tile_count();
    let info: Vec<CliffTile> = map
        .tiles()
        .iter()
        .map(|coord| {
            let feature = match (coord.q * 3 + coord.r * 5).rem_euclid(4) {
                0 => LandscapeFeature::Mountain,
                1 => LandscapeFeature::Plateau,
                2 => LandscapeFeature::Lake,
                _ => LandscapeFeature::NoFeature,
            };
            land(feature)
        })
        .collect();
    let distances: Vec<Option<u32>> = (0..count as u32).map(|d| Some(d % 10)).collect();
    let fault = vec![true; count];
    let cliffs = generate_cliffs(&map, &info, &distances, &fault);
    assert!(!cliffs.is_empty());
    let keys = collect_corner_keys(&map);
    let positions = vec![PositionBits { x: 0, y: 0 }; keys.len()];
    let topology = assemble_topology(&map, &keys, &positions).expect("assembled");
    let bound = bind_cliff_edges(&map, &cliffs, &topology).expect("generated cliffs bind");
    assert_eq!(bound.edges.len(), cliffs.len());
}

#[test]
fn ocean_distance_counts_the_fewest_steps_through_tiles() {
    // A strip of five cells along q with a gap at q = 3, plus a detached
    // island; only (0, 0) is ocean.
    let mut map = MapLayout::new(8, 2);
    for q in [0, 1, 2, 4, 5] {
        map.insert_tile(HexCoord::new(q, 0));
    }
    map.insert_tile(HexCoord::new(2, 1));
    map.insert_tile(HexCoord::new(3, 1));
    map.insert_tile(HexCoord::new(7, 7));
    let flat = land(LandscapeFeature::NoFeature);
    let ocean = CliffTile { landscape_feature: LandscapeFeature::NoFeature, ocean_state: OceanState::Ocean, claimed: false };
    let info: Vec<CliffTile> =
        map.tiles().iter().map(|c| if *c == HexCoord::new(0, 0) { ocean } else { flat }).collect();
    let distances = distance_to_ocean(&map, &info);
    let of = |q: i32, r: i32| {
        let t = map.tiles().iter().position(|c| *c == HexCoord::new(q, r)).unwrap();
        distances[t]
    };
    assert_eq!(distances.len(), 8);
    assert_eq!(of(0, 0), Some(0));
    assert_eq!(of(1, 0), Some(1));
    assert_eq!(of(2, 0), Some(2));
    // (3, 0) is not a tile, so the walk detours through (2, 1) and (3, 1).
    assert_eq!(of(2, 1), Some(3));
    assert_eq!(of(3, 1), Some(4));
    assert_eq!(of(4, 0), Some(5));
    assert_eq!(of(5, 0), Some(6));
    assert_eq!(of(7, 7), None);
}

#[test]
fn ocean_distance_is_zero_on_every_ocean_tile_and_none_without_ocean() {
    let map = two_tiles();
    let flat = land(LandscapeFeature::NoFeature);
    let ocean = CliffTile { landscape_feature: LandscapeFeature::NoFeature, ocean_state: OceanState::Ocean, claimed: false };
    assert_eq!(distance_to_ocean(&map, &vec![ocean, ocean]), vec![Some(0), Some(0)]);
    assert_eq!(distance_to_ocean(&map, &vec![flat, ocean]), vec![Some(1), Some(0)]);
    assert_eq!(distance_to_ocean(&map, &vec![flat, flat]), vec![None, None]);
}

#[test]
fn landscape_rule_picks_mountain_plateau_or_lake_by_distance_and_field() {
    let flat = land(LandscapeFeature::NoFeature);
    let all = PlateauReading { above_mountain: true, above_plateau: true, below_lake: true };
    let plateau_only = PlateauReading { above_mountain: false, above_plateau: true, below_lake: false };
    let lake_only = PlateauReading { above_mountain: false, above_plateau: false, below_lake: true };
    let none = PlateauReading { above_mountain: false, above_plateau: false, below_lake: false };
    assert_eq!(landscape_feature_for(flat, Some(6), all), LandscapeFeature::Mountain);
    assert_eq!(landscape_feature_for(flat, Some(5), all), LandscapeFeature::Plateau);
    assert_eq!(landscape_feature_for(flat, Some(4), all), LandscapeFeature::Lake);
    assert_eq!(landscape_feature_for(flat, Some(3), all), LandscapeFeature::NoFeature);
    assert_eq!(landscape_feature_for(flat, Some(9), plateau_only), LandscapeFeature::Plateau);
    assert_eq!(landscape_feature_for(flat, Some(9), lake_only), LandscapeFeature::Lake);
    assert_eq!(landscape_feature_for(land(LandscapeFeature::Lake), Some(9), none), LandscapeFeature::Lake);
    assert_eq!(landscape_feature_for(flat, None, all), LandscapeFeature::NoFeature, "no distance counts as zero");
    let ocean = CliffTile { landscape_feature: LandscapeFeature::NoFeature, ocean_state: OceanState::Ocean, claimed: false };
    let claimed = CliffTile { claimed: true, ..flat };
    assert_eq!(landscape_feature_for(ocean, Some(9), all), LandscapeFeature::NoFeature);
    assert_eq!(landscape_feature_for(claimed, Some(9), all), LandscapeFeature::NoFeature);

    let mut tiles = vec![flat, ocean, claimed, flat];
    apply_landscape_features(&mut tiles, &vec![Some(6), Some(9), Some(9), Some(2)], &vec![all, all, all, all]);
    assert_eq!(tiles, vec![land(LandscapeFeature::Mountain), ocean, claimed, flat]);
}

#[test]
fn base_layout_covers_the_axial_rectangle_with_a_two_cell_ocean_border() {
    let layout = base_layout(40, 40);
    assert_eq!((layout.width(), layout.height()), (40, 40));
    assert_eq!(layout.tile_count(), 1600);
    assert_eq!(layout.tiles()[0], HexCoord::new(-20, -20));
    assert_eq!(layout.tiles()[1599], HexCoord::new(19, 19));
    assert!(!layout.contains_tile(HexCoord::new(20, 0)));
    assert!(!layout.contains_tile(HexCoord::new(0, -21)));
    let border = layout.tiles().iter().filter(|c| is_border_cell(40, 40, **c)).count();
    assert_eq!(border, 1600 - 36 * 36);
    assert!(is_border_cell(40, 40, HexCoord::new(-19, 0)));
    assert!(is_border_cell(40, 40, HexCoord::new(18, 0)));
    assert!(!is_border_cell(40, 40, HexCoord::new(-18, 17)));
    let odd = base_layout(5, 3);
    assert_eq!(odd.tile_count(), 4 * 2);
    assert_eq!(base_layout(1, 9).tile_count(), 0);
}

#[test]
fn regenerated_tiles_keep_ocean_faction_and_feature_unless_reset() {
    let held = CarriedTileState {
        ocean_state: OceanState::Land,
        faction_id: Some(4),
        landscape_feature: LandscapeFeature::Mountain,
    };
    let sea = CarriedTileState { ocean_state: OceanState::Ocean, faction_id: None, landscape_feature: LandscapeFeature::NoFeature };
    // Kept: the previous tile wins over the shape.
    assert_eq!(carried_tile_state(false, false, true, Some(held)), held);
    assert_eq!(carried_tile_state(false, false, false, Some(sea)), sea);
    // A border cell is always ocean, and keeps faction and feature without a reset.
    assert_eq!(
        carried_tile_state(true, false, false, Some(held)),
        CarriedTileState { ocean_state: OceanState::Ocean, ..held }
    );
    // A reset takes the shape and clears faction and feature.
    assert_eq!(
        carried_tile_state(false, true, false, Some(held)),
        CarriedTileState { ocean_state: OceanState::Land, faction_id: None, landscape_feature: LandscapeFeature::NoFeature }
    );
    assert_eq!(carried_tile_state(false, true, true, Some(held)), sea);
    // A new cell takes the shape and holds nothing.
    assert_eq!(carried_tile_state(false, false, false, None).ocean_state, OceanState::Land);
    assert_eq!(carried_tile_state(false, false, true, None), sea);
    assert_eq!(carried_tile_state(true, true, false, None), sea);
}
