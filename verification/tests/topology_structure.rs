//! Structure of assembled topologies on the canonical maps, the diagnostic
//! edge cache, and cliff edge binding.
use std::collections::HashSet;

use face_topology::blend::FixedVectorQ16;
use face_topology::cache::{
    apply_debug_shortcuts, debug_overlay_visible, extract_shared_vertices, extract_unique_regular_edges,
    extract_unique_undirected_edges, EditorPhase, GameState, HexFaceDebugCache, HexFaceDebugSettings,
};
use face_topology::edge_binding::{bind_cliff_edges, CliffBindingError, CliffEdgeEntry, CliffLowerSide, EdgeCoord};
use face_topology::hex_coord::HexCoord;
use face_topology::logical_adjacency::validate_logical_adjacency;
use face_topology::map_layout::MapLayout;
use face_topology::profiles::{profile_displacement_q16, HexDeformationProfile, ProfileDisplacementQ16};
use face_topology::corner_key::canonical_corner_key;
use face_topology::topology::{assemble_topology, collect_corner_keys, HexFaceTopology, HexFaceTopologyError};
use face_topology::types::{HalfEdgeId, PositionBits, SharedCornerKey};
use face_topology::validation::validate_complete_topology;

fn generate_test_map(width: i32, height: i32) -> MapLayout {
    let mut map = MapLayout::new(width as u32, height as u32);
    for r in 0..height {
        let r_offset = r >> 1;
        for q in -r_offset..(width - r_offset) {
            map.insert_tile(HexCoord::new(q, r));
        }
    }
    map
}

fn layout_of(coords: &[HexCoord]) -> MapLayout {
    let mut map = MapLayout::new(0, 0);
    for &coord in coords {
        map.insert_tile(coord);
    }
    map
}

/// Positions standing for one profile's displacement of every corner (the
/// fixed-point displacement's bits).
fn profile_positions(keys: &[SharedCornerKey], seed: u32, profile: HexDeformationProfile) -> Vec<PositionBits> {
    keys.iter()
        .map(|&key| match profile_displacement_q16(seed, key, profile) {
            ProfileDisplacementQ16::Legacy { direction_x_q15, direction_y_q15, magnitude_q16 } => PositionBits {
                x: i32::from(direction_x_q15) as u32 ^ u32::from(magnitude_q16),
                y: i32::from(direction_y_q15) as u32,
            },
            ProfileDisplacementQ16::Blended(FixedVectorQ16 { x, y }) => PositionBits { x: x as u32, y: y as u32 },
        })
        .collect()
}

fn generate(map: &MapLayout, seed: u32, profile: HexDeformationProfile) -> HexFaceTopology {
    let keys = collect_corner_keys(map);
    let positions = profile_positions(&keys, seed, profile);
    assemble_topology(map, &keys, &positions).expect("generation failed")
}

fn generate_42(map: &MapLayout) -> HexFaceTopology {
    generate(map, 42, HexDeformationProfile::Subtle)
}

#[test]
fn test_map_data_unchanged_after_generation() {
    let map = generate_test_map(40, 40);
    let tile_count = map.tile_count();
    let (width, height) = (map.width(), map.height());
    let tiles_before = map.tiles().clone();
    let _topo = generate_42(&map);
    assert_eq!(map.tile_count(), tile_count);
    assert_eq!(map.width(), width);
    assert_eq!(map.height(), height);
    assert_eq!(map.tiles(), &tiles_before);
}

#[test]
fn test_one_face_per_tile() {
    let map = generate_test_map(40, 40);
    let topo = generate_42(&map);
    assert_eq!(topo.faces.len(), map.tile_count());
}

#[test]
fn test_hex_to_face_complete_bijection() {
    let map = generate_test_map(40, 40);
    let topo = generate_42(&map);
    assert_eq!(topo.hex_to_face.len(), map.tile_count());
    for &coord in map.tiles() {
        let face = topo.face_for(coord).expect("mapped tile");
        assert_eq!(topo.faces[face.index()].hex, coord);
    }
}

#[test]
fn test_six_unique_vertices_per_face() {
    let map = generate_test_map(40, 40);
    let topo = generate_42(&map);
    for (i, face) in topo.faces.iter().enumerate() {
        let v_set: HashSet<_> = face.vertices.iter().copied().collect();
        assert_eq!(v_set.len(), 6, "Face {i} does not have 6 unique vertices");
    }
}

#[test]
fn test_next_cycle_closes_in_six_steps() {
    let map = generate_test_map(40, 40);
    let topo = generate_42(&map);
    for (i, face) in topo.faces.iter().enumerate() {
        let mut curr = face.boundary;
        for _ in 0..6 {
            curr = topo.half_edges[curr.index()].next;
        }
        assert_eq!(curr, face.boundary, "Face {i} Next cycle not closed");
    }
}

#[test]
fn test_prev_cycle_closes_in_six_steps() {
    let map = generate_test_map(40, 40);
    let topo = generate_42(&map);
    for (i, face) in topo.faces.iter().enumerate() {
        let mut curr = face.boundary;
        for _ in 0..6 {
            curr = topo.half_edges[curr.index()].prev;
        }
        assert_eq!(curr, face.boundary, "Face {i} Prev cycle not closed");
    }
}

#[test]
fn test_next_prev_mutual_consistency() {
    let map = generate_test_map(40, 40);
    let topo = generate_42(&map);
    for (i, face) in topo.faces.iter().enumerate() {
        let mut curr = face.boundary;
        for _ in 0..6 {
            let edge = &topo.half_edges[curr.index()];
            let next_edge = &topo.half_edges[edge.next.index()];
            assert_eq!(next_edge.prev, curr, "Face {i} next/prev inconsistent");
            curr = edge.next;
        }
    }
}

#[test]
fn test_edge_incident_face_correctness() {
    let map = generate_test_map(40, 40);
    let topo = generate_42(&map);
    for (f_idx, face) in topo.faces.iter().enumerate() {
        let mut curr = face.boundary;
        for _ in 0..6 {
            assert_eq!(topo.half_edges[curr.index()].incident_face.index(), f_idx);
            curr = topo.half_edges[curr.index()].next;
        }
    }
}

#[test]
fn test_twin_symmetric_and_reversed() {
    let map = generate_test_map(40, 40);
    let topo = generate_42(&map);
    for (e_idx, edge) in topo.half_edges.iter().enumerate() {
        if let Some(twin_id) = edge.twin {
            let twin = &topo.half_edges[twin_id.index()];
            assert_eq!(twin.twin, Some(HalfEdgeId::new(e_idx)));
            assert_eq!(twin.origin, edge.destination);
            assert_eq!(twin.destination, edge.origin);
        }
    }
}

#[test]
fn test_twin_faces_are_logical_neighbors() {
    let map = generate_test_map(40, 40);
    let topo = generate_42(&map);
    for (e_idx, edge) in topo.half_edges.iter().enumerate() {
        if let Some(twin_id) = edge.twin {
            let twin = &topo.half_edges[twin_id.index()];
            let hex_a = topo.faces[edge.incident_face.index()].hex;
            let hex_b = topo.faces[twin.incident_face.index()].hex;
            assert!(hex_a.neighbors().contains(&hex_b), "Edge {e_idx} twin mismatch");
        }
    }
}

#[test]
fn test_border_edges_have_no_twin() {
    let map = generate_test_map(40, 40);
    let topo = generate_42(&map);
    for (e_idx, edge) in topo.half_edges.iter().enumerate() {
        if edge.twin.is_none() {
            let hex = topo.faces[edge.incident_face.index()].hex;
            let missing = hex.neighbors().iter().any(|n| !map.contains_tile(*n));
            assert!(missing, "Edge {e_idx} borderless but no twin");
        }
    }
}

#[test]
fn test_edge_count_invariant() {
    let map = generate_test_map(40, 40);
    let topo = generate_42(&map);
    assert_eq!(topo.stats.paired_edge_count * 2 + topo.stats.border_edge_count, topo.half_edges.len());
}

#[test]
fn test_shared_corner_key_bijection() {
    let map = generate_test_map(40, 40);
    let topo = generate_42(&map);
    let key_set: HashSet<_> = topo.vertices.iter().map(|v| v.canonical_key).collect();
    assert_eq!(key_set.len(), topo.vertices.len());
}

#[test]
fn test_complete_topology_validation_40x40() {
    let map = generate_test_map(40, 40);
    let topo = generate_42(&map);
    validate_complete_topology(&topo, &map, &vec![None; topo.faces.len()]).expect("validation failed");
    validate_logical_adjacency(&topo, &map).expect("logical adjacency");
}

#[test]
fn test_seed_42_is_deterministic() {
    let map = generate_test_map(40, 40);
    let t1 = generate_42(&map);
    let t2 = generate_42(&map);
    assert_eq!(t1, t2);
}

#[test]
fn test_hashmap_iteration_order_does_not_change_topology() {
    let ordered = generate_test_map(40, 40);
    let mut coords = ordered.tiles().clone();
    coords.reverse();
    let mut reverse = MapLayout::new(40, 40);
    for coord in coords {
        reverse.insert_tile(coord);
    }
    assert_eq!(generate_42(&ordered), generate_42(&reverse));
}

#[test]
fn unique_edges_and_vertices_use_authoritative_ids() {
    let map = layout_of(&[HexCoord::new(0, 0), HexCoord::new(1, 0)]);
    let topology = generate_42(&map);
    let edges = extract_unique_undirected_edges(&topology);
    let regular_edges = extract_unique_regular_edges(&map);
    let vertices = extract_shared_vertices(&topology);
    assert_eq!(edges.len(), topology.stats.paired_edge_count + topology.stats.border_edge_count);
    assert_eq!(regular_edges.len(), edges.len());
    assert_eq!(vertices.len(), topology.vertices.len());
    assert_eq!(edges.iter().collect::<HashSet<_>>().len(), edges.len());
    assert_eq!(regular_edges.iter().collect::<HashSet<_>>().len(), regular_edges.len());
}

#[test]
fn helpers_do_not_mutate_map_or_topology() {
    let map = layout_of(&[HexCoord::new(0, 0), HexCoord::new(1, 0)]);
    let topology = generate_42(&map);
    let map_keys_before = map.tiles().clone();
    let map_dimensions_before = (map.width(), map.height());
    let topology_before = topology.clone();
    let _ = extract_unique_undirected_edges(&topology);
    let _ = extract_shared_vertices(&topology);
    let _ = extract_unique_regular_edges(&map);
    assert_eq!(map_dimensions_before, (map.width(), map.height()));
    assert_eq!(&map_keys_before, map.tiles());
    assert_eq!(topology, topology_before);
}

#[test]
fn forty_by_forty_cache_has_one_regular_and_warped_edge_per_logical_edge() {
    let map = generate_test_map(40, 40);
    let topology = generate_42(&map);
    let mut cache = HexFaceDebugCache::default();
    cache.rebuild(&topology, &map);
    assert_eq!(cache.edges.len(), 4_959);
    assert_eq!(cache.regular_edges.len(), 4_959);
    assert_eq!(cache.edges.len(), cache.regular_edges.len());
    assert_eq!(cache.shared_vertices.len(), topology.vertices.len());
    assert!(cache.is_consistent(&topology));
    cache.clear();
    assert_eq!(cache, HexFaceDebugCache::default());
    assert!(!cache.is_consistent(&topology));
}

/// The logical edge between two cells, its cells in ascending `(q, r)` order.
fn edge_between(x: HexCoord, y: HexCoord) -> EdgeCoord {
    if (x.q, x.r) < (y.q, y.r) {
        EdgeCoord { a: x, b: y }
    } else {
        EdgeCoord { a: y, b: x }
    }
}

fn cliff(edge: EdgeCoord, lower_side: CliffLowerSide) -> CliffEdgeEntry {
    CliffEdgeEntry { edge, lower_side }
}

fn two_tile_cliffs() -> Vec<CliffEdgeEntry> {
    vec![cliff(edge_between(HexCoord::new(0, 0), HexCoord::new(1, 0)), CliffLowerSide::A)]
}

#[test]
fn canonical_edge_coord_a_b_semantics_held_across_profiles() {
    for profile in [HexDeformationProfile::Subtle, HexDeformationProfile::Organic, HexDeformationProfile::PagoniaLike] {
        let map = layout_of(&[HexCoord::new(0, 0), HexCoord::new(1, 0)]);
        let topology = generate(&map, 42, profile);
        let bound = bind_cliff_edges(&map, &two_tile_cliffs(), &topology).expect("Edge binding failed");
        assert_eq!(bound.edges.len(), 1);
        let b = &bound.edges[0];
        assert_eq!(b.logical_edge, EdgeCoord { a: HexCoord::new(0, 0), b: HexCoord::new(1, 0) });
        assert_eq!(b.lower_side, CliffLowerSide::A);
        let he_a = &topology.half_edges[b.half_edge_a.index()];
        let he_b = &topology.half_edges[b.half_edge_b.index()];
        assert_eq!(he_a.incident_face, b.face_a);
        assert_eq!(he_b.incident_face, b.face_b);
        assert_eq!(he_a.twin, Some(b.half_edge_b));
        assert_eq!(he_b.twin, Some(b.half_edge_a));
        assert_eq!(he_a.origin, he_b.destination);
        assert_eq!(he_a.destination, he_b.origin);
    }
}

#[test]
fn fail_fast_typed_error_on_missing_tile_or_face() {
    let map = layout_of(&[HexCoord::new(0, 0), HexCoord::new(1, 0)]);
    let topology = generate(&map, 42, HexDeformationProfile::Subtle);
    let mut cliffs = two_tile_cliffs();
    let missing_edge = EdgeCoord { a: HexCoord::new(0, 0), b: HexCoord::new(5, 5) };
    cliffs.push(cliff(missing_edge, CliffLowerSide::B));
    let err = bind_cliff_edges(&map, &cliffs, &topology).expect_err("Should fail on missing tile");
    assert_eq!(err, CliffBindingError::MissingTileB(missing_edge));
    let missing_a = EdgeCoord { a: HexCoord::new(-5, 0), b: HexCoord::new(0, 0) };
    let err = bind_cliff_edges(&map, &vec![cliff(missing_a, CliffLowerSide::A)], &topology).expect_err("missing a");
    assert_eq!(err, CliffBindingError::MissingTileA(missing_a));
}

#[test]
fn non_neighbor_cliff_has_no_adjacency() {
    let map = layout_of(&[HexCoord::new(0, 0), HexCoord::new(1, 0), HexCoord::new(2, 0)]);
    let topology = generate(&map, 42, HexDeformationProfile::Subtle);
    let far = EdgeCoord { a: HexCoord::new(0, 0), b: HexCoord::new(2, 0) };
    let err = bind_cliff_edges(&map, &vec![cliff(far, CliffLowerSide::A)], &topology).expect_err("not adjacent");
    assert_eq!(err, CliffBindingError::MissingAdjacency(far));
}

#[test]
fn insertion_order_determinism_holds() {
    let coords = [HexCoord::new(0, 0), HexCoord::new(1, 0), HexCoord::new(0, 1)];
    let map_a = layout_of(&coords);
    let map_b = layout_of(&[coords[2], coords[1], coords[0]]);
    let edges = [
        cliff(edge_between(coords[0], coords[1]), CliffLowerSide::A),
        cliff(edge_between(coords[0], coords[2]), CliffLowerSide::B),
        cliff(edge_between(coords[1], coords[2]), CliffLowerSide::Unresolved),
    ];
    let cliffs_a: Vec<_> = edges.to_vec();
    let cliffs_b: Vec<_> = edges.iter().rev().copied().collect();
    let top_a = generate(&map_a, 100, HexDeformationProfile::Organic);
    let top_b = generate(&map_b, 100, HexDeformationProfile::Organic);
    let bound_a = bind_cliff_edges(&map_a, &cliffs_a, &top_a).expect("Binding failed");
    let bound_b = bind_cliff_edges(&map_b, &cliffs_b, &top_b).expect("Binding failed");
    assert_eq!(bound_a, bound_b);
    assert_eq!(bound_a.edges.len(), 3);
    assert!(bound_a.edges.windows(2).all(|pair| {
        let (x, y) = (pair[0].logical_edge, pair[1].logical_edge);
        (x.a.q, x.a.r, x.b.q, x.b.r) < (y.a.q, y.a.r, y.b.q, y.b.r)
    }));
}

fn generate_test_shape(shape_id: usize) -> MapLayout {
    let size = match shape_id {
        0 => 1,
        1 => 2,
        2 => 3,
        3 => 4,
        4 => 5,
        _ => 6,
    };
    let mut map = MapLayout::new(0, 0);
    for q in -size..=size {
        for r in -size..=size {
            let sum: i32 = q + r;
            if sum.abs() <= size {
                map.insert_tile(HexCoord::new(q, r));
            }
        }
    }
    map
}

#[test]
fn fast_144_case_cliff_binding_matrix() {
    let profiles = [HexDeformationProfile::Subtle, HexDeformationProfile::Organic, HexDeformationProfile::PagoniaLike];
    let seeds = [1u32, 7, 42, 101, 169, 203, 500, 999];
    let mut case_count = 0;
    for &profile in &profiles {
        for shape_id in 0..6usize {
            for &seed_val in &seeds {
                case_count += 1;
                let map = generate_test_shape(shape_id);
                let mut cliffs: Vec<CliffEdgeEntry> = Vec::new();
                let mut seen = HashSet::new();
                for &coord in map.tiles() {
                    for n in coord.neighbors() {
                        if map.contains_tile(n) {
                            let edge = edge_between(coord, n);
                            if seen.insert(edge) {
                                let lower = if (coord.q + coord.r) % 2 == 0 { CliffLowerSide::A } else { CliffLowerSide::B };
                                cliffs.push(cliff(edge, lower));
                            }
                        }
                    }
                }
                let topology = generate(&map, seed_val, profile);
                let bound = bind_cliff_edges(&map, &cliffs, &topology).expect("144-matrix edge binding failed");
                assert_eq!(bound.edges.len(), cliffs.len());
                for b in &bound.edges {
                    let he_a = &topology.half_edges[b.half_edge_a.index()];
                    let he_b = &topology.half_edges[b.half_edge_b.index()];
                    assert_eq!(he_a.incident_face, b.face_a);
                    assert_eq!(he_b.incident_face, b.face_b);
                    assert_eq!(he_a.twin, Some(b.half_edge_b));
                    assert_eq!(he_b.twin, Some(b.half_edge_a));
                }
            }
        }
    }
    assert_eq!(case_count, 144);
}

#[test]
fn debug_settings_are_disabled_with_expected_submode_defaults() {
    let settings = HexFaceDebugSettings::default();
    assert!(!settings.enabled);
    assert!(settings.show_regular_outlines);
    assert!(settings.show_warped_outlines);
    assert!(!settings.show_shared_vertices);
    assert!(!settings.show_half_edge_directions);
}

#[test]
fn debug_shortcuts_flip_their_own_switches() {
    let defaults = HexFaceDebugSettings::default();
    let mut settings = defaults;
    settings.apply_toggles(false, false, false);
    assert_eq!(settings, defaults);
    settings.apply_toggles(true, true, true);
    assert!(settings.enabled);
    assert!(settings.show_shared_vertices);
    assert!(settings.show_half_edge_directions);
    assert!(settings.show_regular_outlines && settings.show_warped_outlines);
    settings.apply_toggles(true, false, true);
    assert!(!settings.enabled);
    assert!(settings.show_shared_vertices);
    assert!(!settings.show_half_edge_directions);
}

#[test]
fn assembly_reports_the_first_missing_corner_key_or_an_empty_map() {
    let map = layout_of(&[HexCoord::new(1, 0), HexCoord::new(0, 0)]);
    let all = collect_corner_keys(&map);
    let missing_early = canonical_corner_key(HexCoord::new(0, 0), 2);
    let missing_late = canonical_corner_key(HexCoord::new(1, 0), 5);
    let keys: Vec<SharedCornerKey> =
        all.iter().copied().filter(|k| *k != missing_early && *k != missing_late).collect();
    let positions = vec![PositionBits { x: 0, y: 0 }; keys.len()];
    assert_eq!(
        assemble_topology(&map, &keys, &positions).unwrap_err(),
        HexFaceTopologyError::CornerKeyMismatch(missing_early)
    );
    let empty = MapLayout::new(3, 3);
    assert_eq!(assemble_topology(&empty, &vec![], &vec![]).unwrap_err(), HexFaceTopologyError::EmptyMap);
    for coords in [vec![HexCoord::new(0, 0)], vec![HexCoord::new(-4, 9), HexCoord::new(-3, 9), HexCoord::new(-4, 10)]] {
        let map = layout_of(&coords);
        let keys = collect_corner_keys(&map);
        let positions = vec![PositionBits { x: 0, y: 0 }; keys.len()];
        assert!(assemble_topology(&map, &keys, &positions).is_ok());
    }
}

#[test]
fn visibility_is_disabled_or_limited_to_flat_phases() {
    let mut settings = HexFaceDebugSettings::default();
    assert!(!debug_overlay_visible(GameState::Playing, EditorPhase::Shape, &settings));
    assert!(!debug_overlay_visible(GameState::Editing, EditorPhase::Height3D, &settings));
    settings.enabled = true;
    assert!(debug_overlay_visible(GameState::Editing, EditorPhase::Balance, &settings));
    assert!(!debug_overlay_visible(GameState::Playing, EditorPhase::Balance, &settings));
}

#[test]
fn debug_overlay_shows_when_editing_up_to_the_balance_phase() {
    let off = HexFaceDebugSettings::default();
    let on = HexFaceDebugSettings { enabled: true, ..off };
    for phase in [EditorPhase::Shape, EditorPhase::Landscape, EditorPhase::Sediments, EditorPhase::Balance] {
        assert!(debug_overlay_visible(GameState::Editing, phase, &on));
        assert!(!debug_overlay_visible(GameState::Playing, phase, &on));
        assert!(!debug_overlay_visible(GameState::Editing, phase, &off));
    }
    assert!(!debug_overlay_visible(GameState::Editing, EditorPhase::Height3D, &on));
}

#[test]
fn shortcuts_are_ignored_outside_editing() {
    let defaults = HexFaceDebugSettings::default();
    let mut settings = defaults;
    apply_debug_shortcuts(&mut settings, GameState::Playing, true, true, true);
    assert_eq!(settings, defaults);
    apply_debug_shortcuts(&mut settings, GameState::Editing, true, true, true);
    assert!(settings.enabled);
    assert!(settings.show_shared_vertices);
    assert!(settings.show_half_edge_directions);
}
