//! Connectivity of assembled topologies: golden fingerprints, canonical
//! counts, and independence from vertex positions.
use face_topology::blend::FixedVectorQ16;
use face_topology::corner_key::{canonical_corner_key, seed_for_corner};
use face_topology::fingerprint::topology_fingerprints;
use face_topology::hex_coord::HexCoord;
use face_topology::map_layout::MapLayout;
use face_topology::profiles::{profile_displacement_q16, HexDeformationProfile, ProfileDisplacementQ16};
use face_topology::topology::{assemble_topology, collect_corner_keys, HexFaceTopology, HexFaceTopologyError};
use face_topology::validation::validate_complete_topology;
use face_topology::types::{HalfEdgeId, PositionBits, SharedCornerKey};

fn map_40x40() -> MapLayout {
    let mut map = MapLayout::new(40, 40);
    for r in 0..40i32 {
        let offset = r >> 1;
        for q in -offset..(40 - offset) {
            map.insert_tile(HexCoord::new(q, r));
        }
    }
    map
}

fn layout_of(coords: &[HexCoord]) -> MapLayout {
    let mut map = MapLayout::new(0, 0);
    for &coord in coords {
        map.insert_tile(coord);
    }
    map
}

fn l_shape() -> MapLayout {
    layout_of(&[
        HexCoord::new(0, 0),
        HexCoord::new(1, 0),
        HexCoord::new(2, 0),
        HexCoord::new(0, 1),
        HexCoord::new(0, 2),
    ])
}

fn diagonal_strip() -> MapLayout {
    layout_of(&[HexCoord::new(0, 0), HexCoord::new(1, 1), HexCoord::new(2, 2), HexCoord::new(3, 3)])
}

fn seven_hex_cluster() -> MapLayout {
    let center = HexCoord::new(0, 0);
    let mut coords = vec![center];
    coords.extend(center.neighbors());
    layout_of(&coords)
}

/// Positions standing for one profile's displacement of every corner (the
/// fixed-point displacement's bits); connectivity must not depend on them.
fn profile_positions(keys: &[SharedCornerKey], seed: u32, profile: HexDeformationProfile) -> Vec<PositionBits> {
    keys.iter()
        .map(|&key| match profile_displacement_q16(seed, key, profile) {
            ProfileDisplacementQ16::Legacy { direction_x_q15, direction_y_q15, magnitude_q16 } => PositionBits {
                x: i32::from(direction_x_q15) as u32 ^ u32::from(magnitude_q16),
                y: i32::from(direction_y_q15) as u32,
            },
            ProfileDisplacementQ16::Blended(FixedVectorQ16 { x, y }) => PositionBits { x: x as u32, y: y as u32 },
        })
        .collect()
}

/// Complete validation with every face's geometric verdict a pass.
fn validate(topology: &HexFaceTopology, map: &MapLayout) -> Result<(), HexFaceTopologyError> {
    validate_complete_topology(topology, map, &vec![None; topology.faces.len()])
}

fn generate(map: &MapLayout, seed: u32, profile: HexDeformationProfile) -> HexFaceTopology {
    let keys = collect_corner_keys(map);
    let positions = profile_positions(&keys, seed, profile);
    assemble_topology(map, &keys, &positions).expect("assembled")
}

#[test]
fn legacy_connectivity_fingerprints_are_preserved() {
    for (label, map, seed, expected) in [
        ("40x40_seed42", map_40x40(), 42, 0xced2_a662_5361_af97_u64),
        ("40x40_seed99", map_40x40(), 99, 0x4204_f108_4ab8_3e7c),
        ("l_shape_seed42", l_shape(), 42, 0x9ed9_d5c5_d7b6_c2ab),
        ("diagonal_seed7", diagonal_strip(), 7, 0xc6f1_0fe0_442b_2820),
        ("seven_hex_seed42", seven_hex_cluster(), 42, 0x91c0_95c7_e82c_ee27),
    ] {
        let topology = generate(&map, seed, HexDeformationProfile::Subtle);
        assert_eq!(topology_fingerprints(&map, seed, &topology).connectivity, expected, "connectivity {label}");
    }
}

#[test]
fn topology_identity_is_exactly_equal_across_profiles() {
    let map = map_40x40();
    let seed = 42;
    let reference = generate(&map, seed, HexDeformationProfile::Organic);
    assert_eq!(reference.faces.len(), 1_600);
    assert_eq!(reference.vertices.len(), 3_360);
    assert_eq!(reference.half_edges.len(), 9_600);
    assert_eq!(reference.stats.paired_edge_count, 4_641);
    assert_eq!(reference.stats.border_edge_count, 318);
    assert_eq!(reference.stats.paired_edge_count + reference.stats.border_edge_count, 4_959);
    for profile in [HexDeformationProfile::Subtle, HexDeformationProfile::Organic, HexDeformationProfile::PagoniaLike] {
        let candidate = generate(&map, seed, profile);
        assert_eq!(candidate.faces, reference.faces, "faces for {profile:?}");
        assert_eq!(candidate.half_edges, reference.half_edges, "half-edges {profile:?}");
        assert_eq!(candidate.hex_to_face, reference.hex_to_face, "ownership {profile:?}");
        assert_eq!(candidate.vertices.len(), reference.vertices.len());
    }
}

#[test]
fn test_isolated_hex_topology() {
    let map = layout_of(&[HexCoord::new(0, 0)]);
    let topo = generate(&map, 42, HexDeformationProfile::Subtle);
    assert_eq!(topo.faces.len(), 1);
    assert_eq!(topo.stats.border_edge_count, 6);
    assert_eq!(topo.stats.paired_edge_count, 0);
    assert_eq!(validate(&topo, &map), Ok(()));
}

#[test]
fn test_two_neighbor_topology() {
    let map = layout_of(&[HexCoord::new(0, 0), HexCoord::new(1, 0)]);
    let topo = generate(&map, 42, HexDeformationProfile::Subtle);
    assert_eq!(topo.faces.len(), 2);
    assert_eq!(topo.stats.paired_edge_count, 1);
    assert_eq!(topo.stats.border_edge_count, 10);
    assert_eq!(validate(&topo, &map), Ok(()));
}

#[test]
fn test_seven_hex_cluster_topology() {
    let map = seven_hex_cluster();
    let topo = generate(&map, 42, HexDeformationProfile::Subtle);
    assert_eq!(topo.faces.len(), 7);
    assert_eq!(validate(&topo, &map), Ok(()));
    let center = HexCoord::new(0, 0);
    let cf = &topo.faces[topo.face_for(center).expect("center face").index()];
    for i in 0..6 {
        let e = HalfEdgeId::new(cf.boundary.index() + i);
        assert!(topo.half_edges[e.index()].twin.is_some(), "Center edge {i}");
    }
}

#[test]
fn test_stable_corner_seed_golden_vectors() {
    let key_origin = SharedCornerKey::new(HexCoord::new(-1, 0), HexCoord::new(0, -1), HexCoord::new(0, 0));
    let key_far = SharedCornerKey::new(HexCoord::new(10, 10), HexCoord::new(10, 11), HexCoord::new(11, 10));
    let h1 = seed_for_corner(42, key_origin);
    let h2 = seed_for_corner(42, key_far);
    let h3 = seed_for_corner(99, key_origin);
    assert_eq!(h1, seed_for_corner(42, key_origin));
    assert_eq!(h2, seed_for_corner(42, key_far));
    assert_ne!(h1, h3);
    assert_ne!(h1, h2);
    assert_eq!(h1, 691_015_723_763_045_943, "Golden vector 1");
    assert_eq!(h2, 12_812_762_374_463_184_579, "Golden vector 2");
    assert_eq!(h3, 3_724_955_678_604_950_531, "Golden vector 3");
}

#[test]
fn test_seed_for_corner_is_order_independent() {
    let key = canonical_corner_key(HexCoord::new(0, 0), 0);
    let n0 = HexCoord::new(0, 0).neighbors()[0];
    let n5 = HexCoord::new(0, 0).neighbors()[5];
    let mut found_n0 = false;
    for i in 0..6 {
        if canonical_corner_key(n0, i) == key {
            assert_eq!(seed_for_corner(42, canonical_corner_key(n0, i)), seed_for_corner(42, key));
            found_n0 = true;
        }
    }
    assert!(found_n0, "n0 should share corner");
    let mut found_n5 = false;
    for i in 0..6 {
        if canonical_corner_key(n5, i) == key {
            assert_eq!(seed_for_corner(42, canonical_corner_key(n5, i)), seed_for_corner(42, key));
            found_n5 = true;
        }
    }
    assert!(found_n5, "n5 should share corner");
}

#[test]
fn connectivity_and_identity_are_identical_across_profiles() {
    let map = map_40x40();
    let mut prior_connectivity = None;
    let mut prior_faces = None;
    for profile in [HexDeformationProfile::Subtle, HexDeformationProfile::Organic, HexDeformationProfile::PagoniaLike] {
        let topo = generate(&map, 42, profile);
        let fp = topology_fingerprints(&map, 42, &topo);
        if let Some(expected) = prior_connectivity {
            assert_eq!(fp.connectivity, expected, "connectivity {profile:?}");
        } else {
            prior_connectivity = Some(fp.connectivity);
        }
        if let Some(faces) = prior_faces.as_ref() {
            assert_eq!(&topo.faces, faces, "face identity {profile:?}");
        } else {
            prior_faces = Some(topo.faces.clone());
        }
    }
}

#[test]
fn fingerprints_are_independent_of_hashmap_insertion_order() {
    let map = map_40x40();
    let mut coords = map.tiles().clone();
    coords.reverse();
    let mut reversed = MapLayout::new(map.width(), map.height());
    for coord in coords {
        reversed.insert_tile(coord);
    }
    let forward = generate(&map, 42, HexDeformationProfile::Subtle);
    let rev = generate(&reversed, 42, HexDeformationProfile::Subtle);
    assert_eq!(topology_fingerprints(&map, 42, &forward), topology_fingerprints(&reversed, 42, &rev));
}

#[test]
fn geometry_fingerprint_follows_positions_and_connectivity_does_not() {
    let map = l_shape();
    let a = generate(&map, 42, HexDeformationProfile::Subtle);
    let b = generate(&map, 42, HexDeformationProfile::Organic);
    let fa = topology_fingerprints(&map, 42, &a);
    let fb = topology_fingerprints(&map, 42, &b);
    assert_eq!(fa.connectivity, fb.connectivity);
    assert_ne!(fa.geometry, fb.geometry);
    assert_ne!(topology_fingerprints(&map, 42, &a).geometry, topology_fingerprints(&map, 43, &a).geometry);
}

#[test]
fn full_radial_stabilization_determinism_matrix() {
    let map = map_40x40();
    for seed in [0, 1, 42, 64, 126, 158, 162, 173, 191, 194, 206, 255] {
        for profile in [HexDeformationProfile::Organic, HexDeformationProfile::PagoniaLike] {
            let topo1 = generate(&map, seed, profile);
            let topo2 = generate(&map, seed, profile);
            assert_eq!(topo1.vertices.len(), topo2.vertices.len());
            assert_eq!(topo1.faces.len(), topo2.faces.len());
            for (v1, v2) in topo1.vertices.iter().zip(topo2.vertices.iter()) {
                assert_eq!(v1.position.x, v2.position.x);
                assert_eq!(v1.position.y, v2.position.y);
            }
        }
    }
}
