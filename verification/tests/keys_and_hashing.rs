//! Corner keys, stable hashing, metric names and the edge cases of assembly.
use face_topology::acceptance_issues::ProfileMetric;
use face_topology::corner_key::{canonical_corner_key, displacement_direction_q15};
use face_topology::fingerprint::{fnv1a64, FNV1A64_OFFSET};
use face_topology::hex_coord::{hex_key, HexCoord};
use face_topology::map_layout::MapLayout;
use face_topology::topology::{assemble_topology, collect_corner_keys, HexFaceTopologyError};
use face_topology::types::{PositionBits, SharedCornerKey};

#[test]
fn fnv1a64_matches_the_published_vectors() {
    assert_eq!(fnv1a64(&[]), FNV1A64_OFFSET);
    assert_eq!(fnv1a64(&[]), 0xcbf2_9ce4_8422_2325);
    assert_eq!(fnv1a64(b"a"), 0xaf63_dc4c_8601_ec8c);
    assert_eq!(fnv1a64(b"foobar"), 0x8594_4171_f739_67e8);
}

#[test]
fn metric_names_are_human_readable() {
    let expected = [
        (ProfileMetric::AverageDisplacementRatio, "average displacement"),
        (ProfileMetric::MaximumDisplacementRatio, "maximum displacement"),
        (ProfileMetric::MinimumEdgeLengthRatio, "minimum edge"),
        (ProfileMetric::MaximumEdgeLengthRatio, "maximum edge"),
        (ProfileMetric::MinimumInteriorAngleDegrees, "minimum interior angle"),
        (ProfileMetric::MaximumInteriorAngleDegrees, "maximum interior angle"),
        (ProfileMetric::MinimumAspectQuality, "minimum aspect quality"),
        (ProfileMetric::ReducedVertexRatio, "reduced vertex ratio"),
        (ProfileMetric::RegularFallbackRatio, "regular fallback ratio"),
    ];
    for (metric, name) in expected {
        assert_eq!(metric.name(), name);
    }
}

#[test]
fn hex_keys_are_lossless() {
    assert_eq!(hex_key(HexCoord::new(0, 0)), 0);
    assert_eq!(hex_key(HexCoord::new(1, 0)), 1 << 32);
    assert_eq!(hex_key(HexCoord::new(0, -1)), 0xffff_ffff);
    assert_eq!(hex_key(HexCoord::new(-1, -1)), u64::MAX);
    assert_ne!(hex_key(HexCoord::new(1, 2)), hex_key(HexCoord::new(2, 1)));
}

#[test]
fn canonical_corner_key_lists_the_three_cells_ascending() {
    let origin = HexCoord::new(0, 0);
    let n = origin.neighbors();
    assert_eq!(canonical_corner_key(origin, 0), SharedCornerKey::new(origin, HexCoord::new(0, 1), HexCoord::new(1, 0)));
    assert_eq!(canonical_corner_key(origin, 0), SharedCornerKey::new(origin, n[5], n[0]));
    // Corner indices are taken modulo six.
    assert_eq!(canonical_corner_key(origin, 7), canonical_corner_key(origin, 1));
    for i in 0..6 {
        let key = canonical_corner_key(origin, i);
        let cells = [key.first(), key.second(), key.third()];
        assert!((cells[0].q, cells[0].r) < (cells[1].q, cells[1].r));
        assert!((cells[1].q, cells[1].r) < (cells[2].q, cells[2].r));
        assert!(cells.contains(&origin));
        for j in 0..6 {
            if i != j {
                assert_ne!(key, canonical_corner_key(origin, j));
            }
        }
    }
}

#[test]
fn every_corner_is_shared_by_its_three_cells() {
    let coord = HexCoord::new(3, -2);
    let n = coord.neighbors();
    let pairs = [(0, 5), (5, 4), (4, 3), (3, 2), (2, 1), (1, 0)];
    for (i, &(first, second)) in pairs.iter().enumerate() {
        let key = canonical_corner_key(coord, i);
        assert_eq!(canonical_corner_key(n[first], i + 2), key);
        assert_eq!(canonical_corner_key(n[second], i + 4), key);
    }
}

#[test]
fn displacement_directions_are_unit_q15_vectors() {
    assert_eq!(displacement_direction_q15(0), (32_767, 0));
    assert_eq!(displacement_direction_q15(4), (0, 32_767));
    assert_eq!(displacement_direction_q15(8), (-32_767, 0));
    assert_eq!(displacement_direction_q15(15), (30_274, -12_539));
    for index in 0..16 {
        let (x, y) = displacement_direction_q15(index);
        let squared = i64::from(x) * i64::from(x) + i64::from(y) * i64::from(y);
        assert!((squared - 32_767 * 32_767).abs() < 32_767 * 4, "direction {index}");
    }
}

#[test]
fn empty_map_is_rejected() {
    let map = MapLayout::new(10, 10);
    let keys = collect_corner_keys(&map);
    assert!(keys.is_empty());
    assert_eq!(assemble_topology(&map, &keys, &vec![]), Err(HexFaceTopologyError::EmptyMap));
}

#[test]
fn missing_corner_key_is_reported() {
    let mut map = MapLayout::new(0, 0);
    map.insert_tile(HexCoord::new(0, 0));
    let mut keys = collect_corner_keys(&map);
    assert_eq!(keys.len(), 6);
    let removed = keys.remove(2);
    let positions = vec![PositionBits { x: 0, y: 0 }; keys.len()];
    assert_eq!(assemble_topology(&map, &keys, &positions), Err(HexFaceTopologyError::CornerKeyMismatch(removed)));
}

#[test]
fn collected_keys_cover_each_corner_once() {
    let mut map = MapLayout::new(0, 0);
    map.insert_tile(HexCoord::new(0, 0));
    map.insert_tile(HexCoord::new(1, 0));
    let keys = collect_corner_keys(&map);
    // Two neighbors share the two corners of their common side.
    assert_eq!(keys.len(), 10);
    let unique: std::collections::HashSet<_> = keys.iter().copied().collect();
    assert_eq!(unique.len(), keys.len());
    let positions = vec![PositionBits { x: 1, y: 2 }; keys.len()];
    let topology = assemble_topology(&map, &keys, &positions).expect("assembled");
    assert_eq!(topology.vertices.len(), 10);
    assert!(topology.vertices.iter().all(|v| v.position == PositionBits { x: 1, y: 2 }));
}
