//! The blend law on every corner of the canonical map over the fast seeds,
//! the weakest measured near-zero corners, and adjacent displacement
//! directions under every candidate floor.
use face_topology::blend::{blend_to_displacement_q16, FixedVectorQ16};
use face_topology::blend_diagnostics::{
    component_length_q16, weighted_blend_diagnostics, BlendReference, WeightedBlendDiagnostics,
};
use face_topology::blend_diagnostics::weighted_blend_diagnostics_with_policy;
use face_topology::blend_policy::{
    candidate_policy, disabled_blend_reliability_policy, production_blend_reliability_policy, BlendActivation,
    BlendReliabilityPolicy, MIN_RELIABLE_DIRECTION_RATIO_Q16,
};
use face_topology::hex_coord::HexCoord;
use face_topology::map_layout::MapLayout;
use face_topology::profiles::{
    interpolated_correlated_field, local_component_q16, profile_displacement_q16_with_policy, HexDeformationProfile,
    ProfileDisplacementQ16,
};
use face_topology::topology::{assemble_topology, collect_corner_keys};
use face_topology::types::{PositionBits, SharedCornerKey};
use std::collections::HashSet;

const Q16: i64 = 65_536;
const FAST_SEEDS: [u32; 8] = [0, 1, 7, 42, 99, 128, 200, 255];
/// (Pago seed 194, Organic seed 64) weakest measured near-zero keys.
const WORST_KEYS: [[(i32, i32); 3]; 2] = [[(6, 7), (6, 8), (7, 7)], [(14, 7), (15, 6), (15, 7)]];

fn map_40x40() -> MapLayout {
    let mut map = MapLayout::new(40, 40);
    for r in 0..40i32 {
        let offset = r >> 1;
        for q in -offset..(40 - offset) {
            map.insert_tile(HexCoord::new(q, r));
        }
    }
    map
}

/// Every shared corner key of the map, as its vertices carry them.
fn vertex_keys(map: &MapLayout) -> Vec<SharedCornerKey> {
    collect_corner_keys(map)
}

fn observations(seed: u32, key: SharedCornerKey, profile: HexDeformationProfile) -> (WeightedBlendDiagnostics, FixedVectorQ16) {
    let config = profile.config();
    let correlated = interpolated_correlated_field(seed, key, profile);
    let local = local_component_q16(seed, key, profile);
    let wc = config.correlated_weight_q16;
    let wl = config.local_weight_q16;
    (weighted_blend_diagnostics(correlated, local, wc, wl), blend_to_displacement_q16(correlated, local, wc, wl))
}

/// The raw law: Q24-normalize the weighted sum (falling back to the local
/// component only when the sum is exactly zero), then scale to the target.
fn raw_law(diagnostics: &WeightedBlendDiagnostics, local: FixedVectorQ16) -> FixedVectorQ16 {
    const DIRECTION_SHIFT: i64 = 1 << 24;
    let (vx, vy, len) = if diagnostics.weighted_x_q16 == 0 && diagnostics.weighted_y_q16 == 0 {
        (local.x, local.y, diagnostics.local_length_q16)
    } else {
        (diagnostics.weighted_x_q16, diagnostics.weighted_y_q16, diagnostics.weighted_length_q16)
    };
    let (dx, dy) = if len == 0 { (DIRECTION_SHIFT, 0) } else { (vx * DIRECTION_SHIFT / len, vy * DIRECTION_SHIFT / len) };
    FixedVectorQ16 {
        x: dx * diagnostics.target_magnitude_q16 / DIRECTION_SHIFT,
        y: dy * diagnostics.target_magnitude_q16 / DIRECTION_SHIFT,
    }
}

#[test]
fn reliable_directions_are_bit_identical_to_the_raw_law() {
    let keys = vertex_keys(&map_40x40());
    let mut reliable_samples = 0_usize;
    for seed in FAST_SEEDS {
        for profile in [HexDeformationProfile::Organic, HexDeformationProfile::PagoniaLike] {
            for &key in &keys {
                let (diagnostics, produced) = observations(seed, key, profile);
                if diagnostics.stabilization_applied {
                    continue;
                }
                let local = local_component_q16(seed, key, profile);
                assert_eq!(produced, raw_law(&diagnostics, local), "reliable corner must keep the raw law exactly");
                reliable_samples += 1;
            }
        }
    }
    assert!(reliable_samples > 0);
}

#[test]
fn stabilized_directions_keep_a_minimum_projection_onto_the_reference() {
    let keys = vertex_keys(&map_40x40());
    let mut stabilized_samples = 0_usize;
    for seed in FAST_SEEDS {
        for profile in [HexDeformationProfile::Organic, HexDeformationProfile::PagoniaLike] {
            for &key in &keys {
                let (diagnostics, produced) = observations(seed, key, profile);
                if !diagnostics.stabilization_applied {
                    continue;
                }
                assert!(
                    diagnostics.weighted_length_q16 * Q16 / diagnostics.target_magnitude_q16 < MIN_RELIABLE_DIRECTION_RATIO_Q16,
                    "only unreliable corners are stabilized"
                );
                let produced_len = component_length_q16(produced);
                assert!(produced_len >= diagnostics.target_magnitude_q16 - 2, "stabilization must not shrink the magnitude");
                assert!(
                    diagnostics.stabilized_length_q16 >= diagnostics.minimum_reliable_length_q16 - 2,
                    "corrected length stays within truncation of the floor"
                );
                assert!(
                    diagnostics.stabilized_length_ratio_q16 >= MIN_RELIABLE_DIRECTION_RATIO_Q16 - 16,
                    "corrected length reaches the reliability floor"
                );
                stabilized_samples += 1;
            }
        }
    }
    assert!(stabilized_samples > 0, "fast seeds must exercise the floor");
}

fn fixture(map: &MapLayout, seed: u32, profile: HexDeformationProfile, coords: [(i32, i32); 3]) -> (WeightedBlendDiagnostics, FixedVectorQ16) {
    let expected = SharedCornerKey::new(
        HexCoord::new(coords[0].0, coords[0].1),
        HexCoord::new(coords[1].0, coords[1].1),
        HexCoord::new(coords[2].0, coords[2].1),
    );
    let key = *vertex_keys(map)
        .iter()
        .find(|&&key| key == expected)
        .unwrap_or_else(|| panic!("key {expected:?} not present for seed {seed}"));
    observations(seed, key, profile)
}

#[test]
fn near_zero_blend_direction_fixtures_lock_the_weakest_measured_cases() {
    let map = map_40x40();
    let (pago, pago_disp) = fixture(&map, 194, HexDeformationProfile::PagoniaLike, WORST_KEYS[0]);
    assert_eq!(pago.weighted_length_q16, 1, "weakest weighted direction");
    assert_eq!(pago.weighted_over_target_q16, 5);
    assert!(pago.stabilization_applied);
    assert_eq!(pago.reference, BlendReference::Correlated);
    assert_eq!(pago.raw_projection_q16, 0);
    assert_eq!(pago.minimum_reliable_length_q16, 197);
    assert_eq!(pago.radial_length_increase_q16, 277);
    assert_eq!(pago.stabilized_x_q16, -197);
    assert_eq!(pago.stabilized_y_q16, -197);
    assert_eq!(pago.stabilized_length_q16, 278);
    assert_eq!(pago.stabilized_length_ratio_q16, 1_443);
    assert!(!pago.components_are_zero);
    assert_eq!(pago_disp.x, -8_945);
    assert_eq!(pago_disp.y, -8_945);

    let (organic, organic_disp) = fixture(&map, 64, HexDeformationProfile::Organic, WORST_KEYS[1]);
    assert_eq!(organic.weighted_length_q16, 8);
    assert_eq!(organic.weighted_over_target_q16, 59);
    assert!(organic.stabilization_applied);
    assert_eq!(organic.reference, BlendReference::Correlated);
    assert_eq!(organic.raw_projection_q16, 7);
    assert_eq!(organic.minimum_reliable_length_q16, 138);
    assert_eq!(organic.radial_length_increase_q16, 139);
    assert_eq!(organic.stabilized_x_q16, 138);
    assert_eq!(organic.stabilized_y_q16, 52);
    assert_eq!(organic.stabilized_length_q16, 147);
    assert_eq!(organic.stabilized_length_ratio_q16, 1_085);
    assert!(!organic.components_are_zero);
    assert_eq!(organic_disp.x, 8_335);
    assert_eq!(organic_disp.y, 3_140);
}

/// One named candidate policy of the reliability-floor scan.
struct BlendCandidate {
    name: &'static str,
    policy: BlendReliabilityPolicy,
}

/// The raw law, then the length and projection activations at 1/64
/// (production), 1/32 and 1/16 floors.
fn candidates() -> Vec<BlendCandidate> {
    vec![
        BlendCandidate { name: "raw", policy: disabled_blend_reliability_policy() },
        BlendCandidate { name: "1/64_len", policy: candidate_policy(1_024, BlendActivation::WeightedLength) },
        BlendCandidate { name: "1/32_len", policy: candidate_policy(2_048, BlendActivation::WeightedLength) },
        BlendCandidate { name: "1/16_len", policy: candidate_policy(4_096, BlendActivation::WeightedLength) },
        BlendCandidate { name: "1/64_proj", policy: candidate_policy(1_024, BlendActivation::ReferenceProjection) },
        BlendCandidate { name: "1/32_proj", policy: candidate_policy(2_048, BlendActivation::ReferenceProjection) },
        BlendCandidate { name: "1/16_proj", policy: candidate_policy(4_096, BlendActivation::ReferenceProjection) },
    ]
}

/// A corner's displacement under a candidate, in hex radii.
fn displacement(seed: u32, key: SharedCornerKey, profile: HexDeformationProfile, policy: BlendReliabilityPolicy) -> (f32, f32) {
    match profile_displacement_q16_with_policy(seed, key, profile, policy) {
        ProfileDisplacementQ16::Blended(v) => (v.x as f32 / 65_536.0, v.y as f32 / 65_536.0),
        ProfileDisplacementQ16::Legacy { .. } => panic!("blended profiles only"),
    }
}

/// The unit vector along `v` (zero for a zero vector), rounded as the
/// engine's vector math rounds it: one reciprocal length, then a product.
fn normalize_or_zero(v: (f32, f32)) -> (f32, f32) {
    let recip = 1.0 / (v.0 * v.0 + v.1 * v.1).sqrt();
    if recip.is_finite() && recip > 0.0 {
        (v.0 * recip, v.1 * recip)
    } else {
        (0.0, 0.0)
    }
}

/// Per-candidate minima of adjacent displacement-direction dots: over all
/// pairs, over pairs with one stabilized end, and over pairs with both.
struct AdjacencyExtremes {
    global: f32,
    one_stabilized: f32,
    both_stabilized: f32,
}

fn sweep(map: &MapLayout, seeds: &[u32], candidate: &BlendCandidate, profile: HexDeformationProfile) -> (AdjacencyExtremes, usize) {
    let mut extremes = AdjacencyExtremes { global: 1.0, one_stabilized: 1.0, both_stabilized: 1.0 };
    let mut stabilized_total = 0_usize;
    let keys = collect_corner_keys(map);
    let config = profile.config();
    for &seed in seeds {
        let positions: Vec<PositionBits> = keys
            .iter()
            .map(|&key| {
                let (x, y) = displacement(seed, key, profile, candidate.policy);
                PositionBits { x: x.to_bits(), y: y.to_bits() }
            })
            .collect();
        let topology = assemble_topology(map, &keys, &positions).expect("assembled");
        let stabilized: HashSet<SharedCornerKey> = topology
            .vertices
            .iter()
            .filter(|vertex| {
                weighted_blend_diagnostics_with_policy(
                    interpolated_correlated_field(seed, vertex.canonical_key, profile),
                    local_component_q16(seed, vertex.canonical_key, profile),
                    config.correlated_weight_q16,
                    config.local_weight_q16,
                    candidate.policy,
                )
                .stabilization_applied
            })
            .map(|vertex| vertex.canonical_key)
            .collect();
        stabilized_total += stabilized.len();
        for (index, edge) in topology.half_edges.iter().enumerate() {
            if !edge.twin.is_none_or(|twin| index < twin.index()) {
                continue;
            }
            let origin = topology.vertices[edge.origin.index()].canonical_key;
            let destination = topology.vertices[edge.destination.index()].canonical_key;
            let a = normalize_or_zero(displacement(seed, origin, profile, candidate.policy));
            let b = normalize_or_zero(displacement(seed, destination, profile, candidate.policy));
            let dot = a.0 * b.0 + a.1 * b.1;
            extremes.global = extremes.global.min(dot);
            let origin_stabilized = stabilized.contains(&origin);
            let destination_stabilized = stabilized.contains(&destination);
            if origin_stabilized != destination_stabilized {
                extremes.one_stabilized = extremes.one_stabilized.min(dot);
            }
            if origin_stabilized && destination_stabilized {
                extremes.both_stabilized = extremes.both_stabilized.min(dot);
            }
        }
    }
    (extremes, stabilized_total)
}

#[test]
fn candidate_adjacent_direction_laws_hold_for_every_candidate() {
    let map = map_40x40();
    for candidate in &candidates() {
        for profile in [HexDeformationProfile::Organic, HexDeformationProfile::PagoniaLike] {
            let (extremes, stabilized_total) = sweep(&map, &FAST_SEEDS, candidate, profile);
            println!(
                "{} {profile:?}: stabilized={stabilized_total} global={:.5} one={:.5} both={:.5}",
                candidate.name, extremes.global, extremes.one_stabilized, extremes.both_stabilized
            );
            assert!(
                extremes.global >= -1.0 && extremes.global.is_finite(),
                "{} {profile:?}: adjacent dot is a unit-range quantity",
                candidate.name
            );
            assert!(
                extremes.one_stabilized >= extremes.global - 1e-4,
                "{} {profile:?}: the floor must not deepen a neighbor pair beyond the pre-existing worst: one={} global={}",
                candidate.name,
                extremes.one_stabilized,
                extremes.global
            );
            if candidate.policy == production_blend_reliability_policy() {
                assert!(
                    extremes.both_stabilized >= -0.1,
                    "{} {profile:?}: production near-zero-linked pairs must stay far from anti-parallel: both={}",
                    candidate.name,
                    extremes.both_stabilized
                );
            }
        }
    }
}
