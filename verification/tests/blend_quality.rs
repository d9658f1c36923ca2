//! The weighted blend law on synthetic inputs: determinism, overflow freedom,
//! reference selection and the radial correction arithmetic.
use face_topology::blend::{blend_reference, blend_to_displacement_q16, blend_to_displacement_q16_with_policy, FixedVectorQ16};
use face_topology::blend_diagnostics::{
    blend_policy_fits, component_length_q16, div_away_from_zero, projection_onto_reference_q16, resolve_reference,
    scale_radial_component_q16, weighted_blend_diagnostics, weighted_blend_diagnostics_with_policy, BlendReference,
};
use face_topology::blend_policy::{BlendActivation, BlendReliabilityPolicy, MIN_RELIABLE_DIRECTION_RATIO_Q16};
use face_topology::profiles::{interpolated_correlated_field, local_component_q16, HexDeformationProfile};
use face_topology::topology::collect_corner_keys;

const ORGANIC_WC: u32 = 42_598;
const ORGANIC_WL: u32 = 22_938;

fn vector(x: i64, y: i64) -> FixedVectorQ16 {
    FixedVectorQ16 { x, y }
}

fn blend(correlated: FixedVectorQ16, local: FixedVectorQ16) -> FixedVectorQ16 {
    blend_to_displacement_q16(correlated, local, ORGANIC_WC, ORGANIC_WL)
}

#[test]
fn synthetic_blend_ranges_never_overflow_and_repeat_exactly() {
    for profile in [HexDeformationProfile::Organic, HexDeformationProfile::PagoniaLike] {
        let config = profile.config();
        let wc = config.correlated_weight_q16;
        let wl = config.local_weight_q16;
        let magnitudes = [
            -i64::from(config.component_magnitude_max_q16),
            -i64::from(config.component_magnitude_min_q16),
            0,
            i64::from(config.component_magnitude_min_q16),
            i64::from(config.component_magnitude_max_q16),
        ];
        for &correlated_x in &magnitudes {
            for &correlated_y in &magnitudes {
                for &local_x in &magnitudes {
                    for &local_y in &magnitudes {
                        let correlated = vector(correlated_x, correlated_y);
                        let local = vector(local_x, local_y);
                        let first = blend_to_displacement_q16(correlated, local, wc, wl);
                        let second = blend_to_displacement_q16(correlated, local, wc, wl);
                        assert_eq!(first, second);
                        let diagnostics = weighted_blend_diagnostics(correlated, local, wc, wl);
                        assert!(diagnostics.target_magnitude_q16 <= 1 << 20);
                    }
                }
            }
        }
    }
}

#[test]
fn synthetic_blend_law_is_deterministic_and_overflow_free() {
    let wc = i64::from(ORGANIC_WC);
    let wl = i64::from(ORGANIC_WL);
    let zero = vector(0, 0);
    let aligned = blend(vector(8_000, 0), vector(8_000, 0));
    assert_eq!(aligned, vector(8_000, 0));

    let anti_unequal = blend(vector(8_000, 0), vector(-4_000, 0));
    assert_eq!(anti_unequal, vector(8_000, 0), "anti-parallel cannot cancel");

    let orthogonal = blend(vector(8_000, 0), vector(0, 8_000));
    let orthogonal_length = component_length_q16(orthogonal);
    assert!(
        (orthogonal_length - 8_000).abs() <= 2,
        "orthogonal magnitude must stay near the target, got {orthogonal_length}"
    );

    let aligned_diag =
        weighted_blend_diagnostics(vector(8_000, 0), vector(8_000, 0), ORGANIC_WC, ORGANIC_WL);
    assert!(!aligned_diag.stabilization_applied, "strong aligned keeps the raw direction");

    let exact_cancel = blend(vector(wl, 0), vector(-wc, 0));
    assert_eq!(exact_cancel, vector(wc, 0), "exact cancel resolves onto the reference");

    let near_correlated = vector(wl + 100, 0);
    let near_local = vector(-wc, 0);
    let near_cancel = blend(near_correlated, near_local);
    let near_diag = weighted_blend_diagnostics(near_correlated, near_local, ORGANIC_WC, ORGANIC_WL);
    assert_eq!(near_cancel, vector(wc, 0));
    assert!(near_diag.weighted_length_q16 > 0);
    assert!(
        near_diag.weighted_over_target_q16 < 1_024,
        "near-cancellation ratio must be below 1/64: {}",
        near_diag.weighted_over_target_q16
    );
    assert!(near_diag.stabilization_applied, "near-cancel is corrected");
    assert_eq!(near_diag.reference, BlendReference::Correlated);
    assert_eq!(near_diag.raw_projection_q16, 64);
    assert_eq!(near_diag.radial_length_increase_q16, 601);
    assert_eq!(near_diag.minimum_reliable_length_q16, 665);
    assert_eq!(near_diag.stabilized_x_q16, 665);
    assert_eq!(near_diag.stabilized_y_q16, 0);
    assert_eq!(near_diag.stabilized_length_q16, 665);
    assert!(
        near_diag.stabilized_length_ratio_q16 >= MIN_RELIABLE_DIRECTION_RATIO_Q16 - 1,
        "stabilized length reaches the reliability floor"
    );

    let both_zero = blend(zero, zero);
    assert_eq!(both_zero, zero, "both-zero input must not divide by zero");

    let local_only = blend(zero, vector(8_000, 0));
    assert_eq!(local_only, vector(8_000, 0));

    let global_zero = blend(vector(8_000, 0), zero);
    assert_eq!(global_zero, vector(8_000, 0));
}

#[test]
fn blend_reference_policy_is_deterministic() {
    for (cx, cy, lx, ly, reference) in [
        (12_000, 0, 8_000, 0, BlendReference::Correlated),
        (8_000, 0, 12_000, 0, BlendReference::Correlated),
        (10_000, 0, 10_100, 0, BlendReference::Correlated),
        (9_000, 0, -9_000, 0, BlendReference::Correlated),
        (0, 0, 8_000, 0, BlendReference::Local),
        (8_000, 0, 0, 0, BlendReference::Correlated),
        (0, 0, 0, 0, BlendReference::FixedPositiveX),
        (-12_000, 0, 4_000, 0, BlendReference::Correlated),
    ] {
        assert_eq!(
            blend_reference(vector(cx, cy), vector(lx, ly), ORGANIC_WC, ORGANIC_WL),
            reference
        );
    }
    assert_eq!(
        blend_reference(vector(30_000, 0), vector(20_000, 0), 22_938, 65_536),
        BlendReference::Local,
        "weights overturn a raw-magnitude lead"
    );
    assert_eq!(
        blend_reference(vector(20_000, 0), vector(30_000, 0), 65_536, 22_938),
        BlendReference::Correlated,
        "weights confirm a raw-magnitude lead"
    );
}

#[test]
fn test_div_away_from_zero_boundary_conditions() {
    assert_eq!(div_away_from_zero(10, 3), Some(4));
    assert_eq!(div_away_from_zero(-10, 3), Some(-4));
    assert_eq!(div_away_from_zero(9, 3), Some(3));
    assert_eq!(div_away_from_zero(-9, 3), Some(-3));
    assert_eq!(div_away_from_zero(0, 5), Some(0));
    assert_eq!(div_away_from_zero(10, 0), None);
    assert_eq!(div_away_from_zero(10, -5), None);
    assert_eq!(div_away_from_zero(i128::from(i64::MAX), 1), Some(i64::MAX));
    assert_eq!(div_away_from_zero(i128::MAX, 1), None);
    assert_eq!(div_away_from_zero(i128::MIN, 1), None);
}

#[test]
fn full_radial_stabilization_arithmetic_property_proof() {
    for wx in -100_i64..=100 {
        for wy in -100_i64..=100 {
            if wx == 0 && wy == 0 {
                continue;
            }
            let s = wx * wx + wy * wy;
            let w = (s as f64).sqrt().floor() as i64;
            if w < 1 {
                continue;
            }
            for l in 0_i64..=500 {
                let sx = scale_radial_component_q16(wx, l, w);
                let sy = scale_radial_component_q16(wy, l, w);
                let st_len = ((sx * sx + sy * sy) as f64).sqrt().floor() as i64;
                let deficit = l - st_len;
                let excess = st_len - l;
                assert_eq!(excess, -deficit);
                assert!(deficit <= 0, "wx={wx}, wy={wy}, L={l}: floor deficit must be <= 0, got {deficit}");
                assert!(excess >= 0);
                if let Some(gx) = div_away_from_zero(i128::from(wx) * i128::from(l), w) {
                    assert_eq!(gx, sx);
                }
            }
        }
    }
}

/// Dot products at or below this are flagged as near-antiparallel.
const NEAR_ANTIPARALLEL_DOT_THRESHOLD: f32 = -0.9995;

#[test]
fn near_antiparallel_tolerance_band_is_documented_exactly() {
    assert_eq!((-1.0_f32).to_bits(), (-1.0_f32).to_bits());
    assert!(-1.0_f32 < NEAR_ANTIPARALLEL_DOT_THRESHOLD);
    assert!(-0.9996_f32 <= NEAR_ANTIPARALLEL_DOT_THRESHOLD);
    assert!(-0.9994_f32 > NEAR_ANTIPARALLEL_DOT_THRESHOLD);
    assert!((-1.0_f32).to_bits() != (-0.9995_f32).to_bits());
}

const FAST_SEEDS: [u32; 8] = [0, 1, 7, 42, 99, 128, 200, 255];

fn canonical_40x40() -> face_topology::map_layout::MapLayout {
    let mut map = face_topology::map_layout::MapLayout::new(40, 40);
    for r in 0..40i32 {
        let offset = r >> 1;
        for q in -offset..(40 - offset) {
            map.insert_tile(face_topology::hex_coord::HexCoord::new(q, r));
        }
    }
    map
}

#[test]
fn near_zero_weighted_blend_diagnostics_are_measured_for_fast_seeds() {
    let keys = collect_corner_keys(&canonical_40x40());
    assert_eq!(keys.len(), 3_360);
    for profile in [HexDeformationProfile::Organic, HexDeformationProfile::PagoniaLike] {
        let config = profile.config();
        let (mut samples, mut stabilized, mut zero_fallbacks) = (0usize, 0usize, 0usize);
        for seed in FAST_SEEDS {
            for &key in &keys {
                let diagnostics = weighted_blend_diagnostics(
                    interpolated_correlated_field(seed, key, profile),
                    local_component_q16(seed, key, profile),
                    config.correlated_weight_q16,
                    config.local_weight_q16,
                );
                samples += 1;
                stabilized += usize::from(diagnostics.stabilization_applied);
                zero_fallbacks += usize::from(diagnostics.weighted_x_q16 == 0 && diagnostics.weighted_y_q16 == 0);
            }
        }
        assert!(samples > 0);
        assert!(stabilized <= samples);
        assert_eq!(zero_fallbacks, 0, "no silent zero-direction fallback for {profile:?}");
    }
}

#[test]
fn opposed_components_do_not_cancel() {
    // Equal weights and exactly opposed components: the weighted sum is zero,
    // the floor corrects the corner toward the (tied, so correlated)
    // reference, and the displacement keeps the stronger length.
    assert_eq!(
        blend_to_displacement_q16(vector(1000, 0), vector(-1000, 0), 32_768, 32_768),
        vector(1000, 0)
    );
    for (correlated, local) in [
        (vector(3000, -4000), vector(-3000, 4000)),
        (vector(0, 7), vector(0, -9)),
        (vector(12_345, 6_789), vector(-24_690, -13_578)),
        (vector(-1, 1), vector(1, -1)),
    ] {
        for (wc, wl) in [(32_768, 32_768), (42_598, 22_938), (49_152, 16_384), (65_536, 131_072)] {
            let d = blend_to_displacement_q16(correlated, local, wc, wl);
            let stronger = component_length_q16(correlated).max(component_length_q16(local));
            assert!(2 * d.x.abs().max(d.y.abs()) + 1 >= stronger, "{correlated:?} {local:?} {wc} {wl}: {d:?}");
        }
    }
}

#[test]
fn displacement_keeps_target_length_up_to_rounding() {
    // Corrected corners (near-cancelling components), reliable corners and a
    // length-one pair: the displacement is never more than two shorter than
    // the stronger component, and never zero when the floor corrected it.
    for (correlated, local) in [
        (vector(1000, 0), vector(-1000, 0)),
        (vector(3000, -4000), vector(-3000, 4001)),
        (vector(65_536, 65_536), vector(-65_536, -65_535)),
        (vector(700_000, -20), vector(-699_999, 17)),
        (vector(1, 0), vector(-1, 0)),
        (vector(1, 1), vector(-1, -1)),
        (vector(40_000, 30_000), vector(10_000, 5_000)),
        (vector(0, 0), vector(0, 0)),
    ] {
        for (wc, wl) in [(32_768, 32_768), (ORGANIC_WC, ORGANIC_WL), (49_152, 16_384)] {
            let d = blend_to_displacement_q16(correlated, local, wc, wl);
            let diagnostics = weighted_blend_diagnostics(correlated, local, wc, wl);
            let target = component_length_q16(correlated).max(component_length_q16(local));
            let length = component_length_q16(d);
            assert!(length >= target - 2, "{correlated:?} {local:?} {wc} {wl}: {d:?}");
            if diagnostics.stabilization_applied {
                assert!(length > 0, "{correlated:?} {local:?} {wc} {wl}: {d:?}");
            }
        }
    }
    assert_eq!(blend_to_displacement_q16(vector(1, 0), vector(-1, 0), 32_768, 32_768), vector(1, 0));
}

#[test]
fn wide_policies_blend_without_overflow() {
    // A floor of 32 (Q16), beyond the named policies, and a negative margin:
    // the floor is never undershot, component signs are kept, and reliable
    // corners keep the raw weighted vector.
    for activation in [BlendActivation::WeightedLength, BlendActivation::ReferenceProjection] {
        let policy = BlendReliabilityPolicy::new(32 * 65_536, -8_192, activation);
        for (correlated, local) in [
            (vector(1_000_000, -3), vector(-1_000_000, 2)),
            (vector(65_536, 0), vector(-65_000, 100)),
            (vector(1, 1), vector(-1, -1)),
            (vector(400_000, 300_000), vector(10_000, -20_000)),
        ] {
            let d = weighted_blend_diagnostics_with_policy(correlated, local, 32_768, 32_768, policy);
            let target = component_length_q16(correlated).max(component_length_q16(local));
            assert_eq!(d.target_magnitude_q16, target);
            assert_eq!(d.minimum_reliable_length_q16, target * 32);
            if d.stabilization_applied {
                assert!(d.stabilized_length_q16 >= d.minimum_reliable_length_q16);
                assert_eq!(d.radial_length_increase_q16, d.stabilized_length_q16 - d.weighted_length_q16);
                if d.weighted_x_q16 != 0 {
                    assert_eq!(d.stabilized_x_q16.signum(), d.weighted_x_q16.signum());
                }
                if d.weighted_y_q16 != 0 {
                    assert_eq!(d.stabilized_y_q16.signum(), d.weighted_y_q16.signum());
                }
            } else {
                assert_eq!((d.stabilized_x_q16, d.stabilized_y_q16), (d.weighted_x_q16, d.weighted_y_q16));
                assert_eq!(d.radial_length_increase_q16, 0);
            }
            let displacement = blend_to_displacement_q16_with_policy(correlated, local, 32_768, 32_768, policy);
            assert!(component_length_q16(displacement) >= target - 2);
        }
    }
}

#[test]
fn negative_floor_never_corrects_under_the_length_activation() {
    let policy = BlendReliabilityPolicy::new(-4 * 65_536, 8_192, BlendActivation::WeightedLength);
    let projection_policy = BlendReliabilityPolicy::new(-4 * 65_536, 8_192, BlendActivation::ReferenceProjection);
    for (correlated, local) in [
        (vector(1000, 0), vector(-1000, 0)),
        (vector(3000, -4000), vector(-3000, 4001)),
        (vector(40_000, 30_000), vector(10_000, 5_000)),
    ] {
        assert!(blend_policy_fits(correlated, local, 32_768, 32_768, policy));
        assert!(!blend_policy_fits(correlated, local, 32_768, 32_768, projection_policy));
        let d = weighted_blend_diagnostics_with_policy(correlated, local, 32_768, 32_768, policy);
        assert!(!d.stabilization_applied);
        assert_eq!((d.stabilized_x_q16, d.stabilized_y_q16), (d.weighted_x_q16, d.weighted_y_q16));
        assert_eq!(d.minimum_reliable_length_q16, d.target_magnitude_q16 * -4);
        let produced = blend_to_displacement_q16_with_policy(correlated, local, 32_768, 32_768, policy);
        let target = d.target_magnitude_q16;
        assert!(component_length_q16(produced) >= target - 2);
    }
    // A floor too large for the fixed-point range does not fit.
    let huge = BlendReliabilityPolicy::new(i64::MAX, 8_192, BlendActivation::WeightedLength);
    assert!(!blend_policy_fits(vector(65_536, 0), vector(0, 65_536), 32_768, 32_768, huge));
}

#[test]
fn massless_references_resolve_to_unit_x() {
    let probe = vector(300, -70);
    let zero = vector(0, 0);
    let strong = vector(3, 4);
    for reference in [BlendReference::Correlated, BlendReference::Local, BlendReference::FixedPositiveX] {
        // The projection onto +X of length one is the x coordinate.
        assert_eq!(projection_onto_reference_q16(probe, resolve_reference(reference, zero, zero)), 300);
    }
    // A component with mass is kept, with its own length (5).
    assert_eq!(projection_onto_reference_q16(probe, resolve_reference(BlendReference::Correlated, strong, zero)), (300 * 3 - 70 * 4) / 5);
    assert_eq!(projection_onto_reference_q16(probe, resolve_reference(BlendReference::Local, zero, strong)), (300 * 3 - 70 * 4) / 5);
}
