//! The correlated field, local components and profile displacements.
use face_topology::blend::FixedVectorQ16;
use face_topology::corner_key::canonical_corner_key;
use face_topology::hex_coord::HexCoord;
use face_topology::profiles::{
    field_coordinate_q16, interpolated_correlated_field, local_component_q16, macro_field_node_vector,
    profile_displacement_q16, HexDeformationProfile, ProfileDisplacementQ16,
};
use face_topology::types::SharedCornerKey;

/// The displacement scaled to `radius`, as the world-space generator scales
/// a blended Q16 displacement.
fn scaled_bits(seed: u32, key: SharedCornerKey, radius: f32, profile: HexDeformationProfile) -> (u32, u32) {
    match profile_displacement_q16(seed, key, profile) {
        ProfileDisplacementQ16::Blended(v) => {
            ((radius * v.x as f32 / 65_536.0).to_bits(), (radius * v.y as f32 / 65_536.0).to_bits())
        }
        ProfileDisplacementQ16::Legacy { .. } => panic!("blended profiles only"),
    }
}

#[test]
fn subtle_is_the_default_profile() {
    assert_eq!(HexDeformationProfile::default(), HexDeformationProfile::Subtle);
}

#[test]
fn field_is_spatially_related_nonconstant_and_handles_negative_coordinates() {
    let key_a = canonical_corner_key(HexCoord::new(0, 0), 0);
    let key_b = canonical_corner_key(HexCoord::new(1, 0), 0);
    let key_far = canonical_corner_key(HexCoord::new(20, 20), 0);
    let near_a = interpolated_correlated_field(42, key_a, HexDeformationProfile::Organic);
    let near_b = interpolated_correlated_field(42, key_b, HexDeformationProfile::Organic);
    let far = interpolated_correlated_field(42, key_far, HexDeformationProfile::Organic);
    let near_delta = (near_a.x - near_b.x).abs() + (near_a.y - near_b.y).abs();
    assert!(near_delta < 13_000);
    assert!(near_a.x * near_b.x + near_a.y * near_b.y > 0);
    assert_ne!(near_a, far);
    let negative =
        field_coordinate_q16(SharedCornerKey::new(HexCoord::new(-6, -1), HexCoord::new(-5, -1), HexCoord::new(-5, 0)));
    assert!(negative.0 < 0 && negative.1 < 0);
    assert_ne!(
        macro_field_node_vector(42, HexDeformationProfile::Organic, 0, 0),
        macro_field_node_vector(42, HexDeformationProfile::Organic, 1, 0)
    );
}

#[test]
fn origin_corner_components_and_magnitude_preserving_blend() {
    let key = canonical_corner_key(HexCoord::new(0, 0), 0);
    for profile in [HexDeformationProfile::Organic, HexDeformationProfile::PagoniaLike] {
        let expected = match profile {
            HexDeformationProfile::Organic => (
                FixedVectorQ16 { x: -3032, y: 7322 },
                FixedVectorQ16 { x: -2991, y: 5971 },
                FixedVectorQ16 { x: 3593, y: 8675 },
                FixedVectorQ16 { x: -926, y: 9344 },
            ),
            HexDeformationProfile::PagoniaLike => (
                FixedVectorQ16 { x: -4508, y: -10884 },
                FixedVectorQ16 { x: -4299, y: -10559 },
                FixedVectorQ16 { x: -15358, y: 0 },
                FixedVectorQ16 { x: -10222, y: -11461 },
            ),
            HexDeformationProfile::Subtle => unreachable!(),
        };
        assert_eq!(macro_field_node_vector(42, profile, 0, 0), expected.0);
        assert_eq!(interpolated_correlated_field(42, key, profile), expected.1);
        assert_eq!(local_component_q16(42, key, profile), expected.2);
        assert_eq!(profile_displacement_q16(42, key, profile), ProfileDisplacementQ16::Blended(expected.3));
        // The blend keeps the stronger component's magnitude, so the
        // displacement is not the shorter plain weighted sum.
        let stronger = [expected.1, expected.2]
            .iter()
            .map(|v| ((v.x * v.x + v.y * v.y) as f64).sqrt())
            .fold(0.0, f64::max);
        let blended = ((expected.3.x * expected.3.x + expected.3.y * expected.3.y) as f64).sqrt();
        assert!((blended - stronger).abs() < 2.0);
        let scaled = scaled_bits(42, key, 1.0, profile);
        assert_eq!(scaled, ((expected.3.x as f32 / 65_536.0).to_bits(), (expected.3.y as f32 / 65_536.0).to_bits()));
        assert_eq!(local_component_q16(42, key, profile), local_component_q16(42, key, profile));
        assert_eq!(profile_displacement_q16(42, key, profile), profile_displacement_q16(42, key, profile));
    }
}

#[test]
fn profile_cycle_returns_after_three_steps() {
    for profile in [HexDeformationProfile::Subtle, HexDeformationProfile::Organic, HexDeformationProfile::PagoniaLike] {
        assert_ne!(profile.next(), profile);
        assert_ne!(profile.next().next(), profile);
        assert_eq!(profile.next().next().next(), profile);
    }
    assert_eq!(HexDeformationProfile::Subtle.next(), HexDeformationProfile::Organic);
}
