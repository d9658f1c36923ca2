//! Deterministic deformation profiles for the diagnostic topology.
use vstd::prelude::*;

use crate::blend::{blend_to_displacement_q16_with_policy, displacement_spec, FixedVectorQ16};
use crate::blend_policy::{
    production_policy, BlendReliabilityPolicy,
};
use crate::corner_key::{
    corner_displacement_parts, corner_displacement_parts_spec, corner_seed_spec, direction_table,
    displacement_direction_q15, seed_for_corner, splitmix_spec,
};
use crate::fixed_point::{abs, lemma_tdiv_bound, tdiv, Q16};
use crate::blend_diagnostics::{blend_domain, blend_policy_fits};
use crate::types::SharedCornerKey;

verus! {

pub const Q15: i64 = 32_767;
const FIELD_DIRECTION_MASK: u64 = 0x0f;
const FIELD_STRENGTH_SHIFT: u64 = 12;
const FIELD_STRENGTH_MASK: u64 = 0xff;

#[derive(Debug, Clone, Copy, PartialEq, Eq, Hash, PartialOrd, Ord, Structural)]
pub enum HexDeformationProfile {
    Subtle,
    Organic,
    PagoniaLike,
}

#[derive(Debug, Clone, Copy, PartialEq, Eq, Structural)]
pub struct HexDeformationConfig {
    /// Magnitude range used to build local and correlated components (Q16).
    /// This is an *input* range, not a final displacement guarantee.
    pub component_magnitude_min_q16: u16,
    /// Magnitude range used to build local and correlated components (Q16).
    pub component_magnitude_max_q16: u16,
    /// Absolute final-displacement cap as a Q16 ratio of the hex radius.
    pub absolute_displacement_cap_q16: u16,
    pub correlated_weight_q16: u32,
    pub local_weight_q16: u32,
    pub macro_span_hexes: i32,
    pub discriminator: u32,
}

/// The tuned configuration of each profile.
pub open spec fn config_spec(profile: HexDeformationProfile) -> HexDeformationConfig {
    match profile {
        HexDeformationProfile::Subtle => HexDeformationConfig {
            component_magnitude_min_q16: 5_243,
            component_magnitude_max_q16: 7_864,
            absolute_displacement_cap_q16: 10_486,
            correlated_weight_q16: 0,
            local_weight_q16: 65_536,
            macro_span_hexes: 0,
            discriminator: 0x5355_4254,
        },
        HexDeformationProfile::Organic => HexDeformationConfig {
            component_magnitude_min_q16: 7_864,
            component_magnitude_max_q16: 11_796,
            absolute_displacement_cap_q16: 14_418,
            correlated_weight_q16: 42_598,
            local_weight_q16: 22_938,
            macro_span_hexes: 5,
            discriminator: 0x4f52_4741,
        },
        HexDeformationProfile::PagoniaLike => HexDeformationConfig {
            component_magnitude_min_q16: 10_486,
            component_magnitude_max_q16: 15_729,
            absolute_displacement_cap_q16: 18_350,
            correlated_weight_q16: 49_152,
            local_weight_q16: 16_384,
            macro_span_hexes: 5,
            discriminator: 0x5041_474f,
        },
    }
}

/// The profile after this one in the cycle `Subtle -> Organic -> PagoniaLike`.
pub open spec fn next_spec(profile: HexDeformationProfile) -> HexDeformationProfile {
    match profile {
        HexDeformationProfile::Subtle => HexDeformationProfile::Organic,
        HexDeformationProfile::Organic => HexDeformationProfile::PagoniaLike,
        HexDeformationProfile::PagoniaLike => HexDeformationProfile::Subtle,
    }
}

impl Default for HexDeformationProfile {
    /// The default profile is `Subtle`.
    fn default() -> (profile: Self)
        ensures
            profile == HexDeformationProfile::Subtle,
    {
        HexDeformationProfile::Subtle
    }
}

impl HexDeformationProfile {
    pub fn next(self) -> (next: Self)
        ensures
            next == next_spec(self),
    {
        match self {
            Self::Subtle => Self::Organic,
            Self::Organic => Self::PagoniaLike,
            Self::PagoniaLike => Self::Subtle,
        }
    }

    pub fn name(self) -> (name: &'static str)
        ensures
            self == HexDeformationProfile::Subtle ==> name@ == "Subtle"@,
            self == HexDeformationProfile::Organic ==> name@ == "Organic"@,
            self == HexDeformationProfile::PagoniaLike ==> name@ == "PagoniaLike"@,
    {
        match self {
            Self::Subtle => "Subtle",
            Self::Organic => "Organic",
            Self::PagoniaLike => "PagoniaLike",
        }
    }

    pub fn config(self) -> (config: HexDeformationConfig)
        ensures
            config == config_spec(self),
    {
        match self {
            Self::Subtle => HexDeformationConfig {
                component_magnitude_min_q16: 5_243,
                component_magnitude_max_q16: 7_864,
                absolute_displacement_cap_q16: 10_486,
                correlated_weight_q16: 0,
                local_weight_q16: 65_536,
                macro_span_hexes: 0,
                discriminator: 0x5355_4254,
            },
            Self::Organic => HexDeformationConfig {
                component_magnitude_min_q16: 7_864,
                component_magnitude_max_q16: 11_796,
                absolute_displacement_cap_q16: 14_418,
                correlated_weight_q16: 42_598,
                local_weight_q16: 22_938,
                macro_span_hexes: 5,
                discriminator: 0x4f52_4741,
            },
            Self::PagoniaLike => HexDeformationConfig {
                component_magnitude_min_q16: 10_486,
                component_magnitude_max_q16: 15_729,
                absolute_displacement_cap_q16: 18_350,
                correlated_weight_q16: 49_152,
                local_weight_q16: 16_384,
                macro_span_hexes: 5,
                discriminator: 0x5041_474f,
            },
        }
    }
}

/// Cycling through the profiles returns to the start after three steps, and
/// every profile is visited on the way.
pub proof fn law_profile_cycle_has_period_three(profile: HexDeformationProfile)
    ensures
        next_spec(next_spec(next_spec(profile))) == profile,
        next_spec(profile) != profile,
        next_spec(next_spec(profile)) != profile,
{
}

/// The bit pattern of an `i64` macro coordinate as a word.
pub open spec fn field_coordinate_word(value: i64) -> u64 {
    value as u64
}

fn coordinate_bits(value: i64) -> (bits: u64)
    ensures
        bits == field_coordinate_word(value),
{
    value as u64
}

fn mix_word(state: u64, word: u64) -> (mixed: u64)
    ensures
        mixed == splitmix_spec(state, word),
{
    let mut mixed = state.wrapping_add(word).wrapping_mul(0x9e37_79b9_7f4a_7c15);
    mixed = (mixed ^ (mixed >> 30u64)).wrapping_mul(0xbf58_476d_1ce4_e5b9);
    mixed = (mixed ^ (mixed >> 27u64)).wrapping_mul(0x94d0_49bb_1331_11eb);
    mixed ^ (mixed >> 31u64)
}

/// The hash of a macro-field node: the seed xor the profile discriminator,
/// mixed with the node's `q` word and then its `r` word.
pub open spec fn field_node_hash_spec(seed: u32, profile: HexDeformationProfile, q: i64, r: i64) -> u64 {
    let state = (seed as u64) ^ (config_spec(profile).discriminator as u64);
    splitmix_spec(splitmix_spec(state, field_coordinate_word(q)), field_coordinate_word(r))
}

fn field_node_hash(seed: u32, profile: HexDeformationProfile, q: i64, r: i64) -> (hash: u64)
    ensures
        hash == field_node_hash_spec(seed, profile, q, r),
{
    let config = profile.config();
    let mut state = (seed as u64) ^ (config.discriminator as u64);
    state = mix_word(state, coordinate_bits(q));
    mix_word(state, coordinate_bits(r))
}

/// A configuration whose magnitude range is ordered and within the cap range.
pub open spec fn config_well_formed(config: HexDeformationConfig) -> bool {
    config.component_magnitude_min_q16 <= config.component_magnitude_max_q16
}

/// The Q16 magnitude a hash selects: the minimum plus `sample * span / 255`
/// for the sample in bits 12..=19, capped at the absolute displacement cap.
pub open spec fn quantized_magnitude_spec(hash: u64, config: HexDeformationConfig) -> int {
    let sample = ((hash >> 12u64) & 0xff) as int;
    let span = config.component_magnitude_max_q16 - config.component_magnitude_min_q16;
    let magnitude = config.component_magnitude_min_q16 + sample * span / 255;
    if magnitude <= config.absolute_displacement_cap_q16 {
        magnitude
    } else {
        config.absolute_displacement_cap_q16 as int
    }
}

fn quantized_magnitude(hash: u64, config: HexDeformationConfig) -> (magnitude: i64)
    requires
        config_well_formed(config),
    ensures
        magnitude == quantized_magnitude_spec(hash, config),
        0 <= magnitude <= config.absolute_displacement_cap_q16,
{
    let sample = (hash >> FIELD_STRENGTH_SHIFT) & FIELD_STRENGTH_MASK;
    assert(sample <= 255) by (bit_vector)
        requires
            sample == (hash >> 12u64) & 0xff,
    ;
    let span = (config.component_magnitude_max_q16 - config.component_magnitude_min_q16) as u32;
    assert((sample as u32) * span <= 255 * 65535) by (nonlinear_arith)
        requires
            sample <= 255,
            span <= 65535,
    ;
    let delta = (sample as u32) * span / 255;
    assert(delta <= span) by (nonlinear_arith)
        requires
            sample <= 255,
            delta == (sample as u32) * span / 255,
    ;
    let magnitude = (config.component_magnitude_min_q16 as i64) + (delta as i64);
    let cap = config.absolute_displacement_cap_q16 as i64;
    if magnitude <= cap {
        magnitude
    } else {
        cap
    }
}

/// The vector a hash selects: the Q15 direction in bits 0..=3 scaled to the
/// quantized magnitude.
pub open spec fn vector_from_hash_spec(hash: u64, config: HexDeformationConfig) -> FixedVectorQ16 {
    let direction = direction_table((hash & 0x0f) as int);
    let magnitude = quantized_magnitude_spec(hash, config);
    FixedVectorQ16 {
        x: tdiv(direction.0 * magnitude, Q15 as int) as i64,
        y: tdiv(direction.1 * magnitude, Q15 as int) as i64,
    }
}

fn vector_from_hash(hash: u64, config: HexDeformationConfig) -> (vector: FixedVectorQ16)
    requires
        config_well_formed(config),
    ensures
        vector == vector_from_hash_spec(hash, config),
        abs(vector.x as int) <= config.absolute_displacement_cap_q16,
        abs(vector.y as int) <= config.absolute_displacement_cap_q16,
{
    let index = hash & FIELD_DIRECTION_MASK;
    assert(index < 16) by (bit_vector)
        requires
            index == hash & 0x0f,
    ;
    let direction = displacement_direction_q15(index as usize);
    let magnitude = quantized_magnitude(hash, config);
    let dx = direction.0 as i64;
    let dy = direction.1 as i64;
    let ghost cap = config.absolute_displacement_cap_q16 as int;
    proof {
        assert(abs(dx * magnitude) <= Q15 * cap) by (nonlinear_arith)
            requires
                abs(dx as int) <= 32767,
                0 <= magnitude <= cap,
        ;
        assert(abs(dy * magnitude) <= Q15 * cap) by (nonlinear_arith)
            requires
                abs(dy as int) <= 32767,
                0 <= magnitude <= cap,
        ;
        assert(Q15 * cap == cap * Q15) by (nonlinear_arith);
        lemma_tdiv_bound(dx * magnitude, Q15 as int, cap);
        lemma_tdiv_bound(dy * magnitude, Q15 as int, cap);
    }
    FixedVectorQ16 { x: dx * magnitude / Q15, y: dy * magnitude / Q15 }
}

/// The fixed vector stored at an integer macro-field node (zero for Subtle).
pub open spec fn macro_field_node_spec(
    seed: u32,
    profile: HexDeformationProfile,
    macro_q: i64,
    macro_r: i64,
) -> FixedVectorQ16 {
    if profile == HexDeformationProfile::Subtle {
        FixedVectorQ16 { x: 0, y: 0 }
    } else {
        vector_from_hash_spec(field_node_hash_spec(seed, profile, macro_q, macro_r), config_spec(profile))
    }
}

/// Returns the fixed vector stored at an integer macro-field node.
pub fn macro_field_node_vector(
    seed: u32,
    profile: HexDeformationProfile,
    macro_q: i64,
    macro_r: i64,
) -> (vector: FixedVectorQ16)
    ensures
        vector == macro_field_node_spec(seed, profile, macro_q, macro_r),
        abs(vector.x as int) <= config_spec(profile).absolute_displacement_cap_q16,
        abs(vector.y as int) <= config_spec(profile).absolute_displacement_cap_q16,
{
    if profile == HexDeformationProfile::Subtle {
        return FixedVectorQ16 { x: 0, y: 0 };
    }
    vector_from_hash(field_node_hash(seed, profile, macro_q, macro_r), profile.config())
}

/// Floor division: the largest `q` with `q * divisor <= value`.
fn floor_div(value: i64, divisor: i64) -> (quotient: i64)
    requires
        divisor > 0,
    ensures
        quotient == value as int / divisor as int,
        quotient * divisor <= value < quotient * divisor + divisor,
{
    let quotient = value / divisor;
    proof {
        let v = value as int;
        let d = divisor as int;
        if v >= 0 {
            vstd::arithmetic::div_mod::lemma_fundamental_div_mod(v, d);
            let q = v / d;
            let r = v % d;
            assert(quotient == q);
            assert(0 <= q * d <= v) by (nonlinear_arith)
                requires
                    v == d * q + r,
                    0 <= r < d,
                    d > 0,
                    v >= 0,
            ;
        } else {
            let a = -v;
            vstd::arithmetic::div_mod::lemma_fundamental_div_mod(a, d);
            let q = a / d;
            let r = a % d;
            assert(quotient == -q);
            assert(v <= -q * d <= 0) by (nonlinear_arith)
                requires
                    a == d * q + r,
                    0 <= r < d,
                    a == -v,
                    d > 0,
                    a > 0,
            ;
        }
    }
    let remainder = value - quotient * divisor;
    proof {
        let v = value as int;
        let d = divisor as int;
        if v >= 0 {
            vstd::arithmetic::div_mod::lemma_fundamental_div_mod(v, d);
            let q = v / d;
            let r = v % d;
            assert(quotient == q);
            assert(remainder == r) by (nonlinear_arith)
                requires
                    v == d * q + r,
                    remainder == v - q * d,
            ;
        } else {
            let a = -v;
            vstd::arithmetic::div_mod::lemma_fundamental_div_mod(a, d);
            let q = a / d;
            let r = a % d;
            assert(quotient == -q);
            assert(remainder == -r) by (nonlinear_arith)
                requires
                    a == d * q + r,
                    a == -v,
                    remainder == v - (-q) * d,
            ;
            if r == 0 {
                assert(v == (-q) * d + 0) by (nonlinear_arith)
                    requires
                        a == d * q + r,
                        a == -v,
                        r == 0,
                ;
                vstd::arithmetic::div_mod::lemma_fundamental_div_mod_converse(v, d, -q, 0);
            } else {
                assert(v == (-q - 1) * d + (d - r)) by (nonlinear_arith)
                    requires
                        a == d * q + r,
                        a == -v,
                ;
                vstd::arithmetic::div_mod::lemma_fundamental_div_mod_converse(v, d, -q - 1, d - r);
                assert(-q - 1 >= v) by (nonlinear_arith)
                    requires
                        v == (-q - 1) * d + (d - r),
                        0 < r < d,
                        v < 0,
                ;
            }
        }
    }
    if remainder != 0 && remainder < 0 {
        quotient - 1
    } else {
        quotient
    }
}

/// The Q16 axial field position of a corner: the floor of the mean of its
/// three cells' coordinates.
pub open spec fn field_coordinate_spec(key: SharedCornerKey) -> (int, int) {
    let q_sum = key.0.q + key.1.q + key.2.q;
    let r_sum = key.0.r + key.1.r + key.2.r;
    ((q_sum * Q16) / 3, (r_sum * Q16) / 3)
}

/// Converts a canonical corner to a Q16 axial field position.
pub fn field_coordinate_q16(key: SharedCornerKey) -> (position: (i64, i64))
    ensures
        position.0 == field_coordinate_spec(key).0,
        position.1 == field_coordinate_spec(key).1,
{
    let q_sum = (key.first().q as i64) + (key.second().q as i64) + (key.third().q as i64);
    let r_sum = (key.first().r as i64) + (key.second().r as i64) + (key.third().r as i64);
    (floor_div(q_sum * Q16, 3), floor_div(r_sum * Q16, 3))
}

/// Linear interpolation `(a * (1 - f) + b * f)` with a Q16 fraction, truncated.
pub open spec fn interpolate_spec(a: int, b: int, fraction: int) -> int {
    tdiv(a * (Q16 - fraction) + b * fraction, Q16 as int)
}

fn interpolate_axis(a: i64, b: i64, fraction_q16: i64) -> (value: i64)
    requires
        0 <= fraction_q16 <= Q16,
        abs(a as int) <= 0x10_0000,
        abs(b as int) <= 0x10_0000,
    ensures
        value == interpolate_spec(a as int, b as int, fraction_q16 as int),
        abs(value as int) <= abs(a as int) + abs(b as int),
{
    assert(abs(a * (Q16 - fraction_q16) + b * fraction_q16) <= (abs(a as int) + abs(b as int)) * Q16)
        by (nonlinear_arith)
        requires
            0 <= fraction_q16 <= 65536,
    ;
    proof {
        lemma_tdiv_bound(a * (Q16 - fraction_q16) + b * fraction_q16, Q16 as int, abs(a as int) + abs(b as int));
    }
    assert(abs(a * (Q16 - fraction_q16)) <= 0x10_0000 * 0x1_0000 && abs(b * fraction_q16) <= 0x10_0000
        * 0x1_0000) by (nonlinear_arith)
        requires
            0 <= fraction_q16 <= 65536,
            abs(a as int) <= 0x10_0000,
            abs(b as int) <= 0x10_0000,
    ;
    (a * (Q16 - fraction_q16) + b * fraction_q16) / Q16
}

/// The coarse correlated field at a corner: zero for profiles without a macro
/// field, otherwise the bilinear interpolation of the four surrounding macro
/// nodes at the corner's position within its macro cell.
pub open spec fn correlated_field_spec(seed: u32, key: SharedCornerKey, profile: HexDeformationProfile) -> FixedVectorQ16 {
    let config = config_spec(profile);
    if config.macro_span_hexes == 0 {
        FixedVectorQ16 { x: 0, y: 0 }
    } else {
        let position = field_coordinate_spec(key);
        let span = config.macro_span_hexes * Q16;
        let macro_q = position.0 / span;
        let macro_r = position.1 / span;
        let fraction_q = ((position.0 - macro_q * span) * Q16) / span;
        let fraction_r = ((position.1 - macro_r * span) * Q16) / span;
        let v00 = macro_field_node_spec(seed, profile, macro_q as i64, macro_r as i64);
        let v10 = macro_field_node_spec(seed, profile, (macro_q + 1) as i64, macro_r as i64);
        let v01 = macro_field_node_spec(seed, profile, macro_q as i64, (macro_r + 1) as i64);
        let v11 = macro_field_node_spec(seed, profile, (macro_q + 1) as i64, (macro_r + 1) as i64);
        let x0 = interpolate_spec(v00.x as int, v10.x as int, fraction_q);
        let x1 = interpolate_spec(v01.x as int, v11.x as int, fraction_q);
        let y0 = interpolate_spec(v00.y as int, v10.y as int, fraction_q);
        let y1 = interpolate_spec(v01.y as int, v11.y as int, fraction_q);
        FixedVectorQ16 {
            x: interpolate_spec(x0, x1, fraction_r) as i64,
            y: interpolate_spec(y0, y1, fraction_r) as i64,
        }
    }
}

/// Bilinearly interpolates the deterministic coarse field at a shared corner.
pub fn interpolated_correlated_field(
    seed: u32,
    key: SharedCornerKey,
    profile: HexDeformationProfile,
) -> (field: FixedVectorQ16)
    ensures
        field == correlated_field_spec(seed, key, profile),
        abs(field.x as int) <= 4 * config_spec(profile).absolute_displacement_cap_q16,
        abs(field.y as int) <= 4 * config_spec(profile).absolute_displacement_cap_q16,
{
    let config = profile.config();
    if config.macro_span_hexes == 0 {
        return FixedVectorQ16 { x: 0, y: 0 };
    }
    let (q_q16, r_q16) = field_coordinate_q16(key);
    let span = (config.macro_span_hexes as i64) * Q16;
    assert(span == 5 * 65536);
    let macro_q = floor_div(q_q16, span);
    let macro_r = floor_div(r_q16, span);
    proof {
        let qs = key.0.q + key.1.q + key.2.q;
        let rs = key.0.r + key.1.r + key.2.r;
        assert(abs(qs * Q16) <= 0x2_0000_0000 * 0x1_0000 && abs(rs * Q16) <= 0x2_0000_0000 * 0x1_0000)
            by (nonlinear_arith)
            requires
                abs(qs) <= 0x2_0000_0000,
                abs(rs) <= 0x2_0000_0000,
        ;
        vstd::arithmetic::div_mod::lemma_div_is_ordered(qs * Q16, 0x2_0000_0000int * 0x1_0000int, 3);
        vstd::arithmetic::div_mod::lemma_div_is_ordered(-0x2_0000_0000int * 0x1_0000int, qs * Q16, 3);
        vstd::arithmetic::div_mod::lemma_div_is_ordered(rs * Q16, 0x2_0000_0000int * 0x1_0000int, 3);
        vstd::arithmetic::div_mod::lemma_div_is_ordered(-0x2_0000_0000int * 0x1_0000int, rs * Q16, 3);
        vstd::arithmetic::div_mod::lemma_div_is_ordered(q_q16 as int, 0x2_0000_0000int * 0x1_0000int, span as int);
        vstd::arithmetic::div_mod::lemma_div_is_ordered(-0x2_0000_0000int * 0x1_0000int, q_q16 as int, span as int);
        vstd::arithmetic::div_mod::lemma_div_is_ordered(r_q16 as int, 0x2_0000_0000int * 0x1_0000int, span as int);
        vstd::arithmetic::div_mod::lemma_div_is_ordered(-0x2_0000_0000int * 0x1_0000int, r_q16 as int, span as int);
    }
    let rem_q = q_q16 - macro_q * span;
    let rem_r = r_q16 - macro_r * span;
    let fraction_q = floor_div(rem_q * Q16, span);
    let fraction_r = floor_div(rem_r * Q16, span);
    proof {
        vstd::arithmetic::div_mod::lemma_div_is_ordered(rem_q * Q16, span * Q16, span as int);
        vstd::arithmetic::div_mod::lemma_div_is_ordered(rem_r * Q16, span * Q16, span as int);
        vstd::arithmetic::div_mod::lemma_div_pos_is_pos(rem_q * Q16, span as int);
        vstd::arithmetic::div_mod::lemma_div_pos_is_pos(rem_r * Q16, span as int);
        vstd::arithmetic::div_mod::lemma_div_multiples_vanish(Q16 as int, span as int);
        assert(span * Q16 == span as int * Q16 as int);
    }
    let v00 = macro_field_node_vector(seed, profile, macro_q, macro_r);
    let v10 = macro_field_node_vector(seed, profile, macro_q + 1, macro_r);
    let v01 = macro_field_node_vector(seed, profile, macro_q, macro_r + 1);
    let v11 = macro_field_node_vector(seed, profile, macro_q + 1, macro_r + 1);
    let x0 = interpolate_axis(v00.x, v10.x, fraction_q);
    let x1 = interpolate_axis(v01.x, v11.x, fraction_q);
    let y0 = interpolate_axis(v00.y, v10.y, fraction_q);
    let y1 = interpolate_axis(v01.y, v11.y, fraction_q);
    FixedVectorQ16 { x: interpolate_axis(x0, x1, fraction_r), y: interpolate_axis(y0, y1, fraction_r) }
}

/// The profile's local high-frequency component at a corner: the vector
/// selected by the corner seed of the world seed xor the profile
/// discriminator.
pub open spec fn local_component_spec(seed: u32, key: SharedCornerKey, profile: HexDeformationProfile) -> FixedVectorQ16 {
    vector_from_hash_spec(
        corner_seed_spec(seed ^ config_spec(profile).discriminator, key),
        config_spec(profile),
    )
}

/// Returns the profile's deterministic local high-frequency component.
pub fn local_component_q16(
    seed: u32,
    key: SharedCornerKey,
    profile: HexDeformationProfile,
) -> (component: FixedVectorQ16)
    ensures
        component == local_component_spec(seed, key, profile),
        abs(component.x as int) <= config_spec(profile).absolute_displacement_cap_q16,
        abs(component.y as int) <= config_spec(profile).absolute_displacement_cap_q16,
{
    let config = profile.config();
    let hash = seed_for_corner(seed ^ config.discriminator, key);
    vector_from_hash(hash, config)
}

/// The fixed-point displacement of one corner under a profile.
#[derive(Debug, Clone, Copy, PartialEq, Eq, Structural)]
pub enum ProfileDisplacementQ16 {
    /// The legacy Subtle path: a Q15 unit direction and a Q16 magnitude, both
    /// to be scaled by the hex radius.
    Legacy { direction_x_q15: i16, direction_y_q15: i16, magnitude_q16: u16 },
    /// The blended path: a Q16 displacement to be scaled by the hex radius.
    Blended(FixedVectorQ16),
}

/// Combines the correlated and local components, preserving Subtle exactly.
///
/// `Subtle` keeps the legacy corner displacement (direction and magnitude from
/// the corner seed) regardless of the policy. `Organic` and `PagoniaLike` use
/// the deterministic magnitude-preserving blend: weighted direction at the
/// stronger component magnitude.
pub fn profile_displacement_q16_with_policy(
    seed: u32,
    key: SharedCornerKey,
    profile: HexDeformationProfile,
    policy: BlendReliabilityPolicy,
) -> (displacement: ProfileDisplacementQ16)
    requires
        profile_policy_fits(seed, key, profile, policy),
    ensures
        profile == HexDeformationProfile::Subtle ==> ({
            let parts = corner_displacement_parts_spec(seed, key);
            &&& displacement matches ProfileDisplacementQ16::Legacy {
                direction_x_q15,
                direction_y_q15,
                magnitude_q16,
            }
            &&& direction_x_q15 == parts.0.0
            &&& direction_y_q15 == parts.0.1
            &&& magnitude_q16 == parts.1
        }),
        profile != HexDeformationProfile::Subtle ==> displacement == ProfileDisplacementQ16::Blended(
            displacement_spec(
                correlated_field_spec(seed, key, profile),
                local_component_spec(seed, key, profile),
                config_spec(profile).correlated_weight_q16 as int,
                config_spec(profile).local_weight_q16 as int,
                policy,
            ),
        ),
{
    if profile == HexDeformationProfile::Subtle {
        let (direction, magnitude_q16) = corner_displacement_parts(seed, key);
        return ProfileDisplacementQ16::Legacy {
            direction_x_q15: direction.0,
            direction_y_q15: direction.1,
            magnitude_q16,
        };
    }
    let config = profile.config();
    let correlated = interpolated_correlated_field(seed, key, profile);
    let local = local_component_q16(seed, key, profile);
    ProfileDisplacementQ16::Blended(
        blend_to_displacement_q16_with_policy(
            correlated,
            local,
            config.correlated_weight_q16,
            config.local_weight_q16,
            policy,
        ),
    )
}

/// Like [`profile_displacement_q16_with_policy`] under the production policy.
pub fn profile_displacement_q16(
    seed: u32,
    key: SharedCornerKey,
    profile: HexDeformationProfile,
) -> (displacement: ProfileDisplacementQ16)
    ensures
        profile == HexDeformationProfile::Subtle ==> ({
            let parts = corner_displacement_parts_spec(seed, key);
            &&& displacement matches ProfileDisplacementQ16::Legacy {
                direction_x_q15,
                direction_y_q15,
                magnitude_q16,
            }
            &&& direction_x_q15 == parts.0.0
            &&& direction_y_q15 == parts.0.1
            &&& magnitude_q16 == parts.1
        }),
        profile != HexDeformationProfile::Subtle ==> displacement == ProfileDisplacementQ16::Blended(
            displacement_spec(
                correlated_field_spec(seed, key, profile),
                local_component_spec(seed, key, profile),
                config_spec(profile).correlated_weight_q16 as int,
                config_spec(profile).local_weight_q16 as int,
                production_policy(),
            ),
        ),
{
    if profile == HexDeformationProfile::Subtle {
        let (direction, magnitude_q16) = corner_displacement_parts(seed, key);
        return ProfileDisplacementQ16::Legacy {
            direction_x_q15: direction.0,
            direction_y_q15: direction.1,
            magnitude_q16,
        };
    }
    let config = profile.config();
    let correlated = interpolated_correlated_field(seed, key, profile);
    let local = local_component_q16(seed, key, profile);
    ProfileDisplacementQ16::Blended(
        crate::blend::blend_to_displacement_q16(correlated, local, config.correlated_weight_q16, config.local_weight_q16),
    )
}

/// The policy fits the blend of the profile's components at this corner;
/// the legacy `Subtle` profile does not blend, so every policy fits it.
pub open spec fn profile_policy_fits(
    seed: u32,
    key: SharedCornerKey,
    profile: HexDeformationProfile,
    policy: BlendReliabilityPolicy,
) -> bool {
    profile == HexDeformationProfile::Subtle || blend_domain(
        correlated_field_spec(seed, key, profile),
        local_component_spec(seed, key, profile),
        config_spec(profile).correlated_weight_q16,
        config_spec(profile).local_weight_q16,
        policy,
    )
}

/// Whether `policy` fits the blend at this corner under `profile`, as
/// [`profile_policy_fits`] states it.
pub fn profile_blend_fits(
    seed: u32,
    key: SharedCornerKey,
    profile: HexDeformationProfile,
    policy: BlendReliabilityPolicy,
) -> (fits: bool)
    ensures
        fits == profile_policy_fits(seed, key, profile, policy),
{
    if profile == HexDeformationProfile::Subtle {
        return true;
    }
    let config = profile.config();
    let correlated = interpolated_correlated_field(seed, key, profile);
    let local = local_component_q16(seed, key, profile);
    blend_policy_fits(correlated, local, config.correlated_weight_q16, config.local_weight_q16, policy)
}

} // verus!
