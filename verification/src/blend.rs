//! Deterministic fixed-point blend of deformation components.
//!
//! Weights decide the *direction* (Q24 normalized) while the magnitude comes
//! from the stronger component. When the weighted sum nearly cancels, its
//! direction is dominated by rounding noise and flips between adjacent
//! corners; such *unreliable* corners (weighted length below the policy floor)
//! are projected onto a continuous *reference* (the stronger component,
//! near-ties to the smooth correlated field via the correlated preference
//! margin). Reliable corners keep the exact raw arithmetic, bit for bit. The
//! shared arithmetic lives in [`crate::blend_diagnostics`]; the law
//! (thresholds, activation mode, margin) lives in [`crate::blend_policy`].
use vstd::prelude::*;

use crate::blend_diagnostics::{blend_domain, component_length_q16, lemma_well_formed_policy_fits, diagnostics_spec, weighted_blend_diagnostics_with_policy, BlendReference, WeightedBlendDiagnostics};
use crate::blend_policy::{
    production_blend_reliability_policy, production_policy, BlendReliabilityPolicy,
    CORRELATED_PREFERENCE_MARGIN_Q16,
};
use crate::fixed_point::{
    abs, fits_i64, lemma_tdiv_bound, lemma_vlen_bounds_coordinates, max, tdiv, vlen, Q16,
};

verus! {

/// Largest component magnitude (Q16) for which the blend is overflow-free.
pub const COMPONENT_LIMIT_Q16: i64 = 16_777_216;

/// Largest weight (Q16) for which the blend is overflow-free.
pub const WEIGHT_LIMIT_Q16: u32 = 1_048_576;

/// A 2D fixed-point vector (1.0 == `65_536`).
#[derive(Debug, Clone, Copy, PartialEq, Eq, Structural)]
pub struct FixedVectorQ16 {
    pub x: i64,
    pub y: i64,
}

impl FixedVectorQ16 {
    /// Floor length `isqrt(x^2 + y^2)`.
    pub open spec fn len(self) -> int {
        vlen(self.x as int, self.y as int)
    }

    /// The squared length fits in `i64`.
    pub open spec fn len_fits(self) -> bool {
        self.x * self.x + self.y * self.y <= i64::MAX
    }

    /// Both coordinates lie within the blend's overflow-free range.
    pub open spec fn in_blend_range(self) -> bool {
        &&& abs(self.x as int) <= COMPONENT_LIMIT_Q16
        &&& abs(self.y as int) <= COMPONENT_LIMIT_Q16
    }
}

/// Outcome of the reliability-floor correction (all Q16 fixed-point).
#[derive(Debug, Clone, Copy, PartialEq, Eq, Structural)]
pub struct BlendStabilization {
    pub applied: bool,
    pub raw_projection_q16: i64,
    pub radial_length_increase_q16: i64,
    pub minimum_reliable_length_q16: i64,
    pub stabilized_x_q16: i64,
    pub stabilized_y_q16: i64,
    pub stabilized_length_q16: i64,
    pub stabilized_projection_q16: i64,
}

/// The stabilization reference: the component with the larger weighted
/// magnitude, near-ties (a gap below `margin` of the larger one) resolved
/// toward the correlated component; both massless gives +X.
pub open spec fn reference_spec(
    correlated: FixedVectorQ16,
    local: FixedVectorQ16,
    correlated_weight: int,
    local_weight: int,
    margin: int,
) -> BlendReference {
    let cw = correlated.len() * correlated_weight;
    let lw = local.len() * local_weight;
    if cw == 0 && lw == 0 {
        BlendReference::FixedPositiveX
    } else if cw == 0 {
        BlendReference::Local
    } else if lw == 0 {
        BlendReference::Correlated
    } else if abs(lw - cw) * Q16 < max(lw, cw) * margin {
        BlendReference::Correlated
    } else if cw > lw {
        BlendReference::Correlated
    } else {
        BlendReference::Local
    }
}

/// Every intermediate of the reference choice fits in `i64`.
pub open spec fn reference_defined(
    correlated: FixedVectorQ16,
    local: FixedVectorQ16,
    correlated_weight: int,
    local_weight: int,
    margin: int,
) -> bool {
    let cw = correlated.len() * correlated_weight;
    let lw = local.len() * local_weight;
    &&& correlated.len_fits()
    &&& local.len_fits()
    &&& fits_i64(cw)
    &&& fits_i64(lw)
    &&& (cw != 0 && lw != 0) ==> fits_i64(abs(lw - cw) * Q16) && fits_i64(max(lw, cw) * margin)
}

/// The stabilization reference for the default production margin.
pub fn blend_reference(
    correlated: FixedVectorQ16,
    local: FixedVectorQ16,
    correlated_weight_q16: u32,
    local_weight_q16: u32,
) -> (reference: BlendReference)
    requires
        reference_defined(
            correlated,
            local,
            correlated_weight_q16 as int,
            local_weight_q16 as int,
            CORRELATED_PREFERENCE_MARGIN_Q16 as int,
        ),
    ensures
        reference == reference_spec(
            correlated,
            local,
            correlated_weight_q16 as int,
            local_weight_q16 as int,
            CORRELATED_PREFERENCE_MARGIN_Q16 as int,
        ),
{
    blend_reference_with_margin(
        correlated,
        local,
        correlated_weight_q16,
        local_weight_q16,
        CORRELATED_PREFERENCE_MARGIN_Q16,
    )
}

/// The stabilization reference: the component with the larger weighted
/// magnitude, near-ties resolved toward the correlated (smooth, coherent)
/// component over the per-corner local noise.
pub fn blend_reference_with_margin(
    correlated: FixedVectorQ16,
    local: FixedVectorQ16,
    correlated_weight_q16: u32,
    local_weight_q16: u32,
    correlated_preference_margin_q16: i64,
) -> (reference: BlendReference)
    requires
        reference_defined(
            correlated,
            local,
            correlated_weight_q16 as int,
            local_weight_q16 as int,
            correlated_preference_margin_q16 as int,
        ),
    ensures
        reference == reference_spec(
            correlated,
            local,
            correlated_weight_q16 as int,
            local_weight_q16 as int,
            correlated_preference_margin_q16 as int,
        ),
{
    let wc = correlated_weight_q16 as i64;
    let wl = local_weight_q16 as i64;
    let correlated_weighted_length = component_length_q16(correlated) * wc;
    let local_weighted_length = component_length_q16(local) * wl;
    if correlated_weighted_length == 0 && local_weighted_length == 0 {
        return BlendReference::FixedPositiveX;
    }
    if correlated_weighted_length == 0 {
        return BlendReference::Local;
    }
    if local_weighted_length == 0 {
        return BlendReference::Correlated;
    }
    proof {
        lemma_vlen_bounds_coordinates(correlated.x as int, correlated.y as int);
        lemma_vlen_bounds_coordinates(local.x as int, local.y as int);
        assert(correlated_weighted_length >= 0 && local_weighted_length >= 0) by (nonlinear_arith)
            requires
                correlated_weighted_length == correlated.len() * wc,
                local_weighted_length == local.len() * wl,
                correlated.len() >= 0,
                local.len() >= 0,
                wc >= 0,
                wl >= 0,
        ;
    }
    let gap = if local_weighted_length >= correlated_weighted_length {
        local_weighted_length - correlated_weighted_length
    } else {
        correlated_weighted_length - local_weighted_length
    };
    let larger = if local_weighted_length >= correlated_weighted_length {
        local_weighted_length
    } else {
        correlated_weighted_length
    };
    if gap * Q16 < larger * correlated_preference_margin_q16 {
        return BlendReference::Correlated;
    }
    if correlated_weighted_length > local_weighted_length {
        BlendReference::Correlated
    } else {
        BlendReference::Local
    }
}

/// Fixed-point one of the normalized direction (Q24).
pub const DIRECTION_SHIFT: i64 = 16_777_216;

/// The Q24 unit direction of the blend: the stabilized vector when the floor
/// was triggered, the local component when the raw weighted sum is exactly
/// zero, the raw weighted sum otherwise; +X when the chosen vector is massless.
pub open spec fn direction_spec(d: WeightedBlendDiagnostics, local: FixedVectorQ16) -> (int, int) {
    let s = DIRECTION_SHIFT as int;
    if d.stabilization_applied {
        let length = d.stabilized_length_q16 as int;
        if length == 0 {
            (s, 0)
        } else {
            (tdiv(d.stabilized_x_q16 * s, length), tdiv(d.stabilized_y_q16 * s, length))
        }
    } else if d.weighted_x_q16 == 0 && d.weighted_y_q16 == 0 {
        let length = d.local_length_q16 as int;
        if length == 0 {
            (s, 0)
        } else {
            (tdiv(local.x * s, length), tdiv(local.y * s, length))
        }
    } else {
        let length = d.weighted_length_q16 as int;
        (tdiv(d.weighted_x_q16 * s, length), tdiv(d.weighted_y_q16 * s, length))
    }
}

/// The blended displacement: the Q24 direction scaled to the target magnitude
/// (the stronger component length).
pub open spec fn displacement_spec(
    correlated: FixedVectorQ16,
    local: FixedVectorQ16,
    correlated_weight: int,
    local_weight: int,
    policy: BlendReliabilityPolicy,
) -> FixedVectorQ16 {
    let d = diagnostics_spec(correlated, local, correlated_weight, local_weight, policy);
    let direction = direction_spec(d, local);
    let magnitude = d.target_magnitude_q16 as int;
    FixedVectorQ16 {
        x: tdiv(direction.0 * magnitude, DIRECTION_SHIFT as int) as i64,
        y: tdiv(direction.1 * magnitude, DIRECTION_SHIFT as int) as i64,
    }
}

/// A coordinate bounded by a positive length normalizes to at most one (Q24).
proof fn lemma_unit_coordinate(a: int, length: int)
    requires
        length >= 1,
        abs(a) <= length,
        abs(a) <= 0x2000_0000,
    ensures
        abs(tdiv(a * DIRECTION_SHIFT, length)) <= DIRECTION_SHIFT,
        abs(a * DIRECTION_SHIFT) <= 0x2000_0000 * 0x100_0000,
{
    assert(abs(a * DIRECTION_SHIFT) <= DIRECTION_SHIFT * length) by (nonlinear_arith)
        requires
            abs(a) <= length,
            length >= 1,
    ;
    assert(abs(a * DIRECTION_SHIFT) <= 0x2000_0000 * 0x100_0000) by (nonlinear_arith)
        requires
            abs(a) <= 0x2000_0000,
    ;
    lemma_tdiv_bound(a * DIRECTION_SHIFT, length, DIRECTION_SHIFT as int);
}

/// Blends two components into a Q16 displacement vector.
///
/// Direction is the profile-weighted sum normalized in Q24, replaced below the
/// reliability floor by the projection-floor toward the reference (see module
/// docs); an exactly-zero sum with no correction falls back to the local
/// direction. Magnitude is the stronger component length. All arithmetic is
/// integer.
pub fn blend_to_displacement_q16(
    correlated: FixedVectorQ16,
    local: FixedVectorQ16,
    correlated_weight_q16: u32,
    local_weight_q16: u32,
) -> (displacement: FixedVectorQ16)
    requires
        correlated.in_blend_range(),
        local.in_blend_range(),
        correlated_weight_q16 <= WEIGHT_LIMIT_Q16,
        local_weight_q16 <= WEIGHT_LIMIT_Q16,
    ensures
        displacement == displacement_spec(
            correlated,
            local,
            correlated_weight_q16 as int,
            local_weight_q16 as int,
            production_policy(),
        ),
{
    let policy = production_blend_reliability_policy();
    proof {
        lemma_well_formed_policy_fits(correlated, local, correlated_weight_q16, local_weight_q16, policy);
    }
    blend_to_displacement_q16_with_policy(correlated, local, correlated_weight_q16, local_weight_q16, policy)
}

/// Like [`blend_to_displacement_q16`], but under an explicit policy, so the
/// candidate generator can build genuinely different geometry for each
/// threshold instead of re-classifying a single topology.
pub fn blend_to_displacement_q16_with_policy(
    correlated: FixedVectorQ16,
    local: FixedVectorQ16,
    correlated_weight_q16: u32,
    local_weight_q16: u32,
    policy: BlendReliabilityPolicy,
) -> (displacement: FixedVectorQ16)
    requires
        blend_domain(correlated, local, correlated_weight_q16, local_weight_q16, policy),
    ensures
        displacement == displacement_spec(
            correlated,
            local,
            correlated_weight_q16 as int,
            local_weight_q16 as int,
            policy,
        ),
{
    let diagnostics = weighted_blend_diagnostics_with_policy(
        correlated,
        local,
        correlated_weight_q16,
        local_weight_q16,
        policy,
    );
    let ghost d = diagnostics;
    let mut dir_x: i64 = DIRECTION_SHIFT;
    let mut dir_y: i64 = 0;
    if diagnostics.stabilization_applied {
        let length = diagnostics.stabilized_length_q16;
        if length != 0 {
            proof {
                lemma_vlen_bounds_coordinates(d.stabilized_x_q16 as int, d.stabilized_y_q16 as int);
                lemma_unit_coordinate(d.stabilized_x_q16 as int, length as int);
                lemma_unit_coordinate(d.stabilized_y_q16 as int, length as int);
            }
            dir_x = diagnostics.stabilized_x_q16 * DIRECTION_SHIFT / length;
            dir_y = diagnostics.stabilized_y_q16 * DIRECTION_SHIFT / length;
        }
    } else if diagnostics.weighted_x_q16 == 0 && diagnostics.weighted_y_q16 == 0 {
        let length = diagnostics.local_length_q16;
        if length != 0 {
            proof {
                lemma_vlen_bounds_coordinates(local.x as int, local.y as int);
                lemma_unit_coordinate(local.x as int, length as int);
                lemma_unit_coordinate(local.y as int, length as int);
            }
            dir_x = local.x * DIRECTION_SHIFT / length;
            dir_y = local.y * DIRECTION_SHIFT / length;
        }
    } else {
        let length = diagnostics.weighted_length_q16;
        proof {
            lemma_vlen_bounds_coordinates(d.weighted_x_q16 as int, d.weighted_y_q16 as int);
            lemma_unit_coordinate(d.weighted_x_q16 as int, length as int);
            lemma_unit_coordinate(d.weighted_y_q16 as int, length as int);
        }
        dir_x = diagnostics.weighted_x_q16 * DIRECTION_SHIFT / length;
        dir_y = diagnostics.weighted_y_q16 * DIRECTION_SHIFT / length;
    }
    let magnitude = diagnostics.target_magnitude_q16;
    assert(abs(dir_x * magnitude) <= 0x100_0000 * 0x200_0000 && abs(dir_y * magnitude) <= 0x100_0000
        * 0x200_0000) by (nonlinear_arith)
        requires
            abs(dir_x as int) <= 0x100_0000,
            abs(dir_y as int) <= 0x100_0000,
            0 <= magnitude <= 0x200_0000,
    ;
    FixedVectorQ16 { x: dir_x * magnitude / DIRECTION_SHIFT, y: dir_y * magnitude / DIRECTION_SHIFT }
}

} // verus!
