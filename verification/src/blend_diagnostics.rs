//! Shared fixed-point arithmetic behind the blend in [`crate::blend`].
//!
//! Reference selection and projection live here so no policy decision couples
//! to the blend implementation shape; the law itself lives in
//! [`crate::blend_policy`].
use vstd::prelude::*;

use crate::blend::{
    blend_reference_with_margin, reference_defined, reference_spec, BlendStabilization, FixedVectorQ16,
    COMPONENT_LIMIT_Q16, WEIGHT_LIMIT_Q16,
};
use crate::blend_policy::{
    production_blend_reliability_policy, production_policy, BlendActivation, BlendReliabilityPolicy,
};
use crate::fixed_point::{
    abs, ceil_div, fits_i64, is_floor_sqrt, isqrt, lemma_ceil_div_by_mod, lemma_ceil_scale_at_most,
    lemma_isqrt, lemma_isqrt_at_most, lemma_newton_step_above, lemma_projection_bound,
    lemma_tdiv_bound, lemma_vlen_at_most, lemma_vlen_bounds_coordinates, max, tdiv, vlen, Q16,
};

verus! {

/// The component a stabilized blend direction is projected onto.
#[derive(Debug, Clone, Copy, PartialEq, Eq, Structural)]
pub enum BlendReference {
    /// The correlated component (near-ties prefer this smooth field).
    Correlated,
    /// The local component.
    Local,
    /// No component has mass (both are exactly zero); use +X.
    FixedPositiveX,
}

/// A resolved projection target, whose floor length is at least one.
#[derive(Debug, Clone, Copy, PartialEq, Eq, Structural)]
pub struct ResolvedBlendReference {
    vector: FixedVectorQ16,
    length_q16: i64,
    kind: BlendReference,
}

impl ResolvedBlendReference {
    pub closed spec fn target(self) -> FixedVectorQ16 {
        self.vector
    }

    pub closed spec fn length(self) -> int {
        self.length_q16 as int
    }

    pub closed spec fn kind(self) -> BlendReference {
        self.kind
    }
}

/// The unit vector along +X, the target of a reference without mass.
pub open spec fn positive_x() -> FixedVectorQ16 {
    FixedVectorQ16 { x: 1, y: 0 }
}

/// The vector a reference resolves to: the chosen component, or +X when that
/// component (or the fixed reference) has no mass.
pub open spec fn resolved_vector(
    reference: BlendReference,
    correlated: FixedVectorQ16,
    local: FixedVectorQ16,
) -> FixedVectorQ16 {
    match reference {
        BlendReference::Correlated => if correlated.len() >= 1 {
            correlated
        } else {
            positive_x()
        },
        BlendReference::Local => if local.len() >= 1 {
            local
        } else {
            positive_x()
        },
        BlendReference::FixedPositiveX => positive_x(),
    }
}

/// The floor length of the vector a reference resolves to, never below one.
pub open spec fn resolved_length(
    reference: BlendReference,
    correlated: FixedVectorQ16,
    local: FixedVectorQ16,
) -> int {
    match reference {
        BlendReference::Correlated => if correlated.len() >= 1 {
            correlated.len()
        } else {
            1
        },
        BlendReference::Local => if local.len() >= 1 {
            local.len()
        } else {
            1
        },
        BlendReference::FixedPositiveX => 1,
    }
}

/// Resolves a [`BlendReference`] into a concrete vector with floor length at
/// least one: the chosen component with its length, or +X with length one
/// when the reference is the fixed one or its component has no mass.
pub fn resolve_reference(
    reference: BlendReference,
    correlated: FixedVectorQ16,
    local: FixedVectorQ16,
) -> (resolved: ResolvedBlendReference)
    requires
        reference == BlendReference::Correlated ==> correlated.len_fits(),
        reference == BlendReference::Local ==> local.len_fits(),
    ensures
        resolved.target() == resolved_vector(reference, correlated, local),
        resolved.length() == resolved_length(reference, correlated, local),
        resolved.kind() == reference,
        resolved.length() >= 1,
{
    let (vector, length_q16) = match reference {
        BlendReference::Correlated => (correlated, component_length_q16(correlated)),
        BlendReference::Local => (local, component_length_q16(local)),
        BlendReference::FixedPositiveX => (FixedVectorQ16 { x: 1, y: 0 }, 1),
    };
    if length_q16 < 1 {
        ResolvedBlendReference { vector: FixedVectorQ16 { x: 1, y: 0 }, length_q16: 1, kind: reference }
    } else {
        ResolvedBlendReference { vector, length_q16, kind: reference }
    }
}

/// The Q16 projection of `vector` onto a reference vector of floor length
/// `length`, truncated like the integer division it is.
pub open spec fn projection_spec(vector: FixedVectorQ16, target: FixedVectorQ16, length: int) -> int {
    tdiv(vector.x * target.x + vector.y * target.y, length)
}

/// Projection of `vector` onto a resolved reference in Q16 fixed point.
pub fn projection_onto_reference_q16(
    vector: FixedVectorQ16,
    reference: ResolvedBlendReference,
) -> (projection: i64)
    requires
        reference.length() > 0,
        vector.x * reference.target().x + vector.y * reference.target().y <= i128::MAX,
        vector.x * reference.target().x + vector.y * reference.target().y >= i128::MIN,
    ensures
        projection == projection_spec(vector, reference.target(), reference.length()) as i64,
{
    let vx = vector.x as i128;
    let vy = vector.y as i128;
    let rx = reference.vector.x as i128;
    let ry = reference.vector.y as i128;
    assert(-0x4000_0000_0000_0000_0000_0000_0000_0000 <= vx * rx <= 0x4000_0000_0000_0000_0000_0000_0000_0000)
        by (nonlinear_arith)
        requires
            -0x8000_0000_0000_0000 <= vx <= 0x8000_0000_0000_0000,
            -0x8000_0000_0000_0000 <= rx <= 0x8000_0000_0000_0000,
    ;
    assert(-0x4000_0000_0000_0000_0000_0000_0000_0000 <= vy * ry <= 0x4000_0000_0000_0000_0000_0000_0000_0000)
        by (nonlinear_arith)
        requires
            -0x8000_0000_0000_0000 <= vy <= 0x8000_0000_0000_0000,
            -0x8000_0000_0000_0000 <= ry <= 0x8000_0000_0000_0000,
    ;
    let a = vx * rx;
    let b = vy * ry;
    let numerator = a + b;
    (numerator / (reference.length_q16 as i128)) as i64
}

/// Pre-normalization intermediates: `weighted_*` are the raw values, the
/// `stabilized_*` replace them only below the reliability floor. All
/// arithmetic matches [`crate::blend::blend_to_displacement_q16`], so the
/// diagnostics never disagree with the displacement.
#[derive(Debug, Clone, Copy, PartialEq, Eq, Structural)]
pub struct WeightedBlendDiagnostics {
    pub weighted_x_q16: i64,
    pub weighted_y_q16: i64,
    pub weighted_length_q16: i64,
    pub correlated_length_q16: i64,
    pub local_length_q16: i64,
    pub target_magnitude_q16: i64,
    pub weighted_over_target_q16: i64,
    pub component_dot_q32: i64,
    pub anti_aligned: bool,
    pub reference: BlendReference,
    pub components_are_zero: bool,
    pub weighted_sum_zero: bool,
    pub stabilization_applied: bool,
    pub raw_projection_q16: i64,
    pub radial_length_increase_q16: i64,
    pub minimum_reliable_length_q16: i64,
    pub stabilized_x_q16: i64,
    pub stabilized_y_q16: i64,
    pub stabilized_length_q16: i64,
    pub stabilized_projection_q16: i64,
    pub stabilized_length_ratio_q16: i64,
    pub stabilized_projection_ratio_q16: i64,
}

/// Deterministic floor integer square root (Newton, from above).
pub fn integer_sqrt(value: u64) -> (root: u64)
    ensures
        root == isqrt(value as int),
        is_floor_sqrt(value as int, root as int),
{
    proof {
        lemma_isqrt(value as int);
    }
    if value < 2 {
        if value == 0 {
            assert(is_floor_sqrt(0, 0));
        } else {
            assert(is_floor_sqrt(1, 1));
        }
        return value;
    }
    let ghost s = isqrt(value as int);
    let mut estimate = value;
    let mut next = value / 2 + value % 2;
    proof {
        if s == 0 {
            assert((s + 1) * (s + 1) == 1) by (nonlinear_arith)
                requires
                    s == 0,
            ;
        }
        vstd::arithmetic::div_mod::lemma_div_by_self(value as int);
        if s >= 2 {
            assert(s * s >= 2 * s) by (nonlinear_arith)
                requires
                    s >= 2,
            ;
        }
    }
    while next < estimate
        invariant
            value >= 2,
            s == isqrt(value as int),
            is_floor_sqrt(value as int, s),
            s >= 1,
            s <= next,
            s <= estimate,
            estimate <= value,
            next == (estimate + value / estimate) / 2,
        decreases estimate,
    {
        estimate = next;
        let quotient = value / estimate;
        proof {
            lemma_newton_step_above(value as int, estimate as int);
        }
        next = ((estimate as u128 + quotient as u128) / 2) as u64;
    }
    proof {
        if estimate > s {
            assert(estimate * estimate > value) by (nonlinear_arith)
                requires
                    estimate >= s + 1,
                    (s + 1) * (s + 1) > value,
                    s >= 0,
            ;
            let q = value as int / estimate as int;
            vstd::arithmetic::div_mod::lemma_fundamental_div_mod(value as int, estimate as int);
            assert(q < estimate) by (nonlinear_arith)
                requires
                    value == q * estimate + value as int % estimate as int,
                    value as int % estimate as int >= 0,
                    estimate * estimate > value,
                    estimate >= 1,
            ;
        }
    }
    estimate
}

/// Q16 magnitude of a vector, or zero when it has no mass.
fn length_q16(x: i64, y: i64) -> (length: i64)
    requires
        x * x + y * y <= i64::MAX,
    ensures
        length == vlen(x as int, y as int),
{
    if x == 0 && y == 0 {
        proof {
            lemma_vlen_bounds_coordinates(x as int, y as int);
        }
        0
    } else {
        assert(x * x >= 0 && y * y >= 0) by (nonlinear_arith);
        let root = integer_sqrt((x * x + y * y) as u64);
        proof {
            lemma_isqrt_at_most((x * x + y * y) as int, 0x1_0000_0000);
        }
        root as i64
    }
}

/// Q16 magnitude of a fixed-point vector (`isqrt(x^2 + y^2)`).
pub fn component_length_q16(vector: FixedVectorQ16) -> (length: i64)
    requires
        vector.len_fits(),
    ensures
        length == vector.len(),
{
    length_q16(vector.x, vector.y)
}

/// Deterministic profile target magnitude: the larger component length.
pub fn target_magnitude_q16(correlated: FixedVectorQ16, local: FixedVectorQ16) -> (magnitude: i64)
    requires
        correlated.len_fits(),
        local.len_fits(),
    ensures
        magnitude == max(correlated.len(), local.len()),
{
    let c = length_q16(correlated.x, correlated.y);
    let l = length_q16(local.x, local.y);
    if c >= l {
        c
    } else {
        l
    }
}

/// The Q16 ratio of a value to a target, zero when the target is zero.
pub open spec fn ratio_spec(value: int, target: int) -> int {
    if target == 0 {
        0
    } else {
        tdiv(value * Q16, target)
    }
}

/// Deterministic Q16 ratio of a value to a target, zero when target is zero.
fn ratio_q16(value: i64, target: i64) -> (ratio: i64)
    requires
        target >= 0,
        fits_i64(value * Q16),
    ensures
        ratio == ratio_spec(value as int, target as int),
{
    if target == 0 {
        0
    } else {
        value * Q16 / target
    }
}

/// `ceil(|component| * target_floor / denominator) * sign(component)`, the
/// rounded-up quotient kept to 64 bits as the integer conversion keeps it.
pub open spec fn scale_spec(component: int, target_floor: int, denominator: int) -> int {
    let quotient = (ceil_div(abs(component) * target_floor, denominator) as i64) as int;
    if component < 0 {
        -quotient
    } else {
        quotient
    }
}

/// Scaling of a vector component to the reliability floor.
///
/// Computes `ceil(|component| * target_floor / denominator) * sign(component)`
/// with 128-bit intermediate arithmetic, for `denominator >= 1` and
/// `target_floor >= 0`.
pub fn scale_radial_component_q16(component: i64, target_floor: i64, denominator: i64) -> (scaled: i64)
    requires
        denominator >= 1,
        target_floor >= 0,
        component < 0 ==> (ceil_div(abs(component as int) * target_floor, denominator as int) as i64)
            != i64::MIN,
    ensures
        scaled == scale_spec(component as int, target_floor as int, denominator as int),
{
    let den = denominator as u128;
    let abs_comp: u128 = if component < 0 {
        ((-(component as i128)) as u128)
    } else {
        component as u128
    };
    let is_neg = component < 0;
    assert(abs_comp * (target_floor as u128) <= 0x4000_0000_0000_0000_0000_0000_0000_0000)
        by (nonlinear_arith)
        requires
            abs_comp <= 0x8000_0000_0000_0000,
            0 <= target_floor <= 0x7fff_ffff_ffff_ffff,
    ;
    let num = abs_comp * (target_floor as u128);
    let quotient = if num % den != 0 {
        num / den + 1
    } else {
        num / den
    };
    proof {
        lemma_ceil_div_by_mod(num as int, den as int);
        assert(quotient == ceil_div(abs(component as int) * target_floor, denominator as int));
    }
    let signed = quotient as i64;
    if is_neg {
        -signed
    } else {
        signed
    }
}

/// `ceil(|numerator| / denominator) * sign(numerator)` when the divisor is
/// positive and the quotient fits in `i64`, `None` otherwise.
pub open spec fn div_away_spec(numerator: int, denominator: int) -> Option<i64> {
    if denominator <= 0 {
        None
    } else {
        let quotient = ceil_div(abs(numerator), denominator);
        if quotient > i64::MAX {
            None
        } else if numerator < 0 {
            Some((-quotient) as i64)
        } else {
            Some(quotient as i64)
        }
    }
}

/// Division away from zero for integer fixed-point radial scaling.
///
/// Computes `ceil(|numerator| / denominator) * sign(numerator)` with 128-bit
/// magnitude arithmetic. Returns `None` if `denominator <= 0` or if the
/// quotient overflows `i64`.
pub fn div_away_from_zero(numerator: i128, denominator: i64) -> (quotient: Option<i64>)
    ensures
        quotient == div_away_spec(numerator as int, denominator as int),
{
    if denominator <= 0 {
        return None;
    }
    let den = denominator as u128;
    let is_neg = numerator < 0;
    let abs_num: u128 = if numerator < 0 {
        ((-(numerator + 1)) as u128) + 1
    } else {
        numerator as u128
    };
    let q = if abs_num % den != 0 {
        abs_num / den + 1
    } else {
        abs_num / den
    };
    proof {
        lemma_ceil_div_by_mod(abs_num as int, den as int);
        assert(q == ceil_div(abs(numerator as int), denominator as int));
    }
    if q > 0x7fff_ffff_ffff_ffff {
        return None;
    }
    let signed = q as i64;
    Some(
        if is_neg {
            -signed
        } else {
            signed
        },
    )
}


/// Largest weighted-sum coordinate the blend produces from in-range inputs.
pub open spec fn weighted_limit() -> int {
    0x2000_0000
}

/// The reliability floor length `target * ratio / Q16`.
pub open spec fn floor_length_spec(target: int, ratio: int) -> int {
    tdiv(target * ratio, Q16 as int)
}

/// One coordinate of the stabilized vector: the raw coordinate when the floor
/// is not triggered; otherwise the weighted coordinate scaled radially to the
/// floor, or (for a zero weighted sum) the reference coordinate scaled to the
/// floor, or the floor along +X for the massless reference.
pub open spec fn stabilized_coordinate(
    applied: bool,
    weighted_coordinate: int,
    weighted_length: int,
    reference: BlendReference,
    reference_coordinate: int,
    reference_length: int,
    floor_length: int,
    along_x: bool,
) -> int {
    if !applied {
        weighted_coordinate
    } else if weighted_length == 0 {
        if reference == BlendReference::FixedPositiveX {
            if along_x {
                floor_length
            } else {
                0
            }
        } else {
            scale_spec(reference_coordinate, floor_length, reference_length)
        }
    } else {
        scale_spec(weighted_coordinate, floor_length, weighted_length)
    }
}

/// The reliability-floor correction as a function of its inputs.
pub open spec fn stabilization_spec(
    weighted: FixedVectorQ16,
    weighted_length: int,
    target: int,
    correlated: FixedVectorQ16,
    local: FixedVectorQ16,
    reference: BlendReference,
    policy: BlendReliabilityPolicy,
) -> BlendStabilization {
    let rv = resolved_vector(reference, correlated, local);
    let rl = resolved_length(reference, correlated, local);
    let raw = projection_spec(weighted, rv, rl);
    let floor_length = floor_length_spec(target, policy.ratio() as int);
    let applied = policy.below_floor(weighted_length, raw, target);
    let sx = stabilized_coordinate(applied, weighted.x as int, weighted_length, reference, rv.x as int, rl, floor_length, true);
    let sy = stabilized_coordinate(applied, weighted.y as int, weighted_length, reference, rv.y as int, rl, floor_length, false);
    let slen = vlen(sx, sy);
    let sproj = projection_spec(FixedVectorQ16 { x: sx as i64, y: sy as i64 }, rv, rl);
    BlendStabilization {
        applied,
        raw_projection_q16: raw as i64,
        radial_length_increase_q16: (if applied {
            slen - weighted_length
        } else {
            0
        }) as i64,
        minimum_reliable_length_q16: floor_length as i64,
        stabilized_x_q16: sx as i64,
        stabilized_y_q16: sy as i64,
        stabilized_length_q16: (if applied {
            slen
        } else {
            weighted_length
        }) as i64,
        stabilized_projection_q16: (if applied {
            sproj
        } else {
            raw
        }) as i64,
    }
}

/// The reference resolves to a vector of positive floor length whose
/// coordinates that length bounds.
proof fn lemma_resolved_reference_facts(
    reference: BlendReference,
    correlated: FixedVectorQ16,
    local: FixedVectorQ16,
)
    requires
        reference == BlendReference::Correlated ==> correlated.len() >= 1,
        reference == BlendReference::Local ==> local.len() >= 1,
        correlated.in_blend_range(),
        local.in_blend_range(),
    ensures
        resolved_length(reference, correlated, local) >= 1,
        resolved_length(reference, correlated, local) <= 2 * COMPONENT_LIMIT_Q16,
        abs(resolved_vector(reference, correlated, local).x as int) <= resolved_length(reference, correlated, local),
        abs(resolved_vector(reference, correlated, local).y as int) <= resolved_length(reference, correlated, local),
        abs(resolved_vector(reference, correlated, local).x as int) <= COMPONENT_LIMIT_Q16,
        abs(resolved_vector(reference, correlated, local).y as int) <= COMPONENT_LIMIT_Q16,
        correlated.len_fits(),
        local.len_fits(),
{
    lemma_vlen_bounds_coordinates(correlated.x as int, correlated.y as int);
    lemma_vlen_bounds_coordinates(local.x as int, local.y as int);
    lemma_vlen_at_most(correlated.x as int, correlated.y as int, COMPONENT_LIMIT_Q16 as int);
    lemma_vlen_at_most(local.x as int, local.y as int, COMPONENT_LIMIT_Q16 as int);
}

/// Applies the reliability-floor correction under an explicit policy.
#[verifier::rlimit(40)]
pub(crate) fn stabilize_blend_direction(
    weighted: FixedVectorQ16,
    weighted_length_q16: i64,
    target_magnitude_q16: i64,
    correlated: FixedVectorQ16,
    local: FixedVectorQ16,
    reference: BlendReference,
    policy: BlendReliabilityPolicy,
) -> (stabilization: BlendStabilization)
    requires
        abs(weighted.x as int) <= weighted_limit(),
        abs(weighted.y as int) <= weighted_limit(),
        weighted_length_q16 == weighted.len(),
        0 <= target_magnitude_q16 <= 2 * COMPONENT_LIMIT_Q16,
        correlated.in_blend_range(),
        local.in_blend_range(),
        reference == BlendReference::Correlated ==> correlated.len() >= 1,
        reference == BlendReference::Local ==> local.len() >= 1,
        policy.ratio() >= 0 || policy.mode() == BlendActivation::WeightedLength,
        fits_i64(target_magnitude_q16 * policy.ratio()),
        floor_length_spec(target_magnitude_q16 as int, policy.ratio() as int) <= weighted_limit(),
    ensures
        stabilization == stabilization_spec(
            weighted,
            weighted_length_q16 as int,
            target_magnitude_q16 as int,
            correlated,
            local,
            reference,
            policy,
        ),
        abs(stabilization.stabilized_x_q16 as int) <= weighted_limit(),
        abs(stabilization.stabilized_y_q16 as int) <= weighted_limit(),
        0 <= stabilization.stabilized_length_q16 <= 2 * weighted_limit(),
        abs(stabilization.stabilized_projection_q16 as int) <= 2 * weighted_limit(),
        abs(stabilization.raw_projection_q16 as int) <= 2 * weighted_limit(),
        stabilization.applied ==> stabilization.stabilized_length_q16 == vlen(
            stabilization.stabilized_x_q16 as int,
            stabilization.stabilized_y_q16 as int,
        ),
{
    proof {
        lemma_resolved_reference_facts(reference, correlated, local);
        lemma_vlen_bounds_coordinates(weighted.x as int, weighted.y as int);
    }
    let resolved = resolve_reference(reference, correlated, local);
    let ghost rv = resolved.target();
    let ghost rl = resolved.length();
    proof {
        assert(abs(weighted.x * rv.x + weighted.y * rv.y) <= 0x2000_0000 * 0x100_0000 * 2) by (nonlinear_arith)
            requires
                abs(weighted.x as int) <= 0x2000_0000,
                abs(weighted.y as int) <= 0x2000_0000,
                abs(rv.x as int) <= 0x100_0000,
                abs(rv.y as int) <= 0x100_0000,
        ;
        lemma_projection_bound(weighted.x as int, weighted.y as int, rv.x as int, rv.y as int, rl);
    }
    let raw_projection = projection_onto_reference_q16(weighted, resolved);
    let ratio = policy.minimum_direction_ratio_q16();
    let minimum_reliable_length = target_magnitude_q16 * ratio / Q16;
    let below = policy.is_below_floor(weighted_length_q16, raw_projection, target_magnitude_q16);
    proof {
        if below {
            lemma_correction_needs_nonnegative_ratio(
                policy,
                weighted_length_q16 as int,
                raw_projection as int,
                target_magnitude_q16 as int,
            );
            assert(0 <= target_magnitude_q16 * ratio) by (nonlinear_arith)
                requires
                    0 <= target_magnitude_q16,
                    0 <= ratio,
            ;
        }
    }
    let mut stabilized_x = weighted.x;
    let mut stabilized_y = weighted.y;
    if below {
        if weighted_length_q16 == 0 {
            match reference {
                BlendReference::FixedPositiveX => {
                    stabilized_x = minimum_reliable_length;
                    stabilized_y = 0;
                },
                BlendReference::Correlated | BlendReference::Local => {
                    proof {
                        lemma_ceil_scale_at_most(abs(rv.x as int), minimum_reliable_length as int, rl);
                        lemma_ceil_scale_at_most(abs(rv.y as int), minimum_reliable_length as int, rl);
                    }
                    stabilized_x = scale_radial_component_q16(
                        resolved.vector.x,
                        minimum_reliable_length,
                        resolved.length_q16,
                    );
                    stabilized_y = scale_radial_component_q16(
                        resolved.vector.y,
                        minimum_reliable_length,
                        resolved.length_q16,
                    );
                },
            }
        } else {
            proof {
                lemma_ceil_scale_at_most(abs(weighted.x as int), minimum_reliable_length as int, weighted_length_q16 as int);
                lemma_ceil_scale_at_most(abs(weighted.y as int), minimum_reliable_length as int, weighted_length_q16 as int);
            }
            stabilized_x = scale_radial_component_q16(weighted.x, minimum_reliable_length, weighted_length_q16);
            stabilized_y = scale_radial_component_q16(weighted.y, minimum_reliable_length, weighted_length_q16);
        }
    }
    proof {
        lemma_vlen_at_most(stabilized_x as int, stabilized_y as int, 0x2000_0000);
    }
    let stabilized_len = length_q16(stabilized_x, stabilized_y);
    let stab_vec = FixedVectorQ16 { x: stabilized_x, y: stabilized_y };
    proof {
        assert(abs(stab_vec.x * rv.x + stab_vec.y * rv.y) <= 0x2000_0000 * 0x100_0000 * 2) by (nonlinear_arith)
            requires
                abs(stab_vec.x as int) <= 0x2000_0000,
                abs(stab_vec.y as int) <= 0x2000_0000,
                abs(rv.x as int) <= 0x100_0000,
                abs(rv.y as int) <= 0x100_0000,
        ;
        lemma_projection_bound(stab_vec.x as int, stab_vec.y as int, rv.x as int, rv.y as int, rl);
        lemma_vlen_at_most(weighted.x as int, weighted.y as int, 0x2000_0000);
    }
    let stabilized_projection = if below {
        projection_onto_reference_q16(stab_vec, resolved)
    } else {
        raw_projection
    };
    BlendStabilization {
        applied: below,
        raw_projection_q16: raw_projection,
        radial_length_increase_q16: if below {
            stabilized_len - weighted_length_q16
        } else {
            0
        },
        minimum_reliable_length_q16: minimum_reliable_length,
        stabilized_x_q16: stabilized_x,
        stabilized_y_q16: stabilized_y,
        stabilized_length_q16: if below {
            stabilized_len
        } else {
            weighted_length_q16
        },
        stabilized_projection_q16: stabilized_projection,
    }
}

/// The policy keeps the blend of these components overflow-free: its floor
/// ratio is not negative unless the weighted length activates the floor (a
/// negative floor then never corrects), the floor of the longer component is
/// computed in `i64` and stays within [`weighted_limit`], and the margin
/// comparison of the reference choice fits in `i64`.
pub open spec fn policy_fits(
    correlated: FixedVectorQ16,
    local: FixedVectorQ16,
    wc: int,
    wl: int,
    policy: BlendReliabilityPolicy,
) -> bool {
    let cw = correlated.len() * wc;
    let lw = local.len() * wl;
    &&& policy.ratio() >= 0 || policy.mode() == BlendActivation::WeightedLength
    &&& fits_i64(max(correlated.len(), local.len()) * policy.ratio())
    &&& floor_length_spec(max(correlated.len(), local.len()), policy.ratio() as int) <= weighted_limit()
    &&& (cw != 0 && lw != 0) ==> fits_i64(max(lw, cw) * policy.margin())
}

/// A corner the floor corrects has a non-negative floor ratio: a negative
/// ratio is admitted only under the weighted-length activation, where no
/// length lies below a negative floor.
pub proof fn lemma_correction_needs_nonnegative_ratio(
    policy: BlendReliabilityPolicy,
    weighted_length: int,
    projection: int,
    target: int,
)
    requires
        policy.ratio() >= 0 || policy.mode() == BlendActivation::WeightedLength,
        weighted_length >= 0,
        policy.below_floor(weighted_length, projection, target),
    ensures
        policy.ratio() >= 0,
{
    let ratio = policy.ratio() as int;
    if ratio < 0 {
        assert(target * ratio < 0) by (nonlinear_arith)
            requires
                target > 0,
                ratio < 0,
        ;
        assert(weighted_length * Q16 >= 0);
    }
}

/// Whether `policy` fits these in-range components and weights, as
/// [`policy_fits`] states it; the blend functions under a policy require it.
pub fn blend_policy_fits(
    correlated: FixedVectorQ16,
    local: FixedVectorQ16,
    wc: u32,
    wl: u32,
    policy: BlendReliabilityPolicy,
) -> (fits: bool)
    requires
        correlated.in_blend_range(),
        local.in_blend_range(),
    ensures
        fits == policy_fits(correlated, local, wc as int, wl as int, policy),
{
    proof {
        lemma_vlen_at_most(correlated.x as int, correlated.y as int, COMPONENT_LIMIT_Q16 as int);
        lemma_vlen_at_most(local.x as int, local.y as int, COMPONENT_LIMIT_Q16 as int);
    }
    let correlated_length = component_length_q16(correlated);
    let local_length = component_length_q16(local);
    let target = if correlated_length >= local_length {
        correlated_length
    } else {
        local_length
    };
    let ratio = policy.minimum_direction_ratio_q16();
    let by_length = match policy.activation() {
        BlendActivation::WeightedLength => true,
        BlendActivation::ReferenceProjection => false,
    };
    let sign_ok = ratio >= 0 || by_length;
    assert(-0x200_0000 * 0x8000_0000_0000_0000 <= target * ratio <= 0x200_0000 * 0x8000_0000_0000_0000)
        by (nonlinear_arith)
        requires
            0 <= target <= 0x200_0000,
            -0x8000_0000_0000_0000 <= ratio < 0x8000_0000_0000_0000,
    ;
    let product = (target as i128) * (ratio as i128);
    let product_fits = -0x8000_0000_0000_0000i128 <= product && product <= 0x7fff_ffff_ffff_ffffi128;
    let floor_ok = product / 65_536 <= 0x2000_0000;
    assert(0 <= correlated_length * wc <= 0x200_0000 * 0x1_0000_0000 && 0 <= local_length * wl <= 0x200_0000
        * 0x1_0000_0000) by (nonlinear_arith)
        requires
            0 <= correlated_length <= 0x200_0000,
            0 <= local_length <= 0x200_0000,
            0 <= wc < 0x1_0000_0000,
            0 <= wl < 0x1_0000_0000,
    ;
    let cw = (correlated_length as i128) * (wc as i128);
    let lw = (local_length as i128) * (wl as i128);
    let margin_ok = if cw != 0 && lw != 0 {
        let larger = if lw >= cw {
            lw
        } else {
            cw
        };
        let margin = policy.correlated_preference_margin_q16();
        assert(-0x200_0000 * 0x1_0000_0000 * 0x8000_0000_0000_0000 <= larger * margin <= 0x200_0000
            * 0x1_0000_0000 * 0x8000_0000_0000_0000) by (nonlinear_arith)
            requires
                0 <= larger <= 0x200_0000 * 0x1_0000_0000,
                -0x8000_0000_0000_0000 <= margin < 0x8000_0000_0000_0000,
        ;
        let scaled = larger * (margin as i128);
        -0x8000_0000_0000_0000i128 <= scaled && scaled <= 0x7fff_ffff_ffff_ffffi128
    } else {
        true
    };
    sign_ok && product_fits && floor_ok && margin_ok
}

/// The inputs on which the blend arithmetic is overflow-free: both components
/// within [`COMPONENT_LIMIT_Q16`], both weights at most [`WEIGHT_LIMIT_Q16`]
/// and a policy that fits them.
pub open spec fn blend_domain(
    correlated: FixedVectorQ16,
    local: FixedVectorQ16,
    correlated_weight_q16: u32,
    local_weight_q16: u32,
    policy: BlendReliabilityPolicy,
) -> bool {
    &&& correlated.in_blend_range()
    &&& local.in_blend_range()
    &&& correlated_weight_q16 <= WEIGHT_LIMIT_Q16
    &&& local_weight_q16 <= WEIGHT_LIMIT_Q16
    &&& policy_fits(correlated, local, correlated_weight_q16 as int, local_weight_q16 as int, policy)
}

/// A well-formed policy fits every pair of in-range components and weights.
pub proof fn lemma_well_formed_policy_fits(
    correlated: FixedVectorQ16,
    local: FixedVectorQ16,
    wc: u32,
    wl: u32,
    policy: BlendReliabilityPolicy,
)
    requires
        correlated.in_blend_range(),
        local.in_blend_range(),
        wc <= WEIGHT_LIMIT_Q16,
        wl <= WEIGHT_LIMIT_Q16,
        policy.well_formed(),
    ensures
        blend_domain(correlated, local, wc, wl, policy),
{
    lemma_vlen_at_most(correlated.x as int, correlated.y as int, COMPONENT_LIMIT_Q16 as int);
    lemma_vlen_at_most(local.x as int, local.y as int, COMPONENT_LIMIT_Q16 as int);
    let target = max(correlated.len(), local.len());
    let ratio = policy.ratio() as int;
    assert(0 <= target * ratio <= 0x200_0000 * 0x10_0000) by (nonlinear_arith)
        requires
            0 <= target <= 0x200_0000,
            0 <= ratio <= 0x10_0000,
    ;
    lemma_tdiv_bound(target * ratio, Q16 as int, weighted_limit());
    let cw = correlated.len() * wc as int;
    let lw = local.len() * wl as int;
    assert(0 <= cw <= 0x200_0000 * 0x10_0000) by (nonlinear_arith)
        requires
            0 <= correlated.len() <= 0x200_0000,
            0 <= wc <= 0x10_0000,
            cw == correlated.len() * wc,
    ;
    assert(0 <= lw <= 0x200_0000 * 0x10_0000) by (nonlinear_arith)
        requires
            0 <= local.len() <= 0x200_0000,
            0 <= wl <= 0x10_0000,
            lw == local.len() * wl,
    ;
    let m = policy.margin() as int;
    assert(abs(max(lw, cw) * m) <= 0x200_0000 * 0x10_0000 * 0x1_0000) by (nonlinear_arith)
        requires
            0 <= max(lw, cw) <= 0x200_0000 * 0x10_0000,
            abs(m) <= 0x1_0000,
    ;
}

/// One coordinate of the profile-weighted sum `(c * wc + l * wl) / Q16`.
pub open spec fn weighted_coordinate(c: int, l: int, wc: int, wl: int) -> int {
    tdiv(c * wc + l * wl, Q16 as int)
}

/// The profile-weighted sum of the two components.
pub open spec fn weighted_sum(
    correlated: FixedVectorQ16,
    local: FixedVectorQ16,
    wc: int,
    wl: int,
) -> FixedVectorQ16 {
    FixedVectorQ16 {
        x: weighted_coordinate(correlated.x as int, local.x as int, wc, wl) as i64,
        y: weighted_coordinate(correlated.y as int, local.y as int, wc, wl) as i64,
    }
}

/// Every pre-normalization intermediate of the blend, as a function of its
/// inputs.
pub open spec fn diagnostics_spec(
    correlated: FixedVectorQ16,
    local: FixedVectorQ16,
    wc: int,
    wl: int,
    policy: BlendReliabilityPolicy,
) -> WeightedBlendDiagnostics {
    let weighted = weighted_sum(correlated, local, wc, wl);
    let correlated_length = correlated.len();
    let local_length = local.len();
    let target = max(correlated_length, local_length);
    let weighted_length = weighted.len();
    let dot = correlated.x * local.x + correlated.y * local.y;
    let reference = reference_spec(correlated, local, wc, wl, policy.margin() as int);
    let st = stabilization_spec(weighted, weighted_length, target, correlated, local, reference, policy);
    WeightedBlendDiagnostics {
        weighted_x_q16: weighted.x,
        weighted_y_q16: weighted.y,
        weighted_length_q16: weighted_length as i64,
        correlated_length_q16: correlated_length as i64,
        local_length_q16: local_length as i64,
        target_magnitude_q16: target as i64,
        weighted_over_target_q16: ratio_spec(weighted_length, target) as i64,
        component_dot_q32: dot as i64,
        anti_aligned: dot < 0,
        reference,
        components_are_zero: correlated_length == 0 && local_length == 0,
        weighted_sum_zero: weighted.x == 0 && weighted.y == 0,
        stabilization_applied: st.applied,
        raw_projection_q16: st.raw_projection_q16,
        radial_length_increase_q16: st.radial_length_increase_q16,
        minimum_reliable_length_q16: st.minimum_reliable_length_q16,
        stabilized_x_q16: st.stabilized_x_q16,
        stabilized_y_q16: st.stabilized_y_q16,
        stabilized_length_q16: st.stabilized_length_q16,
        stabilized_projection_q16: st.stabilized_projection_q16,
        stabilized_length_ratio_q16: ratio_spec(st.stabilized_length_q16 as int, target) as i64,
        stabilized_projection_ratio_q16: ratio_spec(st.stabilized_projection_q16 as int, target) as i64,
    }
}

/// Facts about in-range inputs that every blend proof uses: the weighted sum
/// stays within [`weighted_limit`], the lengths are bounded, and the reference
/// choice is defined and never picks a massless component.
pub proof fn lemma_blend_domain_facts(
    correlated: FixedVectorQ16,
    local: FixedVectorQ16,
    wc: u32,
    wl: u32,
    policy: BlendReliabilityPolicy,
)
    requires
        blend_domain(correlated, local, wc, wl, policy),
    ensures
        abs(weighted_coordinate(correlated.x as int, local.x as int, wc as int, wl as int)) <= weighted_limit(),
        abs(weighted_coordinate(correlated.y as int, local.y as int, wc as int, wl as int)) <= weighted_limit(),
        abs(correlated.x * wc as int + local.x * wl as int) <= 0x2000_0000_0000,
        abs(correlated.y * wc as int + local.y * wl as int) <= 0x2000_0000_0000,
        0 <= correlated.len() <= 2 * COMPONENT_LIMIT_Q16,
        0 <= local.len() <= 2 * COMPONENT_LIMIT_Q16,
        correlated.len_fits(),
        local.len_fits(),
        reference_defined(correlated, local, wc as int, wl as int, policy.margin() as int),
        reference_spec(correlated, local, wc as int, wl as int, policy.margin() as int)
            == BlendReference::Correlated ==> correlated.len() >= 1,
        reference_spec(correlated, local, wc as int, wl as int, policy.margin() as int)
            == BlendReference::Local ==> local.len() >= 1,
        abs(correlated.x * local.x + correlated.y * local.y) <= 0x2_0000_0000_0000,
{
    let b = COMPONENT_LIMIT_Q16 as int;
    lemma_vlen_at_most(correlated.x as int, correlated.y as int, b);
    lemma_vlen_at_most(local.x as int, local.y as int, b);
    lemma_vlen_bounds_coordinates(correlated.x as int, correlated.y as int);
    lemma_vlen_bounds_coordinates(local.x as int, local.y as int);
    assert(abs(correlated.x * wc as int + local.x * wl as int) <= 0x2000_0000_0000) by (nonlinear_arith)
        requires
            abs(correlated.x as int) <= 0x100_0000,
            abs(local.x as int) <= 0x100_0000,
            0 <= wc <= 0x10_0000,
            0 <= wl <= 0x10_0000,
    ;
    assert(abs(correlated.y * wc as int + local.y * wl as int) <= 0x2000_0000_0000) by (nonlinear_arith)
        requires
            abs(correlated.y as int) <= 0x100_0000,
            abs(local.y as int) <= 0x100_0000,
            0 <= wc <= 0x10_0000,
            0 <= wl <= 0x10_0000,
    ;
    lemma_tdiv_bound(correlated.x * wc as int + local.x * wl as int, Q16 as int, weighted_limit());
    lemma_tdiv_bound(correlated.y * wc as int + local.y * wl as int, Q16 as int, weighted_limit());
    let cw = correlated.len() * wc;
    let lw = local.len() * wl;
    assert(0 <= cw <= 0x200_0000 * 0x10_0000) by (nonlinear_arith)
        requires
            0 <= correlated.len() <= 0x200_0000,
            0 <= wc <= 0x10_0000,
            cw == correlated.len() * wc,
    ;
    assert(0 <= lw <= 0x200_0000 * 0x10_0000) by (nonlinear_arith)
        requires
            0 <= local.len() <= 0x200_0000,
            0 <= wl <= 0x10_0000,
            lw == local.len() * wl,
    ;
    if cw == 0 && correlated.len() != 0 {
        assert(wc == 0) by (nonlinear_arith)
            requires
                cw == correlated.len() * wc,
                cw == 0,
                correlated.len() != 0,
        ;
    }
    if lw == 0 && local.len() != 0 {
        assert(wl == 0) by (nonlinear_arith)
            requires
                lw == local.len() * wl,
                lw == 0,
                local.len() != 0,
        ;
    }
    assert(abs(correlated.x * local.x + correlated.y * local.y) <= 0x2_0000_0000_0000) by (nonlinear_arith)
        requires
            abs(correlated.x as int) <= 0x100_0000,
            abs(local.x as int) <= 0x100_0000,
            abs(correlated.y as int) <= 0x100_0000,
            abs(local.y as int) <= 0x100_0000,
    ;
}

/// Computes the pre-normalization weighted-blend intermediates under the
/// production policy; the single source for both the produced displacement and
/// the near-zero diagnostics.
pub fn weighted_blend_diagnostics(
    correlated: FixedVectorQ16,
    local: FixedVectorQ16,
    cw: u32,
    lw: u32,
) -> (diagnostics: WeightedBlendDiagnostics)
    requires
        correlated.in_blend_range(),
        local.in_blend_range(),
        cw <= WEIGHT_LIMIT_Q16,
        lw <= WEIGHT_LIMIT_Q16,
    ensures
        diagnostics == diagnostics_spec(correlated, local, cw as int, lw as int, production_policy()),
{
    let policy = production_blend_reliability_policy();
    proof {
        lemma_well_formed_policy_fits(correlated, local, cw, lw, policy);
    }
    weighted_blend_diagnostics_with_policy(correlated, local, cw, lw, policy)
}

/// Like [`weighted_blend_diagnostics`], but under an arbitrary policy.
pub fn weighted_blend_diagnostics_with_policy(
    correlated: FixedVectorQ16,
    local: FixedVectorQ16,
    correlated_weight_q16: u32,
    local_weight_q16: u32,
    policy: BlendReliabilityPolicy,
) -> (diagnostics: WeightedBlendDiagnostics)
    requires
        blend_domain(correlated, local, correlated_weight_q16, local_weight_q16, policy),
    ensures
        diagnostics == diagnostics_spec(
            correlated,
            local,
            correlated_weight_q16 as int,
            local_weight_q16 as int,
            policy,
        ),
        abs(diagnostics.weighted_x_q16 as int) <= weighted_limit(),
        abs(diagnostics.weighted_y_q16 as int) <= weighted_limit(),
        abs(diagnostics.stabilized_x_q16 as int) <= weighted_limit(),
        abs(diagnostics.stabilized_y_q16 as int) <= weighted_limit(),
        0 <= diagnostics.stabilized_length_q16 <= 2 * weighted_limit(),
        0 <= diagnostics.target_magnitude_q16 <= 2 * COMPONENT_LIMIT_Q16,
        diagnostics.stabilization_applied ==> diagnostics.stabilized_length_q16 == vlen(
            diagnostics.stabilized_x_q16 as int,
            diagnostics.stabilized_y_q16 as int,
        ),
        diagnostics.weighted_length_q16 == vlen(
            diagnostics.weighted_x_q16 as int,
            diagnostics.weighted_y_q16 as int,
        ),
        diagnostics.local_length_q16 == local.len(),
{
    proof {
        lemma_blend_domain_facts(correlated, local, correlated_weight_q16, local_weight_q16, policy);
    }
    let wc = correlated_weight_q16 as i64;
    let wl = local_weight_q16 as i64;
    assert(abs(correlated.x * wc) <= 0x1000_0000_0000 && abs(local.x * wl) <= 0x1000_0000_0000
        && abs(correlated.y * wc) <= 0x1000_0000_0000 && abs(local.y * wl) <= 0x1000_0000_0000)
        by (nonlinear_arith)
        requires
            abs(correlated.x as int) <= 0x100_0000,
            abs(local.x as int) <= 0x100_0000,
            abs(correlated.y as int) <= 0x100_0000,
            abs(local.y as int) <= 0x100_0000,
            0 <= wc <= 0x10_0000,
            0 <= wl <= 0x10_0000,
    ;
    let weighted_x = (correlated.x * wc + local.x * wl) / Q16;
    let weighted_y = (correlated.y * wc + local.y * wl) / Q16;
    let correlated_length = component_length_q16(correlated);
    let local_length = component_length_q16(local);
    let target = if correlated_length >= local_length {
        correlated_length
    } else {
        local_length
    };
    proof {
        lemma_vlen_at_most(weighted_x as int, weighted_y as int, weighted_limit());
        lemma_vlen_bounds_coordinates(weighted_x as int, weighted_y as int);
    }
    let weighted_length = length_q16(weighted_x, weighted_y);
    let weighted_over_target = ratio_q16(weighted_length, target);
    assert(abs(correlated.x * local.x) <= 0x1_0000_0000_0000 && abs(correlated.y * local.y)
        <= 0x1_0000_0000_0000) by (nonlinear_arith)
        requires
            abs(correlated.x as int) <= 0x100_0000,
            abs(local.x as int) <= 0x100_0000,
            abs(correlated.y as int) <= 0x100_0000,
            abs(local.y as int) <= 0x100_0000,
    ;
    let dot = correlated.x * local.x + correlated.y * local.y;
    let reference = blend_reference_with_margin(
        correlated,
        local,
        correlated_weight_q16,
        local_weight_q16,
        policy.correlated_preference_margin_q16(),
    );
    let weighted = FixedVectorQ16 { x: weighted_x, y: weighted_y };
    let stabilization = stabilize_blend_direction(
        weighted,
        weighted_length,
        target,
        correlated,
        local,
        reference,
        policy,
    );
    let stabilized_length_ratio = ratio_q16(stabilization.stabilized_length_q16, target);
    let stabilized_projection_ratio = ratio_q16(stabilization.stabilized_projection_q16, target);
    WeightedBlendDiagnostics {
        weighted_x_q16: weighted_x,
        weighted_y_q16: weighted_y,
        weighted_length_q16: weighted_length,
        correlated_length_q16: correlated_length,
        local_length_q16: local_length,
        target_magnitude_q16: target,
        weighted_over_target_q16: weighted_over_target,
        component_dot_q32: dot,
        anti_aligned: dot < 0,
        reference,
        components_are_zero: correlated_length == 0 && local_length == 0,
        weighted_sum_zero: weighted_x == 0 && weighted_y == 0,
        stabilization_applied: stabilization.applied,
        raw_projection_q16: stabilization.raw_projection_q16,
        radial_length_increase_q16: stabilization.radial_length_increase_q16,
        minimum_reliable_length_q16: stabilization.minimum_reliable_length_q16,
        stabilized_x_q16: stabilization.stabilized_x_q16,
        stabilized_y_q16: stabilization.stabilized_y_q16,
        stabilized_length_q16: stabilization.stabilized_length_q16,
        stabilized_projection_q16: stabilization.stabilized_projection_q16,
        stabilized_length_ratio_q16: stabilized_length_ratio,
        stabilized_projection_ratio_q16: stabilized_projection_ratio,
    }
}

} // verus!
