//! Properties of the blend that span its parts: what the reliability floor
//! guarantees of a corrected corner, that uncorrected corners keep the raw
//! law exactly, and that opposed components never cancel the displacement.
use vstd::prelude::*;

use crate::blend::{direction_spec, displacement_spec, FixedVectorQ16, COMPONENT_LIMIT_Q16, DIRECTION_SHIFT};
use crate::blend_diagnostics::{
    blend_domain, diagnostics_spec, div_away_spec, floor_length_spec, lemma_blend_domain_facts,
    lemma_correction_needs_nonnegative_ratio, projection_spec, resolved_length, resolved_vector, scale_spec, weighted_limit, weighted_sum, BlendReference,
};
use crate::blend_policy::{
    disabled_policy, lemma_named_policies, production_policy, BlendActivation, BlendReliabilityPolicy,
};
use crate::fixed_point::{abs, ceil_div, max, tdiv, lemma_ceil_div_properties, lemma_ceil_scale_at_most, lemma_isqrt, lemma_isqrt_at_least, lemma_tdiv_bound, lemma_vlen_at_most, lemma_vlen_bounds_coordinates, vlen, Q16};

verus! {

/// Scaling both coordinates of a vector radially by `l / d`, rounding away
/// from zero, where `d` is the vector's floor length, yields a vector whose
/// floor length is at least `l`, with each coordinate keeping its sign.
proof fn lemma_radial_scale_reaches_floor(ax: int, ay: int, l: int, d: int)
    requires
        d >= 1,
        d == vlen(ax, ay),
        0 <= l <= i64::MAX,
    ensures
        vlen(scale_spec(ax, l, d), scale_spec(ay, l, d)) >= l,
        ax > 0 ==> scale_spec(ax, l, d) >= 0,
        ax < 0 ==> scale_spec(ax, l, d) <= 0,
        ax == 0 ==> scale_spec(ax, l, d) == 0,
        ay > 0 ==> scale_spec(ay, l, d) >= 0,
        ay < 0 ==> scale_spec(ay, l, d) <= 0,
        ay == 0 ==> scale_spec(ay, l, d) == 0,
{
    lemma_vlen_bounds_coordinates(ax, ay);
    let nx = abs(ax);
    let ny = abs(ay);
    lemma_ceil_scale_at_most(nx, l, d);
    lemma_ceil_scale_at_most(ny, l, d);
    let qx = ceil_div(nx * l, d);
    let qy = ceil_div(ny * l, d);
    assert(nx * l >= 0 && ny * l >= 0) by (nonlinear_arith)
        requires
            nx >= 0,
            ny >= 0,
            l >= 0,
    ;
    lemma_ceil_div_properties(nx * l, d);
    lemma_ceil_div_properties(ny * l, d);
    if nx == 0 {
        assert(nx * l == 0) by (nonlinear_arith)
            requires
                nx == 0,
        ;
    }
    if ny == 0 {
        assert(ny * l == 0) by (nonlinear_arith)
            requires
                ny == 0,
        ;
    }
    let sx = scale_spec(ax, l, d);
    let sy = scale_spec(ay, l, d);
    assert(abs(sx) == qx);
    assert(abs(sy) == qy);
    // qx * d >= nx * l and qy * d >= ny * l, so (qx^2 + qy^2) d^2 >= (nx^2 + ny^2) l^2 >= d^2 l^2.
    assert(d * d <= ax * ax + ay * ay);
    assert(nx * nx + ny * ny == ax * ax + ay * ay) by (nonlinear_arith)
        requires
            nx == abs(ax),
            ny == abs(ay),
    ;
    assert((qx * qx + qy * qy) * (d * d) >= (d * d) * (l * l)) by (nonlinear_arith)
        requires
            qx * d >= nx * l,
            qy * d >= ny * l,
            nx >= 0,
            ny >= 0,
            l >= 0,
            d >= 1,
            qx >= 0,
            qy >= 0,
            d * d <= nx * nx + ny * ny,
    ;
    assert(qx * qx + qy * qy >= l * l) by (nonlinear_arith)
        requires
            (qx * qx + qy * qy) * (d * d) >= (d * d) * (l * l),
            d >= 1,
    ;
    assert(sx * sx + sy * sy == qx * qx + qy * qy) by (nonlinear_arith)
        requires
            abs(sx) == qx,
            abs(sy) == qy,
    ;
    assert(sx * sx + sy * sy >= 0) by (nonlinear_arith);
    lemma_isqrt_at_least(sx * sx + sy * sy, l);
}

/// The floor length of `(l, 0)` is `l`.
proof fn lemma_axis_length(l: int)
    requires
        l >= 0,
    ensures
        vlen(l, 0) == l,
{
    assert(l * l + 0 * 0 == l * l);
    assert(l * l <= l * l + 0 * 0 < (l + 1) * (l + 1)) by (nonlinear_arith)
        requires
            l >= 0,
    ;
    lemma_isqrt(l * l + 0 * 0);
    assert(crate::fixed_point::is_floor_sqrt(l * l + 0 * 0, l));
}

/// A corner the floor corrects has a non-negative ratio, so a floor length
/// that is not negative.
proof fn lemma_corrected_floor_nonnegative(
    correlated: FixedVectorQ16,
    local: FixedVectorQ16,
    correlated_weight_q16: u32,
    local_weight_q16: u32,
    policy: BlendReliabilityPolicy,
)
    requires
        blend_domain(correlated, local, correlated_weight_q16, local_weight_q16, policy),
    ensures
        diagnostics_spec(
            correlated,
            local,
            correlated_weight_q16 as int,
            local_weight_q16 as int,
            policy,
        ).stabilization_applied ==> policy.ratio() >= 0,
{
    let wc = correlated_weight_q16 as int;
    let wl = local_weight_q16 as int;
    let d = diagnostics_spec(correlated, local, wc, wl, policy);
    let w = weighted_sum(correlated, local, wc, wl);
    let reference = d.reference;
    let rv = resolved_vector(reference, correlated, local);
    let rl = resolved_length(reference, correlated, local);
    let raw = projection_spec(w, rv, rl);
    lemma_vlen_bounds_coordinates(w.x as int, w.y as int);
    if d.stabilization_applied {
        lemma_correction_needs_nonnegative_ratio(policy, w.len(), raw, max(correlated.len(), local.len()));
    }
}

/// A corner whose direction the floor corrected reaches the reliability floor:
/// its stabilized length is at least the minimum reliable length, which is
/// never negative under a non-negative floor ratio.
pub proof fn law_stabilized_length_reaches_floor(
    correlated: FixedVectorQ16,
    local: FixedVectorQ16,
    correlated_weight_q16: u32,
    local_weight_q16: u32,
    policy: BlendReliabilityPolicy,
)
    requires
        blend_domain(correlated, local, correlated_weight_q16, local_weight_q16, policy),
    ensures
        ({
            let d = diagnostics_spec(
                correlated,
                local,
                correlated_weight_q16 as int,
                local_weight_q16 as int,
                policy,
            );
            &&& policy.ratio() >= 0 ==> d.minimum_reliable_length_q16 >= 0
            &&& d.stabilization_applied ==> d.stabilized_length_q16 >= d.minimum_reliable_length_q16
            &&& d.stabilization_applied ==> d.radial_length_increase_q16 == d.stabilized_length_q16
                - d.weighted_length_q16
        }),
{
    lemma_blend_domain_facts(correlated, local, correlated_weight_q16, local_weight_q16, policy);
    let wc = correlated_weight_q16 as int;
    let wl = local_weight_q16 as int;
    let d = diagnostics_spec(correlated, local, wc, wl, policy);
    let w = weighted_sum(correlated, local, wc, wl);
    let wlen = w.len();
    let target = d.target_magnitude_q16 as int;
    let reference = d.reference;
    let rv = resolved_vector(reference, correlated, local);
    let rl = resolved_length(reference, correlated, local);
    let ratio = policy.ratio() as int;
    lemma_vlen_at_most(correlated.x as int, correlated.y as int, COMPONENT_LIMIT_Q16 as int);
    lemma_vlen_at_most(local.x as int, local.y as int, COMPONENT_LIMIT_Q16 as int);
    assert(0 <= target <= 2 * COMPONENT_LIMIT_Q16);
    lemma_corrected_floor_nonnegative(correlated, local, correlated_weight_q16, local_weight_q16, policy);
    if ratio >= 0 {
        assert(0 <= target * ratio) by (nonlinear_arith)
            requires
                0 <= target,
                0 <= ratio,
        ;
    }
    let l = floor_length_spec(target, ratio);
    assert(ratio >= 0 ==> 0 <= l <= weighted_limit());
    lemma_vlen_bounds_coordinates(w.x as int, w.y as int);
    lemma_vlen_at_most(w.x as int, w.y as int, weighted_limit());
    if d.stabilization_applied {
        if wlen == 0 {
            if reference == BlendReference::FixedPositiveX {
                lemma_axis_length(l);
            } else {
                lemma_vlen_bounds_coordinates(correlated.x as int, correlated.y as int);
                lemma_vlen_bounds_coordinates(local.x as int, local.y as int);
                lemma_radial_scale_reaches_floor(rv.x as int, rv.y as int, l, rl);
                lemma_ceil_scale_at_most(abs(rv.x as int), l, rl);
                lemma_ceil_scale_at_most(abs(rv.y as int), l, rl);
                lemma_vlen_at_most(
                    scale_spec(rv.x as int, l, rl),
                    scale_spec(rv.y as int, l, rl),
                    weighted_limit(),
                );
            }
        } else {
            lemma_radial_scale_reaches_floor(w.x as int, w.y as int, l, wlen);
            lemma_ceil_scale_at_most(abs(w.x as int), l, wlen);
            lemma_ceil_scale_at_most(abs(w.y as int), l, wlen);
            lemma_vlen_at_most(
                scale_spec(w.x as int, l, wlen),
                scale_spec(w.y as int, l, wlen),
                weighted_limit(),
            );
        }
    }
}

/// Under the length activation a correction never shrinks a corner: the
/// corrected length is at least the raw weighted length, so the recorded
/// radial length increase is never negative.
pub proof fn law_length_correction_never_shrinks(
    correlated: FixedVectorQ16,
    local: FixedVectorQ16,
    correlated_weight_q16: u32,
    local_weight_q16: u32,
    policy: BlendReliabilityPolicy,
)
    requires
        blend_domain(correlated, local, correlated_weight_q16, local_weight_q16, policy),
        policy.mode() == BlendActivation::WeightedLength,
    ensures
        ({
            let d = diagnostics_spec(
                correlated,
                local,
                correlated_weight_q16 as int,
                local_weight_q16 as int,
                policy,
            );
            d.stabilization_applied ==> {
                &&& d.stabilized_length_q16 >= d.weighted_length_q16
                &&& d.radial_length_increase_q16 >= 0
                &&& d.minimum_reliable_length_q16 >= d.weighted_length_q16
            }
        }),
{
    law_stabilized_length_reaches_floor(correlated, local, correlated_weight_q16, local_weight_q16, policy);
    lemma_blend_domain_facts(correlated, local, correlated_weight_q16, local_weight_q16, policy);
    let wc = correlated_weight_q16 as int;
    let wl = local_weight_q16 as int;
    let d = diagnostics_spec(correlated, local, wc, wl, policy);
    let w = weighted_sum(correlated, local, wc, wl);
    let target = d.target_magnitude_q16 as int;
    let ratio = policy.ratio() as int;
    lemma_vlen_at_most(correlated.x as int, correlated.y as int, COMPONENT_LIMIT_Q16 as int);
    lemma_vlen_at_most(local.x as int, local.y as int, COMPONENT_LIMIT_Q16 as int);
    lemma_vlen_at_most(w.x as int, w.y as int, weighted_limit());
    lemma_corrected_floor_nonnegative(correlated, local, correlated_weight_q16, local_weight_q16, policy);
    if ratio >= 0 {
        assert(0 <= target * ratio) by (nonlinear_arith)
            requires
                0 <= target,
                0 <= ratio,
        ;
    }
    if d.stabilization_applied {
        let t = target * ratio;
        let wlen = w.len();
        assert(wlen * Q16 < t);
        vstd::arithmetic::div_mod::lemma_fundamental_div_mod(t, Q16 as int);
        assert(wlen <= t / (Q16 as int)) by (nonlinear_arith)
            requires
                wlen * 65536 < t,
                t == 65536 * (t / 65536) + t % 65536,
                0 <= t % 65536 < 65536,
        ;
        assert(d.minimum_reliable_length_q16 == t / (Q16 as int));
        assert(d.weighted_length_q16 == wlen);
        assert(d.stabilized_length_q16 >= d.weighted_length_q16);
        assert(d.radial_length_increase_q16 >= 0);
    }
}

/// A corrected corner keeps the direction of its raw weighted sum: each
/// stabilized coordinate has the sign of the raw coordinate (zero stays zero).
pub proof fn law_correction_is_radial(
    correlated: FixedVectorQ16,
    local: FixedVectorQ16,
    correlated_weight_q16: u32,
    local_weight_q16: u32,
    policy: BlendReliabilityPolicy,
)
    requires
        blend_domain(correlated, local, correlated_weight_q16, local_weight_q16, policy),
    ensures
        ({
            let d = diagnostics_spec(
                correlated,
                local,
                correlated_weight_q16 as int,
                local_weight_q16 as int,
                policy,
            );
            (d.stabilization_applied && d.weighted_length_q16 > 0) ==> {
                &&& d.weighted_x_q16 > 0 ==> d.stabilized_x_q16 >= 0
                &&& d.weighted_x_q16 < 0 ==> d.stabilized_x_q16 <= 0
                &&& d.weighted_x_q16 == 0 ==> d.stabilized_x_q16 == 0
                &&& d.weighted_y_q16 > 0 ==> d.stabilized_y_q16 >= 0
                &&& d.weighted_y_q16 < 0 ==> d.stabilized_y_q16 <= 0
                &&& d.weighted_y_q16 == 0 ==> d.stabilized_y_q16 == 0
            }
        }),
{
    lemma_blend_domain_facts(correlated, local, correlated_weight_q16, local_weight_q16, policy);
    let wc = correlated_weight_q16 as int;
    let wl = local_weight_q16 as int;
    let d = diagnostics_spec(correlated, local, wc, wl, policy);
    let w = weighted_sum(correlated, local, wc, wl);
    let target = d.target_magnitude_q16 as int;
    let ratio = policy.ratio() as int;
    lemma_vlen_at_most(correlated.x as int, correlated.y as int, COMPONENT_LIMIT_Q16 as int);
    lemma_vlen_at_most(local.x as int, local.y as int, COMPONENT_LIMIT_Q16 as int);
    lemma_vlen_at_most(w.x as int, w.y as int, weighted_limit());
    lemma_vlen_bounds_coordinates(w.x as int, w.y as int);
    lemma_corrected_floor_nonnegative(correlated, local, correlated_weight_q16, local_weight_q16, policy);
    if ratio >= 0 {
        assert(0 <= target * ratio) by (nonlinear_arith)
            requires
                0 <= target,
                0 <= ratio,
        ;
    }
    let l = floor_length_spec(target, ratio);
    if d.stabilization_applied && w.len() > 0 {
        lemma_radial_scale_reaches_floor(w.x as int, w.y as int, l, w.len());
        lemma_ceil_scale_at_most(abs(w.x as int), l, w.len());
        lemma_ceil_scale_at_most(abs(w.y as int), l, w.len());
    }
}

/// Reliable corners keep the raw law bit for bit: whenever a policy does not
/// correct a corner, the produced displacement equals the one under the
/// disabled law, which never corrects.
pub proof fn law_reliable_corners_keep_raw_law(
    correlated: FixedVectorQ16,
    local: FixedVectorQ16,
    correlated_weight_q16: u32,
    local_weight_q16: u32,
    policy: BlendReliabilityPolicy,
)
    requires
        blend_domain(correlated, local, correlated_weight_q16, local_weight_q16, policy),
    ensures
        !diagnostics_spec(
            correlated,
            local,
            correlated_weight_q16 as int,
            local_weight_q16 as int,
            disabled_policy(),
        ).stabilization_applied,
        !diagnostics_spec(
            correlated,
            local,
            correlated_weight_q16 as int,
            local_weight_q16 as int,
            policy,
        ).stabilization_applied ==> displacement_spec(
            correlated,
            local,
            correlated_weight_q16 as int,
            local_weight_q16 as int,
            policy,
        ) == displacement_spec(
            correlated,
            local,
            correlated_weight_q16 as int,
            local_weight_q16 as int,
            disabled_policy(),
        ),
{
    lemma_named_policies();
    let wc = correlated_weight_q16 as int;
    let wl = local_weight_q16 as int;
    let w = weighted_sum(correlated, local, wc, wl);
    lemma_vlen_bounds_coordinates(w.x as int, w.y as int);
    let d = diagnostics_spec(correlated, local, wc, wl, disabled_policy());
    let target = d.target_magnitude_q16 as int;
    assert(w.len() * Q16 >= target * 0) by (nonlinear_arith)
        requires
            w.len() >= 0,
    ;
}

/// Division away from zero agrees with the radial component scaling: for a
/// positive divisor and a non-negative floor, dividing `component * floor` away
/// from zero gives the scaled component whenever the quotient fits.
pub proof fn law_division_away_matches_radial_scaling(component: int, floor: int, denominator: int)
    requires
        denominator >= 1,
        floor >= 0,
        ceil_div(abs(component) * floor, denominator) <= i64::MAX,
    ensures
        div_away_spec(component * floor, denominator) == Some(
            scale_spec(component, floor, denominator) as i64,
        ),
{
    assert(abs(component * floor) == abs(component) * floor) by (nonlinear_arith)
        requires
            floor >= 0,
    ;
    assert(abs(component) * floor >= 0) by (nonlinear_arith)
        requires
            floor >= 0,
    ;
    lemma_ceil_div_properties(abs(component) * floor, denominator);
    if component * floor < 0 {
        assert(component < 0) by (nonlinear_arith)
            requires
                component * floor < 0,
                floor >= 0,
        ;
    }
    if component < 0 && component * floor >= 0 {
        assert(floor == 0 || component * floor < 0) by (nonlinear_arith)
            requires
                component < 0,
                floor >= 0,
        ;
        assert(abs(component) * floor == 0) by (nonlinear_arith)
            requires
                floor == 0,
        ;
    }
}

/// A nonzero vector of floor length `l` normalized to Q24 keeps a coordinate
/// of at least half of one, and none above one.
proof fn lemma_direction_keeps_half(a: int, b: int)
    requires
        vlen(a, b) >= 1,
        abs(a) <= weighted_limit(),
        abs(b) <= weighted_limit(),
    ensures
        ({
            let l = vlen(a, b);
            let s = DIRECTION_SHIFT as int;
            &&& abs(tdiv(a * s, l)) <= s
            &&& abs(tdiv(b * s, l)) <= s
            &&& 2 * max(abs(tdiv(a * s, l)), abs(tdiv(b * s, l))) >= s
        }),
{
    let l = vlen(a, b);
    let s = DIRECTION_SHIFT as int;
    lemma_vlen_bounds_coordinates(a, b);
    assert(abs(a * s) <= s * l && abs(b * s) <= s * l) by (nonlinear_arith)
        requires
            abs(a) <= l,
            abs(b) <= l,
            s == DIRECTION_SHIFT,
            l >= 1,
    ;
    lemma_tdiv_bound(a * s, l, s);
    lemma_tdiv_bound(b * s, l, s);
    let (big, other) = if abs(a) >= abs(b) {
        (a, b)
    } else {
        (b, a)
    };
    assert(l * l <= big * big + other * other);
    assert(2 * abs(big) >= l) by (nonlinear_arith)
        requires
            l * l <= big * big + other * other,
            abs(big) >= abs(other),
            l >= 1,
    ;
    let n = abs(big) * s;
    assert(n >= l * (s / 2)) by (nonlinear_arith)
        requires
            2 * abs(big) >= l,
            n == abs(big) * s,
            s == DIRECTION_SHIFT,
    ;
    assert(abs(tdiv(big * s, l)) == n / l) by (nonlinear_arith)
        requires
            n == abs(big) * s,
            s > 0,
            l >= 1,
    {
        if big < 0 {
            assert(-(big * s) == n);
        } else {
            assert(big * s == n);
        }
    }
    assert(n / l >= s / 2) by (nonlinear_arith)
        requires
            n >= l * (s / 2),
            l >= 1,
            s / 2 >= 0,
    ;
}

/// Scaling a Q24 direction that keeps a coordinate of at least half of one
/// to magnitude `m` leaves that coordinate at least `m / 2`.
proof fn lemma_scaled_keeps_half(dir: int, m: int)
    requires
        abs(dir) <= DIRECTION_SHIFT,
        0 <= m <= 2 * COMPONENT_LIMIT_Q16,
    ensures
        abs(tdiv(dir * m, DIRECTION_SHIFT as int)) <= m,
        2 * abs(dir) >= DIRECTION_SHIFT ==> 2 * abs(tdiv(dir * m, DIRECTION_SHIFT as int)) + 1 >= m,
{
    let s = DIRECTION_SHIFT as int;
    assert(abs(dir * m) <= m * s && abs(dir * m) == abs(dir) * m) by (nonlinear_arith)
        requires
            abs(dir) <= s,
            m >= 0,
            s > 0,
    ;
    lemma_tdiv_bound(dir * m, s, m);
    let x = abs(dir) * m;
    assert(abs(tdiv(dir * m, s)) == x / s) by {
        if dir * m < 0 {
            assert(-(dir * m) == x);
        }
    }
    if 2 * abs(dir) >= s {
        assert(x >= 8388608 * m) by (nonlinear_arith)
            requires
                2 * abs(dir) >= 16777216,
                x == abs(dir) * m,
                m >= 0,
        ;
        let q = x / s;
        assert(q * 16777216 <= x < q * 16777216 + 16777216) by (nonlinear_arith)
            requires
                q == x / s,
                s == 16777216,
        ;
        assert(2 * q + 1 >= m);
    }
}

/// Opposed components never cancel: whatever the components' directions, the
/// larger coordinate of the blended displacement is at least half the length
/// of the stronger component (rounded down), so the displacement is zero only
/// when both components are shorter than two.
pub proof fn law_blend_does_not_cancel(
    correlated: FixedVectorQ16,
    local: FixedVectorQ16,
    correlated_weight_q16: u32,
    local_weight_q16: u32,
    policy: BlendReliabilityPolicy,
)
    requires
        blend_domain(correlated, local, correlated_weight_q16, local_weight_q16, policy),
    ensures
        ({
            let displacement = displacement_spec(
                correlated,
                local,
                correlated_weight_q16 as int,
                local_weight_q16 as int,
                policy,
            );
            2 * max(abs(displacement.x as int), abs(displacement.y as int)) + 1 >= max(
                correlated.len(),
                local.len(),
            )
        }),
{
    lemma_blend_domain_facts(correlated, local, correlated_weight_q16, local_weight_q16, policy);
    law_stabilized_length_reaches_floor(correlated, local, correlated_weight_q16, local_weight_q16, policy);
    let wc = correlated_weight_q16 as int;
    let wl = local_weight_q16 as int;
    let d = diagnostics_spec(correlated, local, wc, wl, policy);
    let w = weighted_sum(correlated, local, wc, wl);
    let s = DIRECTION_SHIFT as int;
    let target = max(correlated.len(), local.len());
    assert(d.target_magnitude_q16 as int == target);
    lemma_stabilized_bounds(correlated, local, correlated_weight_q16, local_weight_q16, policy);
    let dir = direction_spec(d, local);
    if d.stabilization_applied {
        if d.stabilized_length_q16 != 0 {
            lemma_vlen_bounds_coordinates(d.stabilized_x_q16 as int, d.stabilized_y_q16 as int);
            lemma_direction_keeps_half(d.stabilized_x_q16 as int, d.stabilized_y_q16 as int);
            assert(dir == (
                tdiv(d.stabilized_x_q16 * s, d.stabilized_length_q16 as int),
                tdiv(d.stabilized_y_q16 * s, d.stabilized_length_q16 as int),
            ));
        } else {
            assert(dir == (s, 0int));
        }
    } else if d.weighted_x_q16 == 0 && d.weighted_y_q16 == 0 {
        lemma_vlen_bounds_coordinates(local.x as int, local.y as int);
        if d.local_length_q16 != 0 {
            assert(d.local_length_q16 as int == local.len());
            lemma_direction_keeps_half(local.x as int, local.y as int);
            assert(dir == (tdiv(local.x * s, local.len()), tdiv(local.y * s, local.len())));
        } else {
            assert(dir == (s, 0int));
        }
    } else {
        lemma_vlen_bounds_coordinates(w.x as int, w.y as int);
        lemma_vlen_at_most(w.x as int, w.y as int, weighted_limit());
        assert(d.weighted_length_q16 as int == w.len());
        assert(d.weighted_x_q16 == w.x && d.weighted_y_q16 == w.y);
        lemma_direction_keeps_half(w.x as int, w.y as int);
        assert(dir == (tdiv(w.x * s, w.len()), tdiv(w.y * s, w.len())));
    }
    assert(abs(dir.0) <= s && abs(dir.1) <= s && 2 * max(abs(dir.0), abs(dir.1)) >= s);
    lemma_scaled_keeps_half(dir.0, target);
    lemma_scaled_keeps_half(dir.1, target);
}

/// The stabilized vector of a corrected corner stays within the weighted
/// limit, and its recorded length is its floor length.
proof fn lemma_stabilized_bounds(
    correlated: FixedVectorQ16,
    local: FixedVectorQ16,
    correlated_weight_q16: u32,
    local_weight_q16: u32,
    policy: BlendReliabilityPolicy,
)
    requires
        blend_domain(correlated, local, correlated_weight_q16, local_weight_q16, policy),
    ensures
        ({
            let d = diagnostics_spec(
                correlated,
                local,
                correlated_weight_q16 as int,
                local_weight_q16 as int,
                policy,
            );
            d.stabilization_applied ==> {
                &&& abs(d.stabilized_x_q16 as int) <= weighted_limit()
                &&& abs(d.stabilized_y_q16 as int) <= weighted_limit()
                &&& d.stabilized_length_q16 as int == vlen(d.stabilized_x_q16 as int, d.stabilized_y_q16 as int)
            }
        }),
{
    lemma_blend_domain_facts(correlated, local, correlated_weight_q16, local_weight_q16, policy);
    let wc = correlated_weight_q16 as int;
    let wl = local_weight_q16 as int;
    let d = diagnostics_spec(correlated, local, wc, wl, policy);
    let w = weighted_sum(correlated, local, wc, wl);
    let wlen = w.len();
    let target = d.target_magnitude_q16 as int;
    let reference = d.reference;
    let rv = resolved_vector(reference, correlated, local);
    let rl = resolved_length(reference, correlated, local);
    let ratio = policy.ratio() as int;
    lemma_vlen_at_most(correlated.x as int, correlated.y as int, COMPONENT_LIMIT_Q16 as int);
    lemma_vlen_at_most(local.x as int, local.y as int, COMPONENT_LIMIT_Q16 as int);
    lemma_corrected_floor_nonnegative(correlated, local, correlated_weight_q16, local_weight_q16, policy);
    if ratio >= 0 {
        assert(0 <= target * ratio) by (nonlinear_arith)
            requires
                0 <= target,
                0 <= ratio,
        ;
    }
    let l = floor_length_spec(target, ratio);
    lemma_vlen_bounds_coordinates(w.x as int, w.y as int);
    if d.stabilization_applied {
        if wlen == 0 {
            if reference != BlendReference::FixedPositiveX {
                lemma_vlen_bounds_coordinates(correlated.x as int, correlated.y as int);
                lemma_vlen_bounds_coordinates(local.x as int, local.y as int);
                lemma_ceil_scale_at_most(abs(rv.x as int), l, rl);
                lemma_ceil_scale_at_most(abs(rv.y as int), l, rl);
                lemma_vlen_at_most(scale_spec(rv.x as int, l, rl), scale_spec(rv.y as int, l, rl), weighted_limit());
            } else {
                lemma_vlen_at_most(l, 0, weighted_limit());
            }
        } else {
            lemma_ceil_scale_at_most(abs(w.x as int), l, wlen);
            lemma_ceil_scale_at_most(abs(w.y as int), l, wlen);
            lemma_vlen_at_most(scale_spec(w.x as int, l, wlen), scale_spec(w.y as int, l, wlen), weighted_limit());
        }
    }
}

/// Radial scaling never leaves a deficit: scaling each coordinate of a
/// nonzero vector by `l` over the vector's floor length, rounding away from
/// zero (as `scale_radial_component_q16` does), gives a vector whose floor
/// length (as `integer_sqrt` gives it) is at least `l`, each coordinate
/// keeping its sign. This holds for every `i64` vector and floor, not only
/// inside the blend's range.
pub proof fn law_radial_scaling_reaches_floor(wx: i64, wy: i64, l: i64)
    requires
        wx != 0 || wy != 0,
        l >= 0,
    ensures
        ({
            let w = vlen(wx as int, wy as int);
            let sx = scale_spec(wx as int, l as int, w);
            let sy = scale_spec(wy as int, l as int, w);
            &&& w >= 1
            &&& vlen(sx, sy) >= l
            &&& (wx > 0 ==> sx >= 0) && (wx < 0 ==> sx <= 0) && (wx == 0 ==> sx == 0)
            &&& (wy > 0 ==> sy >= 0) && (wy < 0 ==> sy <= 0) && (wy == 0 ==> sy == 0)
        }),
{
    lemma_vlen_bounds_coordinates(wx as int, wy as int);
    lemma_radial_scale_reaches_floor(wx as int, wy as int, l as int, vlen(wx as int, wy as int));
}

/// A blended displacement keeps its target length up to rounding: for
/// components whose coordinates are at most 16 in Q16, the displacement is
/// never more than two shorter than the longer component (each of the two
/// truncations of the direction loses less than one per coordinate). Under
/// the production policy a corner the floor corrected never comes out as the
/// zero vector.
pub proof fn law_displacement_keeps_target_length(
    correlated: FixedVectorQ16,
    local: FixedVectorQ16,
    correlated_weight_q16: u32,
    local_weight_q16: u32,
    policy: BlendReliabilityPolicy,
)
    requires
        blend_domain(correlated, local, correlated_weight_q16, local_weight_q16, policy),
        abs(correlated.x as int) <= 0x10_0000,
        abs(correlated.y as int) <= 0x10_0000,
        abs(local.x as int) <= 0x10_0000,
        abs(local.y as int) <= 0x10_0000,
    ensures
        ({
            let displacement = displacement_spec(
                correlated,
                local,
                correlated_weight_q16 as int,
                local_weight_q16 as int,
                policy,
            );
            let d = diagnostics_spec(
                correlated,
                local,
                correlated_weight_q16 as int,
                local_weight_q16 as int,
                policy,
            );
            &&& displacement.len() >= max(correlated.len(), local.len()) - 2
            &&& policy == production_policy() && d.stabilization_applied ==> displacement.len() > 0
        }),
{
    lemma_blend_domain_facts(correlated, local, correlated_weight_q16, local_weight_q16, policy);
    law_stabilized_length_reaches_floor(correlated, local, correlated_weight_q16, local_weight_q16, policy);
    lemma_stabilized_bounds(correlated, local, correlated_weight_q16, local_weight_q16, policy);
    let wc = correlated_weight_q16 as int;
    let wl = local_weight_q16 as int;
    let d = diagnostics_spec(correlated, local, wc, wl, policy);
    let w = weighted_sum(correlated, local, wc, wl);
    let s = DIRECTION_SHIFT as int;
    let t = max(correlated.len(), local.len());
    lemma_vlen_at_most(correlated.x as int, correlated.y as int, 0x10_0000);
    lemma_vlen_at_most(local.x as int, local.y as int, 0x10_0000);
    assert(0 <= t <= 0x20_0000);
    assert(d.target_magnitude_q16 as int == t);
    let displacement = displacement_spec(correlated, local, wc, wl, policy);
    let dir = direction_spec(d, local);
    // The vector whose direction the displacement takes, when it is not +X.
    let (a, b, along_x): (int, int, bool) = if d.stabilization_applied {
        if d.stabilized_length_q16 != 0 {
            (d.stabilized_x_q16 as int, d.stabilized_y_q16 as int, false)
        } else {
            (0, 0, true)
        }
    } else if d.weighted_x_q16 == 0 && d.weighted_y_q16 == 0 {
        if d.local_length_q16 != 0 {
            (local.x as int, local.y as int, false)
        } else {
            (0, 0, true)
        }
    } else {
        (w.x as int, w.y as int, false)
    };
    if along_x {
        assert(dir == (s, 0int));
        assert(tdiv(s * t, s) == t) by (nonlinear_arith)
            requires
                s == 16777216,
                t >= 0,
        ;
        assert(tdiv(0int * t, s) == 0);
        assert(displacement.x as int == t && displacement.y as int == 0);
        lemma_axis_length(t);
    } else {
        if d.stabilization_applied {
            lemma_vlen_bounds_coordinates(a, b);
        } else if d.weighted_x_q16 == 0 && d.weighted_y_q16 == 0 {
            lemma_vlen_bounds_coordinates(local.x as int, local.y as int);
            assert(d.local_length_q16 as int == local.len());
        } else {
            lemma_vlen_bounds_coordinates(w.x as int, w.y as int);
            lemma_vlen_at_most(w.x as int, w.y as int, weighted_limit());
            assert(d.weighted_length_q16 as int == w.len());
            assert(d.weighted_x_q16 == w.x && d.weighted_y_q16 == w.y);
        }
        assert(vlen(a, b) >= 1);
        assert(abs(a) <= weighted_limit() && abs(b) <= weighted_limit());
        let l = vlen(a, b);
        assert(dir == (tdiv(a * s, l), tdiv(b * s, l)));
        lemma_direction_keeps_half(a, b);
        lemma_scaled_keeps_half(dir.0, t);
        lemma_scaled_keeps_half(dir.1, t);
        let rx = tdiv(dir.0 * t, s);
        let ry = tdiv(dir.1 * t, s);
        assert(displacement.x as int == rx && displacement.y as int == ry);
        lemma_vlen_bounds_coordinates(rx, ry);
        if t >= 2 {
            lemma_scaled_direction_length(a, b, t);
            assert(rx * rx + ry * ry >= 0) by (nonlinear_arith);
            lemma_isqrt_at_least(rx * rx + ry * ry, t - 2);
        }
    }
    if policy == production_policy() && d.stabilization_applied && t <= 2 {
        lemma_named_policies();
        assert(policy.ratio() == 1024 && policy.mode() == BlendActivation::WeightedLength);
        assert(t > 0);
        lemma_vlen_at_most(w.x as int, w.y as int, weighted_limit());
        assert(d.weighted_length_q16 as int == w.len());
        lemma_vlen_bounds_coordinates(w.x as int, w.y as int);
        let wlen = w.len();
        assert(d.stabilization_applied == policy.below_floor(wlen, d.raw_projection_q16 as int, t));
        assert(wlen * 65536 < t * 1024);
        assert(wlen == 0) by (nonlinear_arith)
            requires
                wlen >= 0,
                wlen * 65536 < t * 1024,
                t <= 2,
        ;
        let fl = floor_length_spec(t, 1024);
        assert((t * 1024) / 65536 == 0) by (nonlinear_arith)
            requires
                0 <= t <= 2,
        ;
        assert(fl == 0);
        let reference = d.reference;
        if reference != BlendReference::FixedPositiveX {
            let rv = resolved_vector(reference, correlated, local);
            let rl = resolved_length(reference, correlated, local);
            assert(rl >= 1);
            assert(abs(rv.x as int) * 0 == 0 && abs(rv.y as int) * 0 == 0);
            lemma_ceil_div_properties(0, rl);
            assert(scale_spec(rv.x as int, 0, rl) == 0);
            assert(scale_spec(rv.y as int, 0, rl) == 0);
        }
        assert(d.stabilized_x_q16 == 0 && d.stabilized_y_q16 == 0);
        lemma_vlen_bounds_coordinates(0, 0);
        assert(d.stabilized_length_q16 == 0);
    }
}

/// A nonzero vector normalized to Q24 and scaled to a magnitude `m` of at
/// most 2^21 comes out no shorter than `m - 2`: each of the two truncations
/// loses less than one per coordinate.
proof fn lemma_scaled_direction_length(a: int, b: int, m: int)
    requires
        vlen(a, b) >= 1,
        abs(a) <= weighted_limit(),
        abs(b) <= weighted_limit(),
        2 <= m <= 0x20_0000,
    ensures
        ({
            let l = vlen(a, b);
            let rx = tdiv(tdiv(a * 16777216, l) * m, 16777216);
            let ry = tdiv(tdiv(b * 16777216, l) * m, 16777216);
            rx * rx + ry * ry >= (m - 2) * (m - 2)
        }),
{
    let s: int = 16777216;
    let l = vlen(a, b);
    lemma_vlen_bounds_coordinates(a, b);
    let aa = abs(a);
    let bb = abs(b);
    let da = tdiv(a * s, l);
    let db = tdiv(b * s, l);
    let rx = tdiv(da * m, s);
    let ry = tdiv(db * m, s);
    // Magnitudes of the truncated quotients.
    let na = aa * s;
    let nb = bb * s;
    assert(na >= 0 && nb >= 0) by (nonlinear_arith)
        requires
            aa >= 0,
            bb >= 0,
            na == aa * s,
            nb == bb * s,
            s > 0,
    ;
    assert(abs(a * s) == na && abs(b * s) == nb) by (nonlinear_arith)
        requires
            aa == abs(a),
            bb == abs(b),
            na == aa * s,
            nb == bb * s,
            s > 0,
    ;
    let pa = na / l;
    let pb = nb / l;
    assert(abs(da) == pa);
    assert(abs(db) == pb);
    assert(pa * l <= na < pa * l + l && pb * l <= nb < pb * l + l) by (nonlinear_arith)
        requires
            pa == na / l,
            pb == nb / l,
            l >= 1,
            na >= 0,
            nb >= 0,
    ;
    assert(pa >= 0 && pb >= 0) by (nonlinear_arith)
        requires
            pa == na / l,
            pb == nb / l,
            l >= 1,
            na >= 0,
            nb >= 0,
    ;
    let ma = pa * m;
    let mb = pb * m;
    assert(ma >= 0 && mb >= 0) by (nonlinear_arith)
        requires
            ma == pa * m,
            mb == pb * m,
            pa >= 0,
            pb >= 0,
            m >= 0,
    ;
    assert(abs(da * m) == ma && abs(db * m) == mb) by (nonlinear_arith)
        requires
            abs(da) == pa,
            abs(db) == pb,
            ma == pa * m,
            mb == pb * m,
            m >= 0,
    ;
    let p = ma / s;
    let q = mb / s;
    assert(abs(rx) == p);
    assert(abs(ry) == q);
    assert(p * s <= ma < p * s + s && q * s <= mb < q * s + s && p >= 0 && q >= 0) by (nonlinear_arith)
        requires
            p == ma / s,
            q == mb / s,
            s == 16777216,
            ma >= 0,
            mb >= 0,
    ;
    let e = s + m;
    // aa * s * m < l * (p * s + e), and likewise for b.
    assert(na * m < l * (p * s + e)) by (nonlinear_arith)
        requires
            na < pa * l + l,
            pa * m < p * s + s,
            ma == pa * m,
            m >= 2,
            l >= 1,
            e == s + m,
            na >= 0,
            pa >= 0,
    ;
    assert(nb * m < l * (q * s + e)) by (nonlinear_arith)
        requires
            nb < pb * l + l,
            pb * m < q * s + s,
            mb == pb * m,
            m >= 2,
            l >= 1,
            e == s + m,
            nb >= 0,
            pb >= 0,
    ;
    let u = p * s + e;
    let v = q * s + e;
    assert((na * m) * (na * m) + (nb * m) * (nb * m) <= (l * u) * (l * u) + (l * v) * (l * v)) by (nonlinear_arith)
        requires
            0 <= na * m < l * u,
            0 <= nb * m < l * v,
    ;
    assert(aa * aa + bb * bb == a * a + b * b) by (nonlinear_arith)
        requires
            aa == abs(a),
            bb == abs(b),
    ;
    let k = s * m;
    assert(na * m == aa * k && nb * m == bb * k) by (nonlinear_arith)
        requires
            na == aa * s,
            nb == bb * s,
            k == s * m,
    ;
    assert((aa * k) * (aa * k) == (aa * aa) * (k * k)) by (nonlinear_arith);
    assert((bb * k) * (bb * k) == (bb * bb) * (k * k)) by (nonlinear_arith);
    assert((aa * aa) * (k * k) + (bb * bb) * (k * k) == (aa * aa + bb * bb) * (k * k)) by (nonlinear_arith);
    assert(k * k == s * s * m * m) by (nonlinear_arith)
        requires
            k == s * m,
    ;
    assert((l * u) * (l * u) + (l * v) * (l * v) == (l * l) * (u * u + v * v)) by (nonlinear_arith);
    assert(l * l * (s * s * m * m) <= (aa * aa + bb * bb) * (s * s * m * m)) by (nonlinear_arith)
        requires
            l * l <= aa * aa + bb * bb,
            s * s * m * m >= 0,
    ;
    assert(s * s * m * m >= 0) by (nonlinear_arith);
    assert(s * s * m * m <= u * u + v * v) by (nonlinear_arith)
        requires
            (l * l) * (s * s * m * m) <= (l * l) * (u * u + v * v),
            l >= 1,
    ;
    if p * p + q * q < (m - 2) * (m - 2) {
        let t = p + q;
        assert(4 * t * t < 9 * (m - 2) * (m - 2)) by (nonlinear_arith)
            requires
                t == p + q,
                p >= 0,
                q >= 0,
                p * p + q * q < (m - 2) * (m - 2),
        ;
        assert(2 * t < 3 * (m - 2)) by (nonlinear_arith)
            requires
                4 * t * t < 9 * (m - 2) * (m - 2),
                t >= 0,
                m >= 2,
        ;
        assert(u * u == (p * p) * (s * s) + 2 * (p * (s * e)) + e * e) by (nonlinear_arith)
            requires
                u == p * s + e,
        ;
        assert(v * v == (q * q) * (s * s) + 2 * (q * (s * e)) + e * e) by (nonlinear_arith)
            requires
                v == q * s + e,
        ;
        assert((p * p) * (s * s) + (q * q) * (s * s) == s * s * (p * p + q * q)) by (nonlinear_arith);
        assert(p * (s * e) + q * (s * e) == s * e * t) by (nonlinear_arith)
            requires
                t == p + q,
        ;
        assert(u * u + v * v == s * s * (p * p + q * q) + 2 * s * e * t + 2 * e * e) by (nonlinear_arith)
            requires
                u * u == (p * p) * (s * s) + 2 * (p * (s * e)) + e * e,
                v * v == (q * q) * (s * s) + 2 * (q * (s * e)) + e * e,
                (p * p) * (s * s) + (q * q) * (s * s) == s * s * (p * p + q * q),
                p * (s * e) + q * (s * e) == s * e * t,
        ;
        assert(s * s * (p * p + q * q) + 2 * s * e * t + 2 * e * e < s * s * m * m) by (nonlinear_arith)
            requires
                p * p + q * q <= (m - 2) * (m - 2) - 1,
                2 * t <= 3 * (m - 2) - 1,
                t >= 0,
                s == 16777216,
                e == s + m,
                2 <= m <= 0x20_0000,
        ;
    }
    assert(rx * rx + ry * ry == p * p + q * q) by (nonlinear_arith)
        requires
            abs(rx) == p,
            abs(ry) == q,
    ;
}

} // verus!
