//! Mathematical vocabulary for the fixed-point blend: truncating and ceiling
//! division, absolute value and sign, and the floor square root, together
//! with the lemmas that the blend proofs share.
use vstd::prelude::*;

verus! {

/// Q16 fixed-point one.
pub const Q16: i64 = 65_536;

/// Rust's integer division (rounds toward zero) for a positive divisor.
pub open spec fn tdiv(a: int, b: int) -> int {
    if a < 0 {
        -((-a) / b)
    } else {
        a / b
    }
}

/// Division of a non-negative numerator that rounds up.
pub open spec fn ceil_div(a: int, b: int) -> int {
    (a + b - 1) / b
}

pub open spec fn abs(a: int) -> int {
    if a < 0 {
        -a
    } else {
        a
    }
}

pub open spec fn max(a: int, b: int) -> int {
    if a >= b {
        a
    } else {
        b
    }
}

pub open spec fn fits_i64(a: int) -> bool {
    i64::MIN <= a <= i64::MAX
}

/// `r` is the floor square root of `v`.
pub open spec fn is_floor_sqrt(v: int, r: int) -> bool {
    0 <= r && r * r <= v && v < (r + 1) * (r + 1)
}

/// The floor square root of a non-negative integer (zero below zero).
pub open spec fn isqrt(v: int) -> int {
    if v <= 0 {
        0
    } else {
        choose|r: int| #[trigger] is_floor_sqrt(v, r)
    }
}

/// The floor length `isqrt(x^2 + y^2)` of an integer vector.
pub open spec fn vlen(x: int, y: int) -> int {
    isqrt(x * x + y * y)
}

proof fn lemma_floor_sqrt_exists(v: int)
    requires
        v >= 0,
    ensures
        exists|r: int| #[trigger] is_floor_sqrt(v, r),
    decreases v,
{
    if v == 0 {
        assert(is_floor_sqrt(0, 0));
    } else {
        lemma_floor_sqrt_exists(v - 1);
        let r = choose|r: int| #[trigger] is_floor_sqrt(v - 1, r);
        if (r + 1) * (r + 1) <= v {
            assert((r + 1) * (r + 1) == v);
            assert((r + 2) * (r + 2) > v) by (nonlinear_arith)
                requires
                    (r + 1) * (r + 1) == v,
                    r >= 0,
            ;
            assert(is_floor_sqrt(v, r + 1));
        } else {
            assert(is_floor_sqrt(v, r));
        }
    }
}

proof fn lemma_floor_sqrt_unique(v: int, a: int, b: int)
    requires
        is_floor_sqrt(v, a),
        is_floor_sqrt(v, b),
    ensures
        a == b,
{
    if a < b {
        assert((a + 1) * (a + 1) <= b * b) by (nonlinear_arith)
            requires
                0 <= a < b,
        ;
    }
    if b < a {
        assert((b + 1) * (b + 1) <= a * a) by (nonlinear_arith)
            requires
                0 <= b < a,
        ;
    }
}

/// `isqrt` is the floor square root, and the only one.
pub proof fn lemma_isqrt(v: int)
    requires
        v >= 0,
    ensures
        is_floor_sqrt(v, isqrt(v)),
        forall|r: int| #[trigger] is_floor_sqrt(v, r) ==> r == isqrt(v),
{
    lemma_floor_sqrt_exists(v);
    if v == 0 {
        assert(is_floor_sqrt(0, 0));
        assert forall|r: int| #[trigger] is_floor_sqrt(v, r) implies r == isqrt(v) by {
            lemma_floor_sqrt_unique(v, r, 0);
        }
    } else {
        assert forall|r: int| #[trigger] is_floor_sqrt(v, r) implies r == isqrt(v) by {
            lemma_floor_sqrt_unique(v, r, isqrt(v));
        }
    }
}

/// Any `r` with `r^2 <= v` is at most the floor square root.
pub proof fn lemma_isqrt_at_least(v: int, r: int)
    requires
        v >= 0,
        r >= 0,
        r * r <= v,
    ensures
        r <= isqrt(v),
{
    lemma_isqrt(v);
    let s = isqrt(v);
    if r > s {
        assert((s + 1) * (s + 1) <= r * r) by (nonlinear_arith)
            requires
                0 <= s < r,
        ;
    }
}

/// The floor square root is at most any `b >= 0` with `v <= b^2`.
pub proof fn lemma_isqrt_at_most(v: int, b: int)
    requires
        v >= 0,
        b >= 0,
        v <= b * b,
    ensures
        isqrt(v) <= b,
{
    lemma_isqrt(v);
    let s = isqrt(v);
    if s > b {
        assert(b * b < s * s) by (nonlinear_arith)
            requires
                0 <= b < s,
        ;
    }
}

/// The floor length bounds each coordinate: `|x| <= vlen(x, y)`.
pub proof fn lemma_vlen_bounds_coordinates(x: int, y: int)
    ensures
        abs(x) <= vlen(x, y),
        abs(y) <= vlen(x, y),
        vlen(x, y) >= 0,
        vlen(x, y) * vlen(x, y) <= x * x + y * y,
        (x == 0 && y == 0) <==> vlen(x, y) == 0,
{
    assert(x * x >= 0 && y * y >= 0) by (nonlinear_arith);
    assert(abs(x) * abs(x) == x * x) by (nonlinear_arith);
    assert(abs(y) * abs(y) == y * y) by (nonlinear_arith);
    lemma_isqrt(x * x + y * y);
    lemma_isqrt_at_least(x * x + y * y, abs(x));
    lemma_isqrt_at_least(x * x + y * y, abs(y));
    if !(x == 0 && y == 0) {
        if x != 0 {
            assert(x * x >= 1) by (nonlinear_arith)
                requires
                    x != 0,
            ;
        } else {
            assert(y * y >= 1) by (nonlinear_arith)
                requires
                    y != 0,
            ;
        }
        lemma_isqrt_at_least(x * x + y * y, 1);
    } else {
        assert(x * x + y * y == 0);
    }
}

/// Coordinates bounded by `b` give a floor length of at most `2 b`.
pub proof fn lemma_vlen_at_most(x: int, y: int, b: int)
    requires
        b >= 0,
        abs(x) <= b,
        abs(y) <= b,
    ensures
        0 <= vlen(x, y) <= 2 * b,
        x * x + y * y <= 2 * b * b,
{
    assert(x * x <= b * b) by (nonlinear_arith)
        requires
            abs(x) <= b,
            b >= 0,
    ;
    assert(y * y <= b * b) by (nonlinear_arith)
        requires
            abs(y) <= b,
            b >= 0,
    ;
    assert(b * b + b * b == 2 * b * b) by (nonlinear_arith);
    assert(x * x + y * y <= (2 * b) * (2 * b)) by (nonlinear_arith)
        requires
            x * x + y * y <= 2 * b * b,
            b >= 0,
    ;
    assert(x * x >= 0 && y * y >= 0) by (nonlinear_arith);
    lemma_isqrt_at_most(x * x + y * y, 2 * b);
    lemma_isqrt(x * x + y * y);
}

/// One Newton step from any positive estimate never drops below the floor
/// square root.
pub proof fn lemma_newton_step_above(v: int, e: int)
    requires
        v >= 0,
        e >= 1,
    ensures
        (e + v / e) / 2 >= isqrt(v),
{
    lemma_isqrt(v);
    let s = isqrt(v);
    let q = v / e;
    assert(v == q * e + v % e && 0 <= v % e < e) by {
        vstd::arithmetic::div_mod::lemma_fundamental_div_mod(v, e);
    }
    assert(q >= 0) by {
        vstd::arithmetic::div_mod::lemma_div_pos_is_pos(v, e);
    }
    if e + q < 2 * s {
        assert(v < (q + 1) * e) by (nonlinear_arith)
            requires
                v == q * e + v % e,
                v % e < e,
        ;
        assert((q + 1) * e <= s * s) by (nonlinear_arith)
            requires
                e + q + 1 <= 2 * s,
                e >= 1,
                q >= 0,
        ;
    }
}

/// `|a| <= ceil(|a| * l / d) * d / l`-style bound: the scaled magnitude times
/// the divisor is at least the exact product.
pub proof fn lemma_ceil_div_properties(a: int, d: int)
    requires
        a >= 0,
        d >= 1,
    ensures
        ceil_div(a, d) * d >= a,
        ceil_div(a, d) >= 0,
        (ceil_div(a, d) - 1) * d < a || a == 0,
        a == 0 ==> ceil_div(a, d) == 0,
{
    let q = (a + d - 1) / d;
    let r = (a + d - 1) % d;
    vstd::arithmetic::div_mod::lemma_fundamental_div_mod(a + d - 1, d);
    assert(a + d - 1 == q * d + r);
    assert(0 <= r < d);
    assert(q * d >= a);
    assert(q >= 0) by {
        vstd::arithmetic::div_mod::lemma_div_pos_is_pos(a + d - 1, d);
    }
    if a == 0 {
        vstd::arithmetic::div_mod::lemma_small_mod((d - 1) as nat, d as nat);
        vstd::arithmetic::div_mod::lemma_basic_div(d - 1, d);
    }
    assert((q - 1) * d == q * d - d) by (nonlinear_arith);
}

/// The rounded-up quotient is the truncated one plus one exactly when the
/// division leaves a remainder.
pub proof fn lemma_ceil_div_by_mod(n: int, d: int)
    requires
        n >= 0,
        d >= 1,
    ensures
        ceil_div(n, d) == n / d + (if n % d != 0 {
            1int
        } else {
            0int
        }),
{
    vstd::arithmetic::div_mod::lemma_fundamental_div_mod(n, d);
    let q = n / d;
    let r = n % d;
    assert(n == q * d + r) by (nonlinear_arith)
        requires
            n == d * q + r,
    ;
    if r == 0 {
        vstd::arithmetic::div_mod::lemma_fundamental_div_mod_converse(n + d - 1, d, q, d - 1);
    } else {
        assert(n + d - 1 == (q + 1) * d + (r - 1)) by (nonlinear_arith)
            requires
                n == q * d + r,
        ;
        vstd::arithmetic::div_mod::lemma_fundamental_div_mod_converse(n + d - 1, d, q + 1, r - 1);
    }
}

/// When `n <= d` the rounded-up quotient `ceil(n * l / d)` is at most `l`.
pub proof fn lemma_ceil_scale_at_most(n: int, l: int, d: int)
    requires
        0 <= n <= d,
        d >= 1,
        l >= 0,
    ensures
        0 <= ceil_div(n * l, d) <= l,
{
    assert(0 <= n * l <= d * l) by (nonlinear_arith)
        requires
            0 <= n <= d,
            l >= 0,
    ;
    lemma_ceil_div_properties(n * l, d);
    let q = ceil_div(n * l, d);
    if q > l {
        assert((q - 1) * d >= n * l) by (nonlinear_arith)
            requires
                q - 1 >= l,
                d >= 1,
                d >= n,
                n >= 0,
                l >= 0,
        ;
    }
}

/// A truncated quotient is bounded by any `b` with `|n| <= b * d`.
pub proof fn lemma_tdiv_bound(n: int, d: int, b: int)
    requires
        d >= 1,
        b >= 0,
        abs(n) <= b * d,
    ensures
        abs(tdiv(n, d)) <= b,
        abs(tdiv(n, d)) <= abs(n),
        n >= 0 ==> tdiv(n, d) >= 0,
        n <= 0 ==> tdiv(n, d) <= 0,
{
    let a = abs(n);
    vstd::arithmetic::div_mod::lemma_div_is_ordered(a, b * d, d);
    vstd::arithmetic::div_mod::lemma_div_multiples_vanish(b, d);
    vstd::arithmetic::div_mod::lemma_div_pos_is_pos(a, d);
    vstd::arithmetic::div_mod::lemma_div_is_ordered_by_denominator(a, 1, d);
    vstd::arithmetic::div_mod::lemma_div_basics(a);
    assert(d * b == b * d) by (nonlinear_arith);
}

/// The truncated projection `(vx*rx + vy*ry) / l` of a vector onto a reference
/// whose coordinates are bounded by its positive length `l` is at most
/// `|vx| + |vy|` in magnitude.
pub proof fn lemma_projection_bound(vx: int, vy: int, rx: int, ry: int, l: int)
    requires
        l >= 1,
        abs(rx) <= l,
        abs(ry) <= l,
    ensures
        abs(tdiv(vx * rx + vy * ry, l)) <= abs(vx) + abs(vy),
{
    assert(abs(vx * rx + vy * ry) <= (abs(vx) + abs(vy)) * l) by (nonlinear_arith)
        requires
            abs(rx) <= l,
            abs(ry) <= l,
            l >= 1,
    ;
    lemma_tdiv_bound(vx * rx + vy * ry, l, abs(vx) + abs(vy));
}

} // verus!
