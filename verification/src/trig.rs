//! Fixed-point approximations of the transcendental functions the tracer
//! needs: sine/cosine (rotations, random directions), tangent (field of
//! view), the turn fraction of a direction (sphere texture coordinates) and
//! the negative logarithm (free-flight sampling in volumes).
//!
//! Each function's contract pins its result to an exact integer formula; the
//! formulas are polynomial approximations of the real functions, exact at the
//! axis-aligned special points the rest of the library relies on.

use vstd::prelude::*;
use crate::fixed::{clip, fx_div_sat, fx_mul, sdiv, smul, tdiv, CMAX, SCALE};
use crate::fixed::{lemma_mul_bound, lemma_smul_unit, lemma_tdiv_bound};

verus! {

/// pi at the fixed-point scale.
pub const PI_FX: i64 = 205887;

/// pi/2 at the fixed-point scale (half of `PI_FX`, rounded up).
pub const HALF_PI_FX: i64 = 102944;

/// 2*pi at the fixed-point scale (exactly twice `PI_FX`).
pub const TWO_PI_FX: i64 = 411774;

/// pi/180 at the fixed-point scale.
pub const RAD_PER_DEG: i64 = 1144;

/// ln(2) at the fixed-point scale.
pub const LN2_FX: i64 = 45426;

/// Degrees to radians: a fixed-point multiply by pi/180.
pub fn deg2rad(deg: i64) -> (r: i64)
    requires
        -CMAX <= deg <= CMAX,
    ensures
        r == smul(deg as int, RAD_PER_DEG as int),
{
    fx_mul(deg, RAD_PER_DEG)
}

/// Odd polynomial `x - x^3/6 + x^5/120` on `[0, pi/2]`, clamped to `[0, 1]`.
#[verifier::opaque]
pub open spec fn sin_poly(x: int) -> int {
    let x2 = smul(x, x);
    let x3 = smul(x2, x);
    let x5 = smul(x2, x3);
    let p = x - tdiv(x3, 6) + tdiv(x5, 120);
    if p > SCALE { SCALE as int } else if p < 0 { 0 } else { p }
}

/// The sine approximation: reduce modulo 2*pi, fold into the first quadrant,
/// apply `sin_poly` with the quadrant's sign.
#[verifier::opaque]
pub open spec fn sin_spec(a: int) -> int {
    let m = a % TWO_PI_FX as int;
    let (x, neg) = if m < PI_FX { (m, false) } else { ((m - PI_FX) as int, true) };
    let x2 = if x > HALF_PI_FX { PI_FX - x } else { x };
    if neg { -sin_poly(x2) } else { sin_poly(x2) }
}

/// The cosine is the sine a quarter turn ahead.
pub open spec fn cos_spec(a: int) -> int {
    sin_spec(a + HALF_PI_FX)
}

/// Fixed-point sine of an angle in radians.
pub fn sin_fx(angle: i64) -> (r: i64)
    requires
        -0x4000000000000000 <= angle <= 0x4000000000000000,
    ensures
        r == sin_spec(angle as int),
        -SCALE <= r <= SCALE,
{
    proof {
        reveal(sin_spec);
    }
    let m0 = angle % TWO_PI_FX;
    let m = if m0 < 0 { m0 + TWO_PI_FX } else { m0 };
    proof {
        assert(m == angle as int % TWO_PI_FX as int);
    }
    let (x, neg): (i64, bool) = if m < PI_FX { (m, false) } else { (m - PI_FX, true) };
    let x2 = if x > HALF_PI_FX { PI_FX - x } else { x };
    let p = poly_q(x2);
    if neg { -p } else { p }
}

/// Fixed-point cosine of an angle in radians.
pub fn cos_fx(angle: i64) -> (r: i64)
    requires
        -0x1000000000000000 <= angle <= 0x1000000000000000,
    ensures
        r == cos_spec(angle as int),
        -SCALE <= r <= SCALE,
{
    sin_fx(angle + HALF_PI_FX)
}

/// The saturated tangent quotient.
pub open spec fn tan_spec(a: int) -> int {
    if cos_spec(a) == 0 { CMAX as int } else {
        clip(sdiv(sin_spec(a), cos_spec(a)), CMAX as int)
    }
}

/// Fixed-point tangent: the quotient of the two approximations, saturated.
pub fn tan_fx(angle: i64) -> (r: i64)
    requires
        -0x1000000000000000 <= angle <= 0x1000000000000000,
    ensures
        r == tan_spec(angle as int),
        -CMAX <= r <= CMAX,
{
    let s = sin_fx(angle);
    let c = cos_fx(angle);
    fx_div_sat(s, c, CMAX)
}

/// Evaluate `sin_poly` on `[-pi/2 - 1, pi/2]`.
fn poly_q(x: i64) -> (r: i64)
    requires
        -HALF_PI_FX - 2 <= x <= HALF_PI_FX,
    ensures
        r == sin_poly(x as int),
        0 <= r <= SCALE,
{
    proof {
        reveal(sin_poly);
    }
    let x2 = fx_mul(x, x);
    proof {
        lemma_mul_bound(x as int, x as int, 2 * HALF_PI_FX as int, 2 * HALF_PI_FX as int);
        lemma_tdiv_bound(x as int * x as int, SCALE as int,
            4 * HALF_PI_FX as int * HALF_PI_FX as int);
        assert(-0x100000 <= x2 <= 0x100000);
    }
    let x3 = fx_mul(x2, x);
    proof {
        lemma_mul_bound(x2 as int, x as int, 0x100000, 0x20000);
        lemma_tdiv_bound(x2 as int * x as int, SCALE as int, 0x100000int * 0x20000int);
        assert(-0x200000 <= x3 <= 0x200000);
        lemma_mul_bound(x2 as int, x3 as int, 0x100000, 0x200000);
        lemma_tdiv_bound(x2 as int * x3 as int, SCALE as int, 0x100000int * 0x200000int);
    }
    let x5 = fx_mul(x2, x3);
    let p = x - x3 / 6 + x5 / 120;
    proof {
        assert(x3 as int / 6int == tdiv(x3 as int, 6) || -(x3 as int) / 6int == -tdiv(x3 as int, 6));
        assert(tdiv(x3 as int, 6) == if x3 >= 0 { x3 as int / 6int } else { -((-(x3 as int)) / 6int) });
        assert(tdiv(x5 as int, 120) == if x5 >= 0 { x5 as int / 120int } else { -((-(x5 as int)) / 120int) });
    }
    if p > SCALE {
        SCALE
    } else if p < 0 {
        0
    } else {
        p
    }
}

/// Quarter-turn octant approximation: `t/8 + K*t*(1-t)` for a ratio
/// `t = tan(angle)` in `[0, 1]`, giving `angle / 2pi` in `[0, 1/8]`-ish.
#[verifier::opaque]
pub open spec fn atan_frac_spec(t: int) -> int {
    tdiv(t, 8) + smul(smul(2847, t), SCALE - t)
}

fn atan_frac(t: i64) -> (r: i64)
    requires
        0 <= t <= SCALE,
    ensures
        r == atan_frac_spec(t as int),
        0 <= r <= 11040,
        t == 0 ==> r == 0,
        t == SCALE ==> r == 8192,
{
    proof {
        reveal(atan_frac_spec);
    }
    let kt = fx_mul(2847, t);
    proof {
        lemma_mul_bound(2847, t as int, 2847, SCALE as int);
        lemma_tdiv_bound(2847 * t as int, SCALE as int, 2847 * SCALE as int);
        lemma_smul_unit(2847, t as int);
        lemma_smul_unit(kt as int, (SCALE - t) as int);
        if t == SCALE {
            assert(kt as int * 0 == 0) by (nonlinear_arith);
            assert(smul(kt as int, 0) == 0);
        }
        assert(tdiv(t as int, 8) == t as int / 8int);
        lemma_tdiv_bound(t as int, 8, SCALE as int);
        assert(SCALE as int / 8int == 8192);
    }
    let curve = fx_mul(kt, SCALE - t);
    t / 8 + curve
}

/// The fraction of a full counterclockwise turn, in `[0, 1)`, of the
/// direction `(x, y)` from the positive x axis; `(0, 0)` maps to zero.
#[verifier::opaque]
pub open spec fn turn_frac_spec(y: int, x: int) -> int {
    if x == 0 && y == 0 {
        0
    } else {
        let ax = if x >= 0 { x } else { -x };
        let ay = if y >= 0 { y } else { -y };
        let base = if ay <= ax {
            atan_frac_spec(sdiv(ay, ax))
        } else {
            16384 - atan_frac_spec(sdiv(ax, ay))
        };
        if x >= 0 && y >= 0 {
            base
        } else if x < 0 && y >= 0 {
            32768 - base
        } else if x < 0 {
            32768 + base
        } else {
            if base == 0 { 0 } else { 65536 - base }
        }
    }
}

/// Fixed-point angle fraction of a direction.
pub fn turn_frac(y: i64, x: i64) -> (r: i64)
    requires
        -2 * SCALE <= y <= 2 * SCALE,
        -2 * SCALE <= x <= 2 * SCALE,
    ensures
        r == turn_frac_spec(y as int, x as int),
        0 <= r < SCALE,
        y >= 0 ==> r <= 32768,
{
    proof {
        reveal(turn_frac_spec);
    }
    if x == 0 && y == 0 {
        return 0;
    }
    let ax = if x >= 0 { x } else { -x };
    let ay = if y >= 0 { y } else { -y };
    let base = if ay <= ax {
        let ratio = fx_div_sat(ay, ax, SCALE);
        proof {
            lemma_ratio_unit(ay as int, ax as int);
        }
        atan_frac(ratio)
    } else {
        let ratio = fx_div_sat(ax, ay, SCALE);
        proof {
            lemma_ratio_unit(ax as int, ay as int);
        }
        16384 - atan_frac(ratio)
    };
    if x >= 0 && y >= 0 {
        base
    } else if x < 0 && y >= 0 {
        32768 - base
    } else if x < 0 {
        32768 + base
    } else {
        if base == 0 { 0 } else { 65536 - base }
    }
}

/// A quotient of magnitudes with `0 <= a <= b` stays in `[0, 1]`, so the
/// saturated fixed-point division is the plain one.
proof fn lemma_ratio_unit(a: int, b: int)
    requires
        0 <= a <= b,
        0 < b,
    ensures
        0 <= sdiv(a, b) <= SCALE,
        clip(sdiv(a, b), SCALE as int) == sdiv(a, b),
{
    let s = SCALE as int;
    assert(0 <= a * s <= b * s) by (nonlinear_arith)
        requires 0 <= a <= b && s > 0;
    crate::fixed::lemma_tdiv_close(a * s, b);
    assert(0 <= tdiv(a * s, b) <= s) by (nonlinear_arith)
        requires b > 0 && 0 <= a * s <= b * s
            && b * tdiv(a * s, b) <= a * s < b * tdiv(a * s, b) + b;
}

/// Floor of the base-2 logarithm.
pub open spec fn log2_floor(u: int) -> int
    decreases u,
{
    if u < 2 {
        0
    } else {
        1 + log2_floor(u / 2)
    }
}

/// `-ln(u / SCALE)` for `u` in `[1, SCALE]`: a piecewise-linear interpolation
/// of the base-2 logarithm, scaled by ln(2).
#[verifier::opaque]
pub open spec fn neg_ln_spec(u: int) -> int {
    let k = log2_floor(u);
    let p = pow2i(k);
    smul(LN2_FX as int, 16 * SCALE - k * SCALE - sdiv(u - p, p))
}

pub open spec fn pow2i(k: int) -> int
    decreases k,
{
    if k <= 0 { 1 } else { 2 * pow2i(k - 1) }
}

/// `pow2i(k) <= u < 2 * pow2i(k)` pins down the logarithm floor.
proof fn lemma_log2_unique(u: int, k: int)
    requires
        0 <= k,
        pow2i(k) <= u < 2 * pow2i(k),
    ensures
        log2_floor(u) == k,
    decreases k,
{
    if k == 0 {
    } else {
        assert(pow2i(k) == 2 * pow2i(k - 1));
        assert(pow2i(k - 1) <= u / 2 < 2 * pow2i(k - 1));
        lemma_log2_unique(u / 2, k - 1);
    }
}

/// Negative natural logarithm of `u / SCALE`, for `u` in `[1, SCALE]`.
pub fn neg_ln(u: i64) -> (r: i64)
    requires
        1 <= u <= SCALE,
    ensures
        r == neg_ln_spec(u as int),
        0 <= r <= 16 * LN2_FX,
        u == SCALE ==> r == 0,
{
    proof {
        reveal(neg_ln_spec);
    }
    if u == SCALE {
        proof {
            reveal_with_fuel(pow2i, 17);
            lemma_log2_unique(u as int, 16);
            assert(LN2_FX as int * 0 == 0) by (nonlinear_arith);
            assert(smul(LN2_FX as int, 16 * SCALE - 16 * SCALE - sdiv(0, pow2i(16))) == 0);
        }
        return 0;
    }
    let mut p: i64 = 1;
    let mut k: i64 = 0;
    if u >= p * 256 { p = p * 256; k = k + 8; }
    if u >= p * 16 { p = p * 16; k = k + 4; }
    if u >= p * 4 { p = p * 4; k = k + 2; }
    if u >= p * 2 { p = p * 2; k = k + 1; }
    proof {
        reveal_with_fuel(pow2i, 17);
        assert(p == pow2i(k as int));
    }
    assert(p <= u && u < 2 * p);
    proof {
        lemma_log2_unique(u as int, k as int);
    }
    let frac = fx_div_sat(u - p, p, SCALE);
    proof {
        lemma_ratio_unit((u - p) as int, p as int);
        lemma_smul_unit(LN2_FX as int, 0);
    }
    let val = 16 * SCALE - k * SCALE - frac;
    proof {
        assert(0 <= val <= 16 * SCALE);
        lemma_mul_bound(LN2_FX as int, val as int, LN2_FX as int, 16 * SCALE as int);
        lemma_tdiv_bound(LN2_FX as int * val as int, SCALE as int,
            LN2_FX as int * 16 * SCALE as int);
        lemma_smul_unit16(val as int);
    }
    fx_mul(LN2_FX, val)
}

/// `smul(LN2, v)` for `v` in `[0, 16]` stays in `[0, 16 ln 2]`.
proof fn lemma_smul_unit16(v: int)
    requires
        0 <= v <= 16 * SCALE,
    ensures
        0 <= smul(LN2_FX as int, v) <= 16 * LN2_FX,
        v == 0 ==> smul(LN2_FX as int, v) == 0,
{
    let s = SCALE as int;
    let p = LN2_FX as int * v;
    assert(0 <= p <= LN2_FX as int * 16 * s) by (nonlinear_arith)
        requires 0 <= v <= 16 * s && p == LN2_FX as int * v;
    crate::fixed::lemma_tdiv_close(p, s);
    assert(0 <= tdiv(p, s) <= 16 * LN2_FX) by (nonlinear_arith)
        requires s > 0 && 0 <= p <= LN2_FX as int * 16 * s
            && s * tdiv(p, s) <= p < s * tdiv(p, s) + s;
    if v == 0 {
        assert(LN2_FX as int * 0 == 0) by (nonlinear_arith);
    }
}

} // verus!
