//! Fixed-point scalar arithmetic.
//!
//! Every geometric quantity in this crate is a fixed-point number: an `i64`
//! raw value standing for `raw / SCALE`. All operations are exact integer
//! computations, so every contract below pins the result down completely.

use vstd::prelude::*;

verus! {

/// Raw values represent `raw / SCALE`; SCALE is 2^16.
pub const SCALE: i64 = 65536;

/// Bound on the raw value of any scene coordinate, direction component or
/// color channel the tracer works with (value range +/- 16384.0).
pub const CMAX: i64 = 1073741824;

/// Bound on the raw value of a surface's own coordinates and radii
/// (value range +/- 8191.9).
pub const SMAX: i64 = 536870000;

/// Bound on the raw value of a ray parameter `t`; stands in for an infinite
/// search horizon (value range +/- 2^29).
pub const TMAX: i64 = 35184372088832;

/// Absolute value over int.
pub open spec fn iabs(a: int) -> int {
    if a >= 0 { a } else { -a }
}

/// Quotient of `a / b` rounded toward zero, as the machine division rounds.
/// Defined as 0 when `b == 0` (callers never divide by zero).
pub open spec fn tdiv(a: int, b: int) -> int {
    if b == 0 {
        0
    } else if (a >= 0) == (b >= 0) {
        iabs(a) / iabs(b)
    } else {
        -(iabs(a) / iabs(b))
    }
}

/// Fixed-point product: `(a * b) / SCALE`, rounded toward zero.
pub open spec fn smul(a: int, b: int) -> int {
    tdiv(a * b, SCALE as int)
}

/// Fixed-point quotient: `(a * SCALE) / b`, rounded toward zero.
pub open spec fn sdiv(a: int, b: int) -> int {
    tdiv(a * SCALE as int, b)
}

/// `x` clamped to `[-m, m]`.
pub open spec fn clip(x: int, m: int) -> int {
    if x > m { m } else if x < -m { -m } else { x }
}

/// Largest `r` with `r * r <= x` (for `x >= 0`).
pub open spec fn sqrt_floor(x: int) -> int {
    choose|r: int| r >= 0 && #[trigger] (r * r) <= x && (r + 1) * (r + 1) > x
}

/// `|a * b| <= m * n` whenever `|a| <= m` and `|b| <= n`.
pub proof fn lemma_mul_bound(a: int, b: int, m: int, n: int)
    requires
        -m <= a <= m,
        -n <= b <= n,
    ensures
        -(m * n) <= a * b <= m * n,
{
    assert(-(m * n) <= a * b <= m * n) by (nonlinear_arith)
        requires -m <= a <= m && -n <= b <= n;
}

/// Division toward zero shrinks magnitude: `|tdiv(a, b)| <= |a| / b` for `b > 0`.
pub proof fn lemma_tdiv_bound(a: int, b: int, m: int)
    requires
        b > 0,
        -m <= a <= m,
        m >= 0,
    ensures
        -m <= -(iabs(m) / b) <= tdiv(a, b) <= iabs(m) / b <= m,
        b == 1 ==> tdiv(a, b) == a,
{
    assert(iabs(a) / b <= iabs(m) / b && iabs(m) / b <= m && iabs(a) / b >= 0
        && (b == 1 ==> iabs(a) / b == iabs(a))) by (nonlinear_arith)
        requires b > 0 && 0 <= iabs(a) <= iabs(m) && iabs(m) == m;
}

/// `tdiv` never rounds further than one unit from the exact quotient:
/// `b * tdiv(a, b)` is within `b` of `a`, on the zero side of it.
pub proof fn lemma_tdiv_close(a: int, b: int)
    requires
        b > 0,
    ensures
        a >= 0 ==> b * tdiv(a, b) <= a < b * tdiv(a, b) + b,
        a < 0 ==> b * tdiv(a, b) - b < a <= b * tdiv(a, b),
{
    if a >= 0 {
        assert(b * (a / b) <= a < b * (a / b) + b) by (nonlinear_arith)
            requires b > 0 && a >= 0;
    } else {
        assert(b * ((-a) / b) <= -a < b * ((-a) / b) + b) by (nonlinear_arith)
            requires b > 0 && a < 0;
        assert(b * -((-a) / b) == -(b * ((-a) / b))) by (nonlinear_arith);
    }
}

/// A fixed-point product with a factor in `[0, 1]` shrinks a nonnegative value.
pub proof fn lemma_smul_unit(k: int, u: int)
    requires
        0 <= k,
        0 <= u <= SCALE,
    ensures
        0 <= smul(k, u) <= k,
{
    let s = SCALE as int;
    let p = k * u;
    assert(k * u >= 0) by (nonlinear_arith)
        requires 0 <= k && 0 <= u;
    assert(k * u <= k * s) by (nonlinear_arith)
        requires 0 <= k && u <= s;
    lemma_tdiv_close(p, s);
    assert(0 <= tdiv(p, s) <= k) by (nonlinear_arith)
        requires s > 0 && 0 <= p <= k * s
            && s * tdiv(p, s) <= p < s * tdiv(p, s) + s;
}

/// Combined product and fixed-point-product bound, for literal bounds:
/// `|a| <= m` and `|b| <= n` give `|a * b| <= mn` and `|smul(a, b)| <= mn / SCALE`.
pub proof fn lemma_smul_bound(a: int, b: int, m: int, n: int, mn: int)
    requires
        -m <= a <= m,
        -n <= b <= n,
        0 <= m,
        0 <= n,
        m * n <= mn,
    ensures
        -mn <= a * b <= mn,
        -(iabs(mn) / (SCALE as int)) <= smul(a, b) <= iabs(mn) / (SCALE as int),
{
    lemma_mul_bound(a, b, m, n);
    assert(m * n <= mn);
    lemma_tdiv_bound(a * b, SCALE as int, mn);
}

/// A fixed-point product with a factor in `[0, 1]` lies between zero and the
/// other factor, whatever its sign.
pub proof fn lemma_smul_unit_signed(k: int, u: int)
    requires
        0 <= u <= SCALE,
    ensures
        k >= 0 ==> 0 <= smul(k, u) <= k,
        k < 0 ==> k <= smul(k, u) <= 0,
{
    if k >= 0 {
        lemma_smul_unit(k, u);
    } else {
        lemma_smul_unit(-k, u);
        assert((-k) * u == -(k * u)) by (nonlinear_arith);
        assert(tdiv(-(k * u), SCALE as int) == -tdiv(k * u, SCALE as int));
    }
}

/// The low sixteen bits of a word form a value below 2^16.
pub proof fn lemma_mask16(x: u64)
    ensures
        (x & 0xffff) < 0x10000,
{
    assert((x & 0xffff) < 0x10000) by (bit_vector);
}

/// Division of a nonnegative value by a positive one is nonnegative.
pub proof fn lemma_tdiv_nonneg(a: int, b: int)
    requires
        a >= 0,
        b > 0,
    ensures
        tdiv(a, b) >= 0,
{
    assert(a / b >= 0) by (nonlinear_arith) requires a >= 0 && b > 0;
}

/// Averaging `n` values bounded by `c` stays bounded by `c`.
pub proof fn lemma_avg_bound(s: int, n: int, c: int)
    requires
        n >= 1,
        c >= 0,
        -(n * c) <= s <= n * c,
    ensures
        -c <= tdiv(s, n) <= c,
{
    lemma_tdiv_close(s, n);
    assert(-c <= tdiv(s, n) <= c) by (nonlinear_arith)
        requires n >= 1 && c >= 0 && -(n * c) <= s <= n * c
            && (s >= 0 ==> n * tdiv(s, n) <= s < n * tdiv(s, n) + n)
            && (s < 0 ==> n * tdiv(s, n) - n < s <= n * tdiv(s, n));
}

/// Saturate a scalar into `[-cap, cap]`.
pub fn fx_clip(v: i64, cap: i64) -> (r: i64)
    requires
        cap >= 0,
    ensures
        r == clip(v as int, cap as int),
{
    if v > cap {
        cap
    } else if v < -cap {
        -cap
    } else {
        v
    }
}

/// Truncating division toward zero on machine integers, as `tdiv` specifies.
pub fn div_i128(a: i128, b: i128) -> (r: i128)
    requires
        b > 0,
    ensures
        r == tdiv(a as int, b as int),
{
    a / b
}

/// Flooring division on machine integers: the Euclidean quotient `a / b`.
pub fn fdiv_i128(a: i128, b: i128) -> (r: i128)
    requires
        b > 0,
        a > i128::MIN,
    ensures
        r == a as int / b as int,
{
    if a >= 0 {
        a / b
    } else {
        let q = (-a) / b;
        let rem = (-a) % b;
        proof {
            vstd::arithmetic::div_mod::lemma_fundamental_div_mod(-(a as int), b as int);
            vstd::arithmetic::div_mod::lemma_fundamental_div_mod(a as int, b as int);
            vstd::arithmetic::div_mod::lemma_mod_bound(a as int, b as int);
            vstd::arithmetic::div_mod::lemma_mod_bound(-(a as int), b as int);
            assert(a as int == b as int * (-(q as int)) - (rem as int)) by (nonlinear_arith)
                requires -(a as int) == b as int * (q as int) + (rem as int);
            if rem == 0 {
                assert(a as int == b as int * (-(q as int)) + 0);
                assert(a as int / b as int == -(q as int)) by (nonlinear_arith)
                    requires
                        b > 0,
                        a as int == b as int * (-(q as int)),
                        a as int == b as int * (a as int / b as int) + (a as int % b as int),
                        0 <= (a as int % b as int),
                        (a as int % b as int) < b;
            } else {
                assert(a as int == b as int * (-(q as int) - 1) + (b - rem)) by (nonlinear_arith)
                    requires a as int == b as int * (-(q as int)) - (rem as int);
                assert(a as int / b as int == -(q as int) - 1) by (nonlinear_arith)
                    requires
                        b > 0,
                        0 < b - rem < b,
                        a as int == b as int * (-(q as int) - 1) + (b - rem),
                        a as int == b as int * (a as int / b as int) + (a as int % b as int),
                        0 <= (a as int % b as int),
                        (a as int % b as int) < b;
            }
        }
        if rem == 0 { -q } else { -q - 1 }
    }
}

/// Fixed-point multiply of two raw scalars.
pub fn fx_mul(a: i64, b: i64) -> (r: i64)
    requires
        -0x8000000000 <= a <= 0x8000000000,
        -0x8000000000 <= b <= 0x8000000000,
    ensures
        r == smul(a as int, b as int),
{
    proof {
        lemma_mul_bound(a as int, b as int, 0x8000000000, 0x8000000000);
        lemma_tdiv_bound(a as int * b as int, SCALE as int,
            0x8000000000int * 0x8000000000int);
    }
    let p: i128 = (a as i128) * (b as i128);
    let q = div_i128(p, SCALE as i128);
    q as i64
}

/// Fixed-point divide of two raw scalars, saturated to `[-cap, cap]`.
/// A zero divisor saturates to `cap`, standing in for an infinite quotient.
pub fn fx_div_sat(a: i64, b: i64, cap: i64) -> (r: i64)
    requires
        cap >= 0,
    ensures
        b != 0 ==> r == clip(sdiv(a as int, b as int), cap as int),
        b == 0 ==> r == cap,
{
    if b == 0 {
        return cap;
    }
    proof {
        lemma_mul_bound(a as int, SCALE as int, 0x8000000000000000, SCALE as int);
    }
    let n: i128 = (a as i128) * (SCALE as i128);
    let (n, d): (i128, i128) = if b < 0 { (-n, -(b as i128)) } else { (n, b as i128) };
    assert(tdiv(n as int, d as int) == sdiv(a as int, b as int));
    let q = div_i128(n, d);
    proof {
        lemma_tdiv_bound(n as int, d as int, iabs(n as int));
    }
    if q > cap as i128 {
        cap
    } else if q < -(cap as i128) {
        -cap
    } else {
        q as i64
    }
}

/// Floor of the square root: the unique `r >= 0` with `r^2 <= x < (r+1)^2`.
pub fn isqrt(x: u128) -> (r: u64)
    ensures
        r * r <= x,
        (r + 1) * (r + 1) > x,
        r == sqrt_floor(x as int),
{
    let mut lo: u128 = 0;
    let mut hi: u128 = 0x10000000000000000;
    proof {
        assert(hi * hi > x) by (nonlinear_arith)
            requires hi == 0x10000000000000000u128 && x <= u128::MAX;
    }
    while hi - lo > 1
        invariant
            lo < hi <= 0x10000000000000000,
            lo * lo <= x,
            hi * hi > x,
        decreases hi - lo,
    {
        let mid: u128 = lo + (hi - lo) / 2;
        proof {
            assert(mid * mid < u128::MAX) by (nonlinear_arith)
                requires mid < 0x10000000000000000u128;
        }
        if mid * mid <= x {
            lo = mid;
        } else {
            hi = mid;
        }
    }
    let r = lo as u64;
    proof {
        let rr = sqrt_floor(x as int);
        assert(r * r <= x && (r + 1) * (r + 1) > x);
        assert(rr >= 0 && rr * rr <= x && (rr + 1) * (rr + 1) > x) by {
            assert(r as int >= 0 && (r as int) * (r as int) <= x
                && ((r as int) + 1) * ((r as int) + 1) > x);
        }
        lemma_sqrt_unique(r as int, rr, x as int);
    }
    r
}

/// The square-root floor exists and has its defining properties.
pub proof fn lemma_sqrt_floor_facts(x: int)
    requires
        x >= 0,
    ensures
        sqrt_floor(x) >= 0,
        sqrt_floor(x) * sqrt_floor(x) <= x,
        (sqrt_floor(x) + 1) * (sqrt_floor(x) + 1) > x,
    decreases x,
{
    if x == 0 {
        assert(0int * 0int <= x && (0int + 1) * (0int + 1) > x);
    } else {
        lemma_sqrt_floor_facts(x - 1);
        let r0 = sqrt_floor(x - 1);
        if (r0 + 1) * (r0 + 1) <= x {
            assert((r0 + 1) * (r0 + 1) == x && (r0 + 2) * (r0 + 2) > x) by (nonlinear_arith)
                requires (r0 + 1) * (r0 + 1) <= x && (r0 + 1) * (r0 + 1) > x - 1 && r0 >= 0;
            assert((r0 + 1) >= 0 && (r0 + 1) * (r0 + 1) <= x
                && ((r0 + 1) + 1) * ((r0 + 1) + 1) > x);
        } else {
            assert(r0 >= 0 && r0 * r0 <= x && (r0 + 1) * (r0 + 1) > x);
        }
    }
}

/// Fixed-point square root: `sqrt_floor(a * SCALE)`, the square root of the
/// represented value at the fixed-point resolution.
pub fn fx_sqrt(a: i64) -> (r: i64)
    requires
        a >= 0,
    ensures
        r == sqrt_floor(a * SCALE),
        r >= 0,
        r * r <= a * SCALE,
        (r + 1) * (r + 1) > a * SCALE,
{
    proof {
        lemma_mul_bound(a as int, SCALE as int, 0x8000000000000000, SCALE as int);
    }
    let p: u128 = (a as u128) * (SCALE as u128);
    let r = isqrt(p);
    proof {
        assert(r < 0x10000000000) by (nonlinear_arith)
            requires r as int * r as int <= 0x8000000000000000int * SCALE as int && r >= 0;
    }
    r as i64
}

proof fn lemma_sqrt_unique(a: int, b: int, x: int)
    requires
        a >= 0, b >= 0,
        a * a <= x, b * b <= x,
        (a + 1) * (a + 1) > x,
        (b + 1) * (b + 1) > x,
    ensures
        a == b,
{
    assert(a == b) by (nonlinear_arith)
        requires a >= 0 && b >= 0 && a * a <= x && b * b <= x
            && (a + 1) * (a + 1) > x && (b + 1) * (b + 1) > x;
}

} // verus!
