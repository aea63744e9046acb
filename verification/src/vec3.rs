//! Three-component fixed-point vectors, used for points, directions and colors.

use vstd::prelude::*;
use crate::fixed::{
    clip, fx_div_sat, fx_mul, iabs, isqrt, lemma_mul_bound, lemma_tdiv_bound, sdiv, smul,
    sqrt_floor, tdiv, SCALE,
};

verus! {

/// Bound on vector components accepted by the arithmetic operations here;
/// generous enough for every quantity the tracer forms.
pub const VMAX: i64 = 0x4000000000;

#[derive(Debug, Clone, Copy, PartialEq, Eq, Structural)]
pub struct Vec3 {
    pub x: i64,
    pub y: i64,
    pub z: i64,
}

/// Colors are vectors whose components are channel intensities.
pub type Color = Vec3;

/// All components of `v` lie in `[-m, m]`.
pub open spec fn bounded(v: Vec3, m: int) -> bool {
    &&& -m <= v.x <= m
    &&& -m <= v.y <= m
    &&& -m <= v.z <= m
}

/// The integer dot product of the raw components (at scale SCALE^2).
pub open spec fn dot_raw(a: Vec3, b: Vec3) -> int {
    a.x * b.x + a.y * b.y + a.z * b.z
}

/// Fixed-point dot product: `dot_raw` brought back to scale SCALE.
pub open spec fn sdot(a: Vec3, b: Vec3) -> int {
    tdiv(dot_raw(a, b), SCALE as int)
}

/// Fixed-point length: floor of the square root of the raw self-product.
pub open spec fn len_fx(v: Vec3) -> int {
    sqrt_floor(dot_raw(v, v))
}

/// Componentwise sum, in specifications.
pub open spec fn vadd(a: Vec3, b: Vec3) -> Vec3 {
    Vec3 { x: (a.x + b.x) as i64, y: (a.y + b.y) as i64, z: (a.z + b.z) as i64 }
}

/// Componentwise negation, in specifications.
pub open spec fn vneg(a: Vec3) -> Vec3 {
    Vec3 { x: (-a.x) as i64, y: (-a.y) as i64, z: (-a.z) as i64 }
}

/// Componentwise difference, in specifications.
pub open spec fn vsub(a: Vec3, b: Vec3) -> Vec3 {
    Vec3 { x: (a.x - b.x) as i64, y: (a.y - b.y) as i64, z: (a.z - b.z) as i64 }
}

/// Componentwise fixed-point scaling, in specifications.
pub open spec fn vsmul(a: Vec3, k: int) -> Vec3 {
    Vec3 {
        x: smul(a.x as int, k) as i64,
        y: smul(a.y as int, k) as i64,
        z: smul(a.z as int, k) as i64,
    }
}

/// Componentwise fixed-point product, in specifications.
pub open spec fn vmul(a: Vec3, b: Vec3) -> Vec3 {
    Vec3 {
        x: smul(a.x as int, b.x as int) as i64,
        y: smul(a.y as int, b.y as int) as i64,
        z: smul(a.z as int, b.z as int) as i64,
    }
}

/// Componentwise truncated division by a plain integer, in specifications.
pub open spec fn vdiv_i(a: Vec3, n: int) -> Vec3 {
    Vec3 {
        x: tdiv(a.x as int, n) as i64,
        y: tdiv(a.y as int, n) as i64,
        z: tdiv(a.z as int, n) as i64,
    }
}

/// Componentwise clamping, in specifications.
pub open spec fn vclip(a: Vec3, m: int) -> Vec3 {
    Vec3 {
        x: clip(a.x as int, m) as i64,
        y: clip(a.y as int, m) as i64,
        z: clip(a.z as int, m) as i64,
    }
}

/// What `normalize` returns: each component divided by the fixed-point
/// length, saturated at 2.
pub open spec fn spec_normalize(v: Vec3) -> Vec3 {
    Vec3 {
        x: clip(sdiv(v.x as int, len_fx(v)), 2 * SCALE as int) as i64,
        y: clip(sdiv(v.y as int, len_fx(v)), 2 * SCALE as int) as i64,
        z: clip(sdiv(v.z as int, len_fx(v)), 2 * SCALE as int) as i64,
    }
}

/// The fixed-point dot product is symmetric.
pub proof fn lemma_sdot_sym(a: Vec3, b: Vec3)
    ensures
        sdot(a, b) == sdot(b, a),
        dot_raw(a, b) == dot_raw(b, a),
{
    assert(dot_raw(a, b) == dot_raw(b, a)) by (nonlinear_arith)
        requires dot_raw(a, b) == a.x * b.x + a.y * b.y + a.z * b.z
            && dot_raw(b, a) == b.x * a.x + b.y * a.y + b.z * a.z;
}

/// A nonzero vector has a positive raw self-product.
pub proof fn lemma_nonzero_dot(v: Vec3)
    requires
        !(v.x == 0 && v.y == 0 && v.z == 0),
    ensures
        dot_raw(v, v) > 0,
{
    assert(dot_raw(v, v) > 0) by (nonlinear_arith)
        requires !(v.x == 0 && v.y == 0 && v.z == 0)
            && dot_raw(v, v) == v.x * v.x + v.y * v.y + v.z * v.z;
}

/// Dot products of vectors bounded by `m` stay within `3 * m * m`.
pub proof fn lemma_dot_raw_bound(a: Vec3, b: Vec3, m: int)
    requires
        m >= 0,
        bounded(a, m),
        bounded(b, m),
    ensures
        -(3 * m * m) <= dot_raw(a, b) <= 3 * m * m,
        -(m * m) <= a.x * b.x <= m * m,
        -(m * m) <= a.y * b.y <= m * m,
        -(m * m) <= a.z * b.z <= m * m,
{
    lemma_mul_bound(a.x as int, b.x as int, m, m);
    lemma_mul_bound(a.y as int, b.y as int, m, m);
    lemma_mul_bound(a.z as int, b.z as int, m, m);
    assert(3 * m * m == m * m + m * m + m * m) by (nonlinear_arith);
}

impl Vec3 {
    pub fn new(x: i64, y: i64, z: i64) -> (r: Self)
        ensures
            r == (Vec3 { x, y, z }),
    {
        Vec3 { x, y, z }
    }

    pub fn zero() -> (r: Self)
        ensures
            r == (Vec3 { x: 0i64, y: 0i64, z: 0i64 }),
    {
        Vec3 { x: 0, y: 0, z: 0 }
    }

    pub fn x(self) -> (r: i64)
        ensures r == self.x,
    {
        self.x
    }

    pub fn y(self) -> (r: i64)
        ensures r == self.y,
    {
        self.y
    }

    pub fn z(self) -> (r: i64)
        ensures r == self.z,
    {
        self.z
    }

    pub fn r(self) -> (r: i64)
        ensures r == self.x,
    {
        self.x
    }

    pub fn g(self) -> (r: i64)
        ensures r == self.y,
    {
        self.y
    }

    pub fn b(self) -> (r: i64)
        ensures r == self.z,
    {
        self.z
    }

    pub fn add(self, rhs: Vec3) -> (r: Vec3)
        requires
            bounded(self, VMAX as int),
            bounded(rhs, VMAX as int),
        ensures
            r.x == self.x + rhs.x,
            r.y == self.y + rhs.y,
            r.z == self.z + rhs.z,
    {
        Vec3 { x: self.x + rhs.x, y: self.y + rhs.y, z: self.z + rhs.z }
    }

    pub fn sub(self, rhs: Vec3) -> (r: Vec3)
        requires
            bounded(self, VMAX as int),
            bounded(rhs, VMAX as int),
        ensures
            r.x == self.x - rhs.x,
            r.y == self.y - rhs.y,
            r.z == self.z - rhs.z,
    {
        Vec3 { x: self.x - rhs.x, y: self.y - rhs.y, z: self.z - rhs.z }
    }

    pub fn neg(self) -> (r: Vec3)
        requires
            bounded(self, VMAX as int),
        ensures
            r.x == -self.x,
            r.y == -self.y,
            r.z == -self.z,
    {
        Vec3 { x: -self.x, y: -self.y, z: -self.z }
    }

    /// Componentwise (Hadamard) fixed-point product.
    pub fn mul(self, rhs: Vec3) -> (r: Vec3)
        requires
            bounded(self, VMAX as int),
            bounded(rhs, VMAX as int),
        ensures
            r.x == smul(self.x as int, rhs.x as int),
            r.y == smul(self.y as int, rhs.y as int),
            r.z == smul(self.z as int, rhs.z as int),
            r == vmul(self, rhs),
    {
        Vec3 {
            x: fx_mul(self.x, rhs.x),
            y: fx_mul(self.y, rhs.y),
            z: fx_mul(self.z, rhs.z),
        }
    }

    /// Scale by a fixed-point scalar.
    pub fn scale(self, k: i64) -> (r: Vec3)
        requires
            bounded(self, VMAX as int),
            -VMAX <= k <= VMAX,
        ensures
            r.x == smul(self.x as int, k as int),
            r.y == smul(self.y as int, k as int),
            r.z == smul(self.z as int, k as int),
    {
        Vec3 { x: fx_mul(self.x, k), y: fx_mul(self.y, k), z: fx_mul(self.z, k) }
    }

    /// Divide by a plain (not fixed-point) positive integer, as when a color
    /// sum is averaged over a sample count.
    pub fn div_int(self, n: i64) -> (r: Vec3)
        requires
            n > 0,
        ensures
            r.x == tdiv(self.x as int, n as int),
            r.y == tdiv(self.y as int, n as int),
            r.z == tdiv(self.z as int, n as int),
            r == vdiv_i(self, n as int),
    {
        proof {
            lemma_tdiv_bound(self.x as int, n as int, iabs(self.x as int));
            lemma_tdiv_bound(self.y as int, n as int, iabs(self.y as int));
            lemma_tdiv_bound(self.z as int, n as int, iabs(self.z as int));
        }
        let x = crate::fixed::div_i128(self.x as i128, n as i128);
        let y = crate::fixed::div_i128(self.y as i128, n as i128);
        let z = crate::fixed::div_i128(self.z as i128, n as i128);
        Vec3 { x: x as i64, y: y as i64, z: z as i64 }
    }

    pub fn dot(self, rhs: Vec3) -> (r: i64)
        requires
            bounded(self, VMAX as int),
            bounded(rhs, VMAX as int),
        ensures
            r == sdot(self, rhs),
    {
        proof {
            lemma_dot_raw_bound(self, rhs, VMAX as int);
            lemma_tdiv_bound(dot_raw(self, rhs), SCALE as int,
                3 * VMAX as int * VMAX as int);
        }
        let p: i128 = (self.x as i128) * (rhs.x as i128) + (self.y as i128) * (rhs.y as i128)
            + (self.z as i128) * (rhs.z as i128);
        let q = crate::fixed::div_i128(p, SCALE as i128);
        q as i64
    }

    pub fn length_squared(self) -> (r: i64)
        requires
            bounded(self, VMAX as int),
        ensures
            r == sdot(self, self),
            r >= 0,
    {
        proof {
            lemma_dot_raw_bound(self, self, VMAX as int);
            assert(dot_raw(self, self) >= 0) by (nonlinear_arith);
        }
        self.dot(self)
    }

    /// Fixed-point euclidean length: `sqrt(x^2 + y^2 + z^2)` exactly, floored
    /// at the fixed-point resolution.
    pub fn length(self) -> (r: i64)
        requires
            bounded(self, VMAX as int),
        ensures
            r == len_fx(self),
            r >= 0,
            r * r <= dot_raw(self, self),
            (r + 1) * (r + 1) > dot_raw(self, self),
    {
        proof {
            lemma_dot_raw_bound(self, self, VMAX as int);
            assert(dot_raw(self, self) >= 0) by (nonlinear_arith);
        }
        let p: i128 = (self.x as i128) * (self.x as i128) + (self.y as i128) * (self.y as i128)
            + (self.z as i128) * (self.z as i128);
        let r = isqrt(p as u128);
        proof {
            assert(r as int * r as int <= 3 * VMAX as int * VMAX as int ==> r < i64::MAX)
                by (nonlinear_arith);
        }
        r as i64
    }

    pub fn cross(self, rhs: Vec3) -> (r: Vec3)
        requires
            bounded(self, VMAX as int),
            bounded(rhs, VMAX as int),
        ensures
            r.x == tdiv(self.y * rhs.z - self.z * rhs.y, SCALE as int),
            r.y == tdiv(self.z * rhs.x - self.x * rhs.z, SCALE as int),
            r.z == tdiv(self.x * rhs.y - self.y * rhs.x, SCALE as int),
    {
        proof {
            lemma_mul_bound(self.y as int, rhs.z as int, VMAX as int, VMAX as int);
            lemma_mul_bound(self.z as int, rhs.y as int, VMAX as int, VMAX as int);
            lemma_mul_bound(self.z as int, rhs.x as int, VMAX as int, VMAX as int);
            lemma_mul_bound(self.x as int, rhs.z as int, VMAX as int, VMAX as int);
            lemma_mul_bound(self.x as int, rhs.y as int, VMAX as int, VMAX as int);
            lemma_mul_bound(self.y as int, rhs.x as int, VMAX as int, VMAX as int);
            lemma_tdiv_bound(self.y * rhs.z - self.z * rhs.y, SCALE as int,
                2 * VMAX as int * VMAX as int);
            lemma_tdiv_bound(self.z * rhs.x - self.x * rhs.z, SCALE as int,
                2 * VMAX as int * VMAX as int);
            lemma_tdiv_bound(self.x * rhs.y - self.y * rhs.x, SCALE as int,
                2 * VMAX as int * VMAX as int);
        }
        let cx: i128 = (self.y as i128) * (rhs.z as i128) - (self.z as i128) * (rhs.y as i128);
        let cy: i128 = (self.z as i128) * (rhs.x as i128) - (self.x as i128) * (rhs.z as i128);
        let cz: i128 = (self.x as i128) * (rhs.y as i128) - (self.y as i128) * (rhs.x as i128);
        let s = SCALE as i128;
        Vec3 {
            x: crate::fixed::div_i128(cx, s) as i64,
            y: crate::fixed::div_i128(cy, s) as i64,
            z: crate::fixed::div_i128(cz, s) as i64,
        }
    }

    /// Scale to (roughly) unit length. Each component is the exact fixed-point
    /// quotient by the fixed-point length, saturated at 2.0.
    pub fn normalize(self) -> (r: Vec3)
        requires
            bounded(self, VMAX as int),
            dot_raw(self, self) > 0,
        ensures
            r == spec_normalize(self),
            bounded(r, 2 * SCALE as int),
    {
        let len = self.length();
        proof {
            assert(len > 0) by (nonlinear_arith)
                requires len as int * len as int <= dot_raw(self, self)
                    && (len as int + 1) * (len as int + 1) > dot_raw(self, self)
                    && dot_raw(self, self) > 0 && len >= 0;
        }
        Vec3 {
            x: fx_div_sat(self.x, len, 2 * SCALE),
            y: fx_div_sat(self.y, len, 2 * SCALE),
            z: fx_div_sat(self.z, len, 2 * SCALE),
        }
    }

    /// Clamp every component into `[-m, m]`.
    pub fn clamp_c(self, m: i64) -> (r: Vec3)
        requires
            m >= 0,
        ensures
            r.x == clip(self.x as int, m as int),
            r.y == clip(self.y as int, m as int),
            r.z == clip(self.z as int, m as int),
            bounded(r, m as int),
    {
        let cx = if self.x > m { m } else if self.x < -m { -m } else { self.x };
        let cy = if self.y > m { m } else if self.y < -m { -m } else { self.y };
        let cz = if self.z > m { m } else if self.z < -m { -m } else { self.z };
        Vec3 { x: cx, y: cy, z: cz }
    }

    /// The exact (wide) integer dot product of the raw components.
    pub fn dot_wide(self, rhs: Vec3) -> (r: i128)
        requires
            bounded(self, 0x80000000000000),
            bounded(rhs, 0x80000000000000),
        ensures
            r == dot_raw(self, rhs),
    {
        proof {
            lemma_mul_bound(self.x as int, rhs.x as int, 0x80000000000000, 0x80000000000000);
            lemma_mul_bound(self.y as int, rhs.y as int, 0x80000000000000, 0x80000000000000);
            lemma_mul_bound(self.z as int, rhs.z as int, 0x80000000000000, 0x80000000000000);
        }
        (self.x as i128) * (rhs.x as i128) + (self.y as i128) * (rhs.y as i128)
            + (self.z as i128) * (rhs.z as i128)
    }

    /// Divide every component by a fixed-point scalar, saturating at `cap`.
    pub fn div_sat(self, k: i64, cap: i64) -> (r: Vec3)
        requires
            cap >= 0,
        ensures
            k != 0 ==> r.x == clip(sdiv(self.x as int, k as int), cap as int)
                && r.y == clip(sdiv(self.y as int, k as int), cap as int)
                && r.z == clip(sdiv(self.z as int, k as int), cap as int),
            k == 0 ==> r.x == cap && r.y == cap && r.z == cap,
            bounded(r, cap as int),
    {
        Vec3 {
            x: fx_div_sat(self.x, k, cap),
            y: fx_div_sat(self.y, k, cap),
            z: fx_div_sat(self.z, k, cap),
        }
    }

    /// True exactly when the vector is zero at the fixed-point resolution.
    pub fn near_zero(self) -> (r: bool)
        ensures
            r <==> (self.x == 0 && self.y == 0 && self.z == 0),
    {
        self.x == 0 && self.y == 0 && self.z == 0
    }
}

} // verus!
