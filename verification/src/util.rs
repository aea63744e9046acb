//! Closed numeric intervals, and the small vector helpers the shading model
//! uses: reflection, refraction, Schlick reflectance, gamma correction and
//! random directions.

use vstd::prelude::*;
use crate::fixed::{clip, fx_mul, fx_sqrt, sdiv, smul, sqrt_floor, tdiv, CMAX, SCALE, TMAX};
use crate::fixed::{lemma_mul_bound, lemma_tdiv_bound};
use crate::rng::{next_state, out_word, Rng};
use crate::trig::{cos_spec, sin_spec, cos_fx, sin_fx, HALF_PI_FX, PI_FX, TWO_PI_FX};
use crate::vec3::{bounded, dot_raw, sdot, vsmul, Color, Vec3};

verus! {

/// Smallest extent (raw) an axis of a constructed bounding box may have.
pub const MIN_EXTENT: i64 = 7;

/// A closed interval `[self.0, self.1]`; reversed bounds mean an empty interval.
#[derive(Debug, Clone, Copy, PartialEq, Eq, Structural)]
pub struct Interval(pub i64, pub i64);

/// Both bounds lie strictly inside the coordinate range the tracer clamps to.
pub open spec fn ival_wf(i: Interval) -> bool {
    &&& -CMAX < i.0 < CMAX
    &&& -CMAX < i.1 < CMAX
}

impl Interval {
    pub fn new(min: i64, max: i64) -> (r: Self)
        ensures
            r == Interval(min, max),
    {
        Interval(min, max)
    }

    /// The empty interval: no fixed-point value is contained in it.
    pub fn empty() -> (r: Self)
        ensures
            r == Interval((CMAX - 1) as i64, (1 - CMAX) as i64),
            ival_wf(r),
            r.0 > r.1,
    {
        Interval(CMAX - 1, 1 - CMAX)
    }

    /// The whole search range for ray parameters.
    pub fn universe() -> (r: Self)
        ensures
            r == Interval((-TMAX) as i64, TMAX),
    {
        Interval(-TMAX, TMAX)
    }

    pub fn contains(&self, value: i64) -> (r: bool)
        ensures
            r <==> self.0 <= value <= self.1,
    {
        self.0 <= value && value <= self.1
    }

    pub fn surrounds(&self, value: i64) -> (r: bool)
        ensures
            r <==> self.0 < value < self.1,
    {
        self.0 < value && value < self.1
    }

    pub fn clamp(&self, value: i64) -> (r: i64)
        ensures
            r == if value < self.0 { self.0 as int } else if value > self.1 { self.1 as int } else { value as int },
    {
        if value < self.0 {
            self.0
        } else if value > self.1 {
            self.1
        } else {
            value
        }
    }

    /// The tightest interval containing both inputs.
    pub fn combine(a: Interval, b: Interval) -> (r: Interval)
        ensures
            r.0 == if a.0 <= b.0 { a.0 as int } else { b.0 as int },
            r.1 == if a.1 >= b.1 { a.1 as int } else { b.1 as int },
            r.0 <= a.0 && r.0 <= b.0 && r.1 >= a.1 && r.1 >= b.1,
    {
        Interval(
            if a.0 <= b.0 { a.0 } else { b.0 },
            if a.1 >= b.1 { a.1 } else { b.1 },
        )
    }

    pub fn size(&self) -> (r: i64)
        requires
            ival_wf(*self),
        ensures
            r == self.1 - self.0,
    {
        self.1 - self.0
    }

    /// Widen symmetrically so the size grows by at least `delta`, saturating
    /// at the coordinate range so the result stays well formed.
    pub fn expand(&self, delta: i64) -> (r: Interval)
        requires
            ival_wf(*self),
            0 <= delta <= 2 * MIN_EXTENT,
        ensures
            r.0 == if self.0 - (delta + 1) / 2 < 1 - CMAX { 1 - CMAX } else { self.0 - (delta + 1) / 2 },
            r.1 == if self.1 + (delta + 1) / 2 > CMAX - 1 { CMAX - 1 } else { self.1 + (delta + 1) / 2 },
            ival_wf(r),
            r.0 <= self.0,
            r.1 >= self.1,
    {
        let pad = (delta + 1) / 2;
        let lo = if self.0 - pad < 1 - CMAX { 1 - CMAX } else { self.0 - pad };
        let hi = if self.1 + pad > CMAX - 1 { CMAX - 1 } else { self.1 + pad };
        Interval(lo, hi)
    }
}


/// The unit sphere direction two stream draws produce: spherical angles
/// `theta` over `[0, pi)` and `phi` over `[0, 2 pi)`.
#[verifier::opaque]
pub open spec fn spec_rand_unit(s0: u64) -> Vec3 {
    let w1 = (out_word(next_state(s0)) & 0xffff) as int;
    let w2 = (out_word(next_state(next_state(s0))) & 0xffff) as int;
    let th = smul(PI_FX as int, w1);
    let ph = smul(TWO_PI_FX as int, w2);
    Vec3 {
        x: smul(sin_spec(th), cos_spec(ph)) as i64,
        y: smul(sin_spec(th), sin_spec(ph)) as i64,
        z: cos_spec(th) as i64,
    }
}

/// A uniformly random direction of (approximately) unit length.
pub fn rand_unit_vec3(rng: &mut Rng) -> (r: Vec3)
    ensures
        r == spec_rand_unit(old(rng).state),
        bounded(r, SCALE as int),
        final(rng).state == next_state(next_state(old(rng).state)),
{
    proof {
        reveal(spec_rand_unit);
    }
    let theta = rng.range(0, PI_FX);
    let phi = rng.range(0, TWO_PI_FX);
    let st = sin_fx(theta);
    let ct = cos_fx(theta);
    let sp = sin_fx(phi);
    let cp = cos_fx(phi);
    proof {
        lemma_mul_bound(st as int, cp as int, SCALE as int, SCALE as int);
        lemma_mul_bound(st as int, sp as int, SCALE as int, SCALE as int);
        lemma_tdiv_bound(st as int * cp as int, SCALE as int, SCALE as int * SCALE as int);
        lemma_tdiv_bound(st as int * sp as int, SCALE as int, SCALE as int * SCALE as int);
    }
    Vec3 { x: fx_mul(st, cp), y: fx_mul(st, sp), z: ct }
}

/// A random direction on the hemisphere around `normal`.
pub fn rand_on_hemisphere(rng: &mut Rng, normal: Vec3) -> (r: Vec3)
    requires
        bounded(normal, 2 * SCALE as int),
    ensures
        bounded(r, SCALE as int),
        sdot(r, normal) >= 0,
{
    let on_unit_sphere = rand_unit_vec3(rng);
    if on_unit_sphere.dot(normal) > 0 {
        on_unit_sphere
    } else {
        proof {
            lemma_sdot_neg(on_unit_sphere, normal);
        }
        on_unit_sphere.neg()
    }
}

/// The unit-disc point two stream draws produce: an angle over `[0, 2 pi)`
/// and a radius that is the square root of a uniform draw.
#[verifier::opaque]
pub open spec fn spec_rand_disc(s0: u64) -> Vec3 {
    let w1 = (out_word(next_state(s0)) & 0xffff) as int;
    let phi = smul(TWO_PI_FX as int, w1);
    let r2 = (out_word(next_state(next_state(s0))) & 0xffff) as int;
    let rad = sqrt_floor(r2 * SCALE);
    Vec3 {
        x: smul(rad, cos_spec(phi)) as i64,
        y: smul(rad, sin_spec(phi)) as i64,
        z: 0i64,
    }
}

/// A random point on the unit disc in the xy plane.
pub fn rand_unit_disc_vec3(rng: &mut Rng) -> (r: Vec3)
    ensures
        r == spec_rand_disc(old(rng).state),
        final(rng).state == next_state(next_state(old(rng).state)),
        bounded(r, SCALE as int),
        r.z == 0,
{
    let ghost s0 = rng.state;
    let phi = rng.range(0, TWO_PI_FX);
    let r2 = rng.unit();
    proof {
        crate::fixed::lemma_mask16(out_word(next_state(s0)));
        crate::fixed::lemma_mask16(out_word(next_state(next_state(s0))));
        assert(phi as int == smul(TWO_PI_FX as int,
            (out_word(next_state(s0)) & 0xffff) as int));
        assert(r2 as int == (out_word(next_state(next_state(s0))) & 0xffff) as int);
    }
    disc_point(phi, r2, Ghost(s0))
}

/// Map the two draws of a disc sample to the point they name.
#[verifier::rlimit(100)]
fn disc_point(phi: i64, r2: i64, Ghost(s0): Ghost<u64>) -> (r: Vec3)
    requires
        0 <= phi <= TWO_PI_FX,
        0 <= r2 < SCALE,
        phi as int == smul(TWO_PI_FX as int, (out_word(next_state(s0)) & 0xffff) as int),
        r2 as int == (out_word(next_state(next_state(s0))) & 0xffff) as int,
    ensures
        r == spec_rand_disc(s0),
        bounded(r, SCALE as int),
        r.z == 0,
{
    let rad = fx_sqrt(r2);
    proof {
        assert(rad <= SCALE) by (nonlinear_arith)
            requires rad as int * rad as int <= r2 * SCALE as int
                && 0 <= r2 < SCALE && rad >= 0;
    }
    let cf = cos_fx(phi);
    let sf = sin_fx(phi);
    proof {
        crate::fixed::lemma_smul_bound(rad as int, cf as int, 65536, 65536, 4294967296);
        crate::fixed::lemma_smul_bound(rad as int, sf as int, 65536, 65536, 4294967296);
    }
    let x = fx_mul(rad, cf);
    let y = fx_mul(rad, sf);
    proof {
        lemma_disc_mirror(s0, phi, r2, rad, cf, sf, x, y);
    }
    Vec3 { x, y, z: 0 }
}

/// Assemble the disc-sample mirror from the facts the draws give.
proof fn lemma_disc_mirror(s0: u64, phi: i64, r2: i64, rad: i64, cf: i64, sf: i64,
    x: i64, y: i64)
    requires
        phi as int == smul(TWO_PI_FX as int, (out_word(next_state(s0)) & 0xffff) as int),
        r2 as int == (out_word(next_state(next_state(s0))) & 0xffff) as int,
        rad as int == sqrt_floor(r2 as int * SCALE),
        cf as int == cos_spec(phi as int),
        sf as int == sin_spec(phi as int),
        x as int == smul(rad as int, cf as int),
        y as int == smul(rad as int, sf as int),
    ensures
        (Vec3 { x, y, z: 0i64 }) == spec_rand_disc(s0),
{
    reveal(spec_rand_disc);
}

/// Negating one side negates the fixed-point dot product.
pub proof fn lemma_sdot_neg(a: Vec3, b: Vec3)
    requires
        bounded(a, 0x4000000000000000),
    ensures
        sdot(Vec3 { x: (-a.x) as i64, y: (-a.y) as i64, z: (-a.z) as i64 }, b) == -sdot(a, b),
{
    let n = Vec3 { x: (-a.x) as i64, y: (-a.y) as i64, z: (-a.z) as i64 };
    assert(dot_raw(n, b) == -dot_raw(a, b)) by (nonlinear_arith)
        requires n.x == -a.x && n.y == -a.y && n.z == -a.z
            && dot_raw(n, b) == n.x * b.x + n.y * b.y + n.z * b.z
            && dot_raw(a, b) == a.x * b.x + a.y * b.y + a.z * b.z;
}

/// Component gamma correction: the fixed-point square root, with negative
/// intensities mapped to zero.
pub open spec fn gamma_c(x: int) -> int {
    if x < 0 { 0 } else { sqrt_floor(x * SCALE) }
}

/// Gamma correction of a whole color, in specifications.
pub open spec fn vgamma(c: Color) -> Color {
    Vec3 {
        x: gamma_c(c.x as int) as i64,
        y: gamma_c(c.y as int) as i64,
        z: gamma_c(c.z as int) as i64,
    }
}

/// Gamma-correct a linear color by component-wise square root.
pub fn linear_to_gamma(color: Color) -> (r: Color)
    requires
        bounded(color, CMAX as int),
    ensures
        r.x == gamma_c(color.x as int),
        r.y == gamma_c(color.y as int),
        r.z == gamma_c(color.z as int),
        r == vgamma(color),
        bounded(r, CMAX as int),
{
    let x = if color.x < 0 { 0 } else { fx_sqrt(color.x) };
    let y = if color.y < 0 { 0 } else { fx_sqrt(color.y) };
    let z = if color.z < 0 { 0 } else { fx_sqrt(color.z) };
    proof {
        lemma_gamma_bounded(color.x as int);
        lemma_gamma_bounded(color.y as int);
        lemma_gamma_bounded(color.z as int);
    }
    Vec3 { x, y, z }
}

/// The inverse map of the gamma correction: component-wise squaring.
pub fn gamma_to_linear(color: Color) -> (r: Color)
    requires
        bounded(color, CMAX as int),
    ensures
        r.x == smul(color.x as int, color.x as int),
        r.y == smul(color.y as int, color.y as int),
        r.z == smul(color.z as int, color.z as int),
{
    Vec3 {
        x: fx_mul(color.x, color.x),
        y: fx_mul(color.y, color.y),
        z: fx_mul(color.z, color.z),
    }
}

proof fn lemma_gamma_bounded(x: int)
    requires
        -CMAX <= x <= CMAX,
    ensures
        0 <= gamma_c(x) <= CMAX,
{
    if x >= 0 {
        let r = sqrt_floor(x * SCALE as int);
        crate::fixed::lemma_sqrt_floor_facts(x * SCALE as int);
        assert(r <= CMAX) by (nonlinear_arith)
            requires r >= 0 && r * r <= x * SCALE as int
                && x <= CMAX && SCALE < CMAX;
    }
}

/// Round trip of the gamma maps: squaring then taking the square root comes
/// back to the original intensity, short of at most the fixed-point
/// resolution lost in the squaring: the result `r` never exceeds `c`, and
/// `c^2 < (r+1)^2 + SCALE`.
pub proof fn lemma_gamma_round_trip(c: int)
    requires
        0 <= c <= SCALE,
    ensures
        gamma_c(smul(c, c)) <= c,
        c * c < (gamma_c(smul(c, c)) + 1) * (gamma_c(smul(c, c)) + 1) + SCALE,
{
    let s = SCALE as int;
    let q = smul(c, c);
    assert(c * c >= 0) by (nonlinear_arith) requires c >= 0;
    crate::fixed::lemma_tdiv_close(c * c, s);
    assert(q >= 0) by (nonlinear_arith)
        requires s > 0 && c * c >= 0 && s * q <= c * c < s * q + s;
    let r = gamma_c(q);
    crate::fixed::lemma_sqrt_floor_facts(q * s);
    assert(q * s >= 0) by (nonlinear_arith) requires q >= 0 && s > 0;
    assert(r <= c && c * c < (r + 1) * (r + 1) + s) by (nonlinear_arith)
        requires s > 0 && r >= 0 && c >= 0 && q >= 0
            && r * r <= q * s && (r + 1) * (r + 1) > q * s
            && s * q <= c * c < s * q + s;
}

/// What `reflect` returns: `v - 2 (v . n) n` over the fixed-point operations.
pub open spec fn spec_reflect(v: Vec3, normal: Vec3) -> Vec3 {
    crate::vec3::vsub(v, vsmul(normal, 2 * sdot(v, normal)))
}

/// Mirror reflection of `v` about the normal `n`.
pub fn reflect(v: Vec3, normal: Vec3) -> (r: Vec3)
    requires
        bounded(v, 4 * SCALE as int),
        bounded(normal, 2 * SCALE as int),
    ensures
        r == spec_reflect(v, normal),
        bounded(r, 1024 * SCALE as int),
{
    proof {
        crate::vec3::lemma_dot_raw_bound(v, normal, 262144);
        lemma_tdiv_bound(dot_raw(v, normal), SCALE as int, 206158430208);
    }
    let d = v.dot(normal);
    let scaled = normal.scale(2 * d);
    proof {
        crate::fixed::lemma_smul_bound(normal.x as int, 2 * d as int, 131072, 6291456,
            824633720832);
        crate::fixed::lemma_smul_bound(normal.y as int, 2 * d as int, 131072, 6291456,
            824633720832);
        crate::fixed::lemma_smul_bound(normal.z as int, 2 * d as int, 131072, 6291456,
            824633720832);
    }
    v.sub(scaled)
}

/// Snell refraction of the unit direction `v` through a surface with unit
/// normal `n` and index ratio `ratio`, written over the fixed-point
/// operations exactly as the executable code computes it.
#[verifier::opaque]
pub open spec fn spec_refract(v: Vec3, n: Vec3, ratio: int) -> Vec3 {
    let cos_theta = if sdot(Vec3 { x: (-v.x) as i64, y: (-v.y) as i64, z: (-v.z) as i64 }, n)
        >= SCALE { SCALE as int } else {
        sdot(Vec3 { x: (-v.x) as i64, y: (-v.y) as i64, z: (-v.z) as i64 }, n)
    };
    let px = smul(v.x + smul(n.x as int, cos_theta), ratio);
    let py = smul(v.y + smul(n.y as int, cos_theta), ratio);
    let pz = smul(v.z + smul(n.z as int, cos_theta), ratio);
    let perp = Vec3 { x: px as i64, y: py as i64, z: pz as i64 };
    let k = SCALE - sdot(perp, perp);
    let para0 = if k < 0 { 0 } else { sqrt_floor(k * SCALE) };
    let para = if para0 > 2 * SCALE { 2 * SCALE as int } else { para0 };
    Vec3 {
        x: (px - smul(n.x as int, para)) as i64,
        y: (py - smul(n.y as int, para)) as i64,
        z: (pz - smul(n.z as int, para)) as i64,
    }
}

/// Refract `v` about `normal` with the given index ratio.
pub fn refract(v: Vec3, normal: Vec3, ratio: i64) -> (r: Vec3)
    requires
        bounded(v, 2 * SCALE as int),
        bounded(normal, 2 * SCALE as int),
        0 <= ratio <= 16 * SCALE,
    ensures
        r == spec_refract(v, normal, ratio as int),
{
    proof {
        reveal(spec_refract);
    }
    let nv = v.neg();
    proof {
        crate::vec3::lemma_dot_raw_bound(nv, normal, 131072);
        lemma_tdiv_bound(dot_raw(nv, normal), SCALE as int, 51539607552);
    }
    let d = nv.dot(normal);
    let cos_theta = if d >= SCALE { SCALE } else { d };
    let scaled_n = normal.scale(cos_theta);
    proof {
        crate::fixed::lemma_smul_bound(normal.x as int, cos_theta as int, 131072, 786432,
            103079215104);
        crate::fixed::lemma_smul_bound(normal.y as int, cos_theta as int, 131072, 786432,
            103079215104);
        crate::fixed::lemma_smul_bound(normal.z as int, cos_theta as int, 131072, 786432,
            103079215104);
    }
    let sum = v.add(scaled_n);
    let perp = sum.scale(ratio);
    proof {
        crate::fixed::lemma_smul_bound(sum.x as int, ratio as int, 1703936, 1048576,
            1786706395136);
        crate::fixed::lemma_smul_bound(sum.y as int, ratio as int, 1703936, 1048576,
            1786706395136);
        crate::fixed::lemma_smul_bound(sum.z as int, ratio as int, 1703936, 1048576,
            1786706395136);
        crate::vec3::lemma_dot_raw_bound(perp, perp, 27262976);
        lemma_tdiv_bound(dot_raw(perp, perp), SCALE as int, 2229815406984364032);
    }
    let k = SCALE - perp.dot(perp);
    let para0 = if k < 0 { 0 } else { fx_sqrt(k) };
    let para_len = if para0 > 2 * SCALE { 2 * SCALE } else { para0 };
    let scaled_para = normal.scale(para_len);
    proof {
        crate::fixed::lemma_smul_bound(normal.x as int, para_len as int, 131072, 131072,
            17179869184);
        crate::fixed::lemma_smul_bound(normal.y as int, para_len as int, 131072, 131072,
            17179869184);
        crate::fixed::lemma_smul_bound(normal.z as int, para_len as int, 131072, 131072,
            17179869184);
    }
    perp.sub(scaled_para)
}

/// Schlick's reflectance approximation, over the fixed-point operations.
#[verifier::opaque]
pub open spec fn spec_reflectance(cosine: int, ri: int) -> int {
    let r0a = clip(sdiv(SCALE - ri, SCALE + ri), SCALE as int);
    let r0 = smul(r0a, r0a);
    let u = SCALE - cosine;
    let p2 = smul(u, u);
    let p4 = smul(p2, p2);
    let p5 = smul(p4, u);
    r0 + smul(SCALE - r0, p5)
}

/// Schlick's polynomial approximation of the Fresnel reflectance.
pub fn reflectance(cosine: i64, refraction_index: i64) -> (r: i64)
    requires
        -16 * SCALE <= cosine <= SCALE,
        0 < refraction_index <= 16 * SCALE,
    ensures
        r == spec_reflectance(cosine as int, refraction_index as int),
{
    proof {
        reveal(spec_reflectance);
    }
    let r0a = crate::fixed::fx_div_sat(SCALE - refraction_index, SCALE + refraction_index, SCALE);
    let r0 = fx_mul(r0a, r0a);
    proof {
        crate::fixed::lemma_smul_bound(r0a as int, r0a as int, 65536, 65536, 4294967296);
    }
    let u = SCALE - cosine;
    let p2 = fx_mul(u, u);
    proof {
        crate::fixed::lemma_smul_bound(u as int, u as int, 1114112, 1114112, 1241245548544);
    }
    let p4 = fx_mul(p2, p2);
    proof {
        crate::fixed::lemma_smul_bound(p2 as int, p2 as int, 18939904, 18939904, 358719963529216);
        crate::fixed::lemma_smul_bound(p4 as int, u as int, 5473632256, 1114112, 6098239379996672);
    }
    let p5 = fx_mul(p4, u);
    proof {
        crate::fixed::lemma_smul_bound((SCALE - r0) as int, p5 as int, 131072, 93051748352,
            12196478759993344);
    }
    r0 + fx_mul(SCALE - r0, p5)
}

} // verus!
