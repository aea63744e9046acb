//! Planar parametric quadrilaterals.

use vstd::prelude::*;
use crate::aabb::{box_contains, box_wf, Aabb};
use crate::fixed::{clip, lemma_mul_bound, tdiv, CMAX, SCALE, TMAX};
use crate::hittable::{rec_wf, spec_face_rec, HitRecord};
use crate::material::MaterialRef;
use crate::ray::{ray_wf, spec_at, Ray};
use crate::texture::TexCoord;
use crate::util::Interval;
use crate::vec3::{bounded, dot_raw, spec_normalize, vadd, Vec3};

verus! {

/// Bound on a quad's corner and edge coordinates (value range +/- 1024).
pub const QMAX: i64 = 67108864;

pub struct Quad {
    pub starting_corner: Vec3,
    pub u: Vec3,
    pub v: Vec3,
    pub material: MaterialRef,
    /// The plane vector `u x v` at the fixed-point scale.
    pub n: Vec3,
    /// The unit surface normal (zero for a degenerate quad).
    pub normal: Vec3,
    pub bounding_box: Aabb,
}

/// The fixed-point cross product, as `Vec3::cross` computes it.
pub open spec fn spec_cross(a: Vec3, b: Vec3) -> Vec3 {
    Vec3 {
        x: tdiv(a.y * b.z - a.z * b.y, SCALE as int) as i64,
        y: tdiv(a.z * b.x - a.x * b.z, SCALE as int) as i64,
        z: tdiv(a.x * b.y - a.y * b.x, SCALE as int) as i64,
    }
}

/// The exact (unreduced) cross product of raw components, one coordinate.
pub open spec fn cross_raw_x(a: Vec3, b: Vec3) -> int { a.y * b.z - a.z * b.y }
pub open spec fn cross_raw_y(a: Vec3, b: Vec3) -> int { a.z * b.x - a.x * b.z }
pub open spec fn cross_raw_z(a: Vec3, b: Vec3) -> int { a.x * b.y - a.y * b.x }

pub open spec fn quad_wf(q: Quad) -> bool {
    &&& bounded(q.starting_corner, QMAX as int)
    &&& bounded(q.u, QMAX as int)
    &&& bounded(q.v, QMAX as int)
    &&& q.n == spec_cross(q.u, q.v)
    &&& bounded(q.normal, 2 * SCALE as int)
    &&& box_wf(q.bounding_box)
}

/// The quad intersection: plane hit by the exact integer plane equation,
/// accepted when the planar coordinates `(alpha, beta)` both lie in `[0, 1]`
/// and the hit stays inside the quad's bounding box.
#[verifier::opaque]
pub open spec fn spec_quad_hit(q: Quad, ray: Ray, tmin: int, tmax: int) -> Option<HitRecord> {
    let denom = dot_raw(q.n, ray.direction);
    if denom == 0 {
        None
    } else {
        let big_d = dot_raw(q.n, q.starting_corner);
        let num = big_d - dot_raw(q.n, ray.origin);
        let t = clip(tdiv(num * SCALE, denom), TMAX as int);
        if !(tmin <= t <= tmax) {
            None
        } else {
            let p = spec_at(ray, t);
            let dp = Vec3 {
                x: (p.x - q.starting_corner.x) as i64,
                y: (p.y - q.starting_corner.y) as i64,
                z: (p.z - q.starting_corner.z) as i64,
            };
            let nn = dot_raw(q.n, q.n);
            let alpha = tdiv(
                q.n.x * cross_raw_x(dp, q.v) + q.n.y * cross_raw_y(dp, q.v)
                    + q.n.z * cross_raw_z(dp, q.v),
                nn,
            );
            let beta = tdiv(
                q.n.x * cross_raw_x(q.u, dp) + q.n.y * cross_raw_y(q.u, dp)
                    + q.n.z * cross_raw_z(q.u, dp),
                nn,
            );
            if 0 <= alpha <= SCALE && 0 <= beta <= SCALE && box_contains(q.bounding_box, p) {
                Some(spec_face_rec(ray, t as i64, p,
                    TexCoord { u: alpha as i64, v: beta as i64 }, q.normal, q.material))
            } else {
                None
            }
        }
    }
}

impl Quad {
    /// A quad from a corner and two edge vectors. A degenerate quad (edges
    /// parallel at the fixed-point resolution) is constructed but can never
    /// be hit.
    pub fn new(starting_corner: Vec3, u: Vec3, v: Vec3, material: MaterialRef) -> (r: Self)
        requires
            bounded(starting_corner, QMAX as int),
            bounded(u, QMAX as int),
            bounded(v, QMAX as int),
        ensures
            r.starting_corner == starting_corner,
            r.u == u,
            r.v == v,
            r.material == material,
            r.n == spec_cross(u, v),
            r.normal == if spec_cross(u, v) == (Vec3 { x: 0i64, y: 0i64, z: 0i64 }) {
                Vec3 { x: 0i64, y: 0i64, z: 0i64 }
            } else {
                spec_normalize(spec_cross(u, v))
            },
            r.bounding_box == Aabb::spec_combine(
                crate::aabb::spec_span(starting_corner, vadd(vadd(starting_corner, u), v)),
                crate::aabb::spec_span(vadd(starting_corner, u), vadd(starting_corner, v))),
            quad_wf(r),
    {
        let corner2 = starting_corner.add(u).add(v);
        let box1 = Aabb::span_points(starting_corner, corner2);
        let box2 = Aabb::span_points(starting_corner.add(u), starting_corner.add(v));
        let bbox = Aabb::combine(box1, box2);
        let n = u.cross(v);
        proof {
            lemma_mul_bound(u.y as int, v.z as int, QMAX as int, QMAX as int);
            crate::fixed::lemma_smul_bound(u.y as int, v.z as int, 67108864, 67108864,
                4503599627370496);
            crate::fixed::lemma_smul_bound(u.z as int, v.y as int, 67108864, 67108864,
                4503599627370496);
            crate::fixed::lemma_smul_bound(u.z as int, v.x as int, 67108864, 67108864,
                4503599627370496);
            crate::fixed::lemma_smul_bound(u.x as int, v.z as int, 67108864, 67108864,
                4503599627370496);
            crate::fixed::lemma_smul_bound(u.x as int, v.y as int, 67108864, 67108864,
                4503599627370496);
            crate::fixed::lemma_smul_bound(u.y as int, v.x as int, 67108864, 67108864,
                4503599627370496);
            crate::fixed::lemma_tdiv_bound(u.y as int * v.z as int - u.z as int * v.y as int,
                SCALE as int, 9007199254740992);
            crate::fixed::lemma_tdiv_bound(u.z as int * v.x as int - u.x as int * v.z as int,
                SCALE as int, 9007199254740992);
            crate::fixed::lemma_tdiv_bound(u.x as int * v.y as int - u.y as int * v.x as int,
                SCALE as int, 9007199254740992);
        }
        let normal = if n.near_zero() {
            Vec3::zero()
        } else {
            proof {
                crate::vec3::lemma_nonzero_dot(n);
            }
            n.normalize()
        };
        Quad {
            starting_corner,
            u,
            v,
            material,
            n,
            normal,
            bounding_box: bbox,
        }
    }

    pub fn bounding_box(&self) -> (r: Aabb)
        ensures
            r == self.bounding_box,
    {
        self.bounding_box
    }

    /// Intersect the ray with the quad over the allowed parameter range.
    #[verifier::rlimit(100)]
    pub fn hit(&self, ray: &Ray, allowed_t: Interval) -> (r: Option<HitRecord>)
        requires
            quad_wf(*self),
            ray_wf(*ray),
            -TMAX <= allowed_t.0,
            allowed_t.1 <= TMAX,
        ensures
            r == spec_quad_hit(*self, *ray, allowed_t.0 as int, allowed_t.1 as int),
            match r {
                Some(rec) => box_contains(self.bounding_box, spec_at(*ray, rec.t as int))
                    && allowed_t.0 <= rec.t <= allowed_t.1
                    && rec_wf(rec),
                None => true,
            },
    {
        proof {
            reveal(spec_quad_hit);
            lemma_n_bounded(*self);
            crate::vec3::lemma_dot_raw_bound(self.n, ray.direction, 9007199254740992);
        }
        let denom = self.n.dot_wide(ray.direction);
        if denom == 0 {
            return None;
        }
        let big_d = self.n.dot_wide(self.starting_corner);
        let no = self.n.dot_wide(ray.origin);
        proof {
            crate::vec3::lemma_dot_raw_bound(self.n, self.starting_corner, 9007199254740992);
            crate::vec3::lemma_dot_raw_bound(self.n, ray.origin, 9007199254740992);
        }
        let num = big_d - no;
        proof {
            lemma_mul_bound(num as int, SCALE as int, 486777830487640090174734030864384int,
                SCALE as int);
        }
        let (nn, dd): (i128, i128) = if denom < 0 { (-num, -denom) } else { (num, denom) };
        proof {
            assert(tdiv(nn as int * SCALE as int, dd as int)
                == tdiv(num as int * SCALE as int, denom as int)) by {
                assert(nn as int * SCALE as int == if denom < 0 { -(num as int * SCALE as int) }
                    else { num as int * SCALE as int }) by (nonlinear_arith)
                    requires nn as int == if denom < 0 { -(num as int) } else { num as int };
            }
        }
        let t = clip_t(crate::fixed::div_i128(nn * (SCALE as i128), dd));
        if !(allowed_t.0 <= t && t <= allowed_t.1) {
            return None;
        }
        let p = ray.at(t);
        let dp = p.sub(self.starting_corner);
        let nnself = self.n.dot_wide(self.n);
        proof {
            crate::vec3::lemma_dot_raw_bound(self.n, self.n, 9007199254740992);
            assert(!(self.n.x == 0 && self.n.y == 0 && self.n.z == 0)) by (nonlinear_arith)
                requires dot_raw(self.n, ray.direction) != 0
                    && dot_raw(self.n, ray.direction) == self.n.x * ray.direction.x
                        + self.n.y * ray.direction.y + self.n.z * ray.direction.z;
            crate::vec3::lemma_nonzero_dot(self.n);
            lemma_cross_term_bounds(dp, self.v);
            lemma_cross_term_bounds(self.u, dp);
        }
        let cx1 = cross_wide_x(dp, self.v);
        let cy1 = cross_wide_y(dp, self.v);
        let cz1 = cross_wide_z(dp, self.v);
        proof {
            lemma_alpha_bounds(self.n, cx1 as int, cy1 as int, cz1 as int);
        }
        let num_a: i128 = (self.n.x as i128) * cx1 + (self.n.y as i128) * cy1
            + (self.n.z as i128) * cz1;
        let alpha = crate::fixed::div_i128(num_a, nnself);
        let cx2 = cross_wide_x(self.u, dp);
        let cy2 = cross_wide_y(self.u, dp);
        let cz2 = cross_wide_z(self.u, dp);
        proof {
            lemma_alpha_bounds(self.n, cx2 as int, cy2 as int, cz2 as int);
        }
        let num_b: i128 = (self.n.x as i128) * cx2 + (self.n.y as i128) * cy2
            + (self.n.z as i128) * cz2;
        let beta = crate::fixed::div_i128(num_b, nnself);
        if 0 <= alpha && alpha <= SCALE as i128 && 0 <= beta && beta <= SCALE as i128
            && self.bounding_box.contains_point(p) {
            let uv = TexCoord::new(alpha as i64, beta as i64);
            Some(HitRecord::with_face_normal(*ray, t, p, uv, self.normal, self.material))
        } else {
            None
        }
    }
}

/// A well-formed quad's plane vector is bounded by the cross-product bound.
proof fn lemma_n_bounded(q: Quad)
    requires
        quad_wf(q),
    ensures
        bounded(q.n, 9007199254740992),
{
    crate::fixed::lemma_smul_bound(q.u.y as int, q.v.z as int, 67108864, 67108864,
        4503599627370496);
    crate::fixed::lemma_smul_bound(q.u.z as int, q.v.y as int, 67108864, 67108864,
        4503599627370496);
    crate::fixed::lemma_smul_bound(q.u.z as int, q.v.x as int, 67108864, 67108864,
        4503599627370496);
    crate::fixed::lemma_smul_bound(q.u.x as int, q.v.z as int, 67108864, 67108864,
        4503599627370496);
    crate::fixed::lemma_smul_bound(q.u.x as int, q.v.y as int, 67108864, 67108864,
        4503599627370496);
    crate::fixed::lemma_smul_bound(q.u.y as int, q.v.x as int, 67108864, 67108864,
        4503599627370496);
    crate::fixed::lemma_tdiv_bound(q.u.y as int * q.v.z as int - q.u.z as int * q.v.y as int,
        SCALE as int, 9007199254740992);
    crate::fixed::lemma_tdiv_bound(q.u.z as int * q.v.x as int - q.u.x as int * q.v.z as int,
        SCALE as int, 9007199254740992);
    crate::fixed::lemma_tdiv_bound(q.u.x as int * q.v.y as int - q.u.y as int * q.v.x as int,
        SCALE as int, 9007199254740992);
}

/// Bounds for exact cross products of a hit offset against an edge.
proof fn lemma_cross_term_bounds(a: Vec3, b: Vec3)
    requires
        bounded(a, 2147483648),
        bounded(b, 2147483648),
    ensures
        -9223372036854775808 <= cross_raw_x(a, b) <= 9223372036854775808,
        -9223372036854775808 <= cross_raw_y(a, b) <= 9223372036854775808,
        -9223372036854775808 <= cross_raw_z(a, b) <= 9223372036854775808,
{
    lemma_mul_bound(a.y as int, b.z as int, 2147483648, 2147483648);
    lemma_mul_bound(a.z as int, b.y as int, 2147483648, 2147483648);
    lemma_mul_bound(a.z as int, b.x as int, 2147483648, 2147483648);
    lemma_mul_bound(a.x as int, b.z as int, 2147483648, 2147483648);
    lemma_mul_bound(a.x as int, b.y as int, 2147483648, 2147483648);
    lemma_mul_bound(a.y as int, b.x as int, 2147483648, 2147483648);
}

/// Bounds for the planar-coordinate numerators.
proof fn lemma_alpha_bounds(n: Vec3, cx: int, cy: int, cz: int)
    requires
        bounded(n, 9007199254740992),
        -9223372036854775808 <= cx <= 9223372036854775808,
        -9223372036854775808 <= cy <= 9223372036854775808,
        -9223372036854775808 <= cz <= 9223372036854775808,
    ensures
        -249230249209671726169463823802564608 <= n.x * cx + n.y * cy + n.z * cz <= 249230249209671726169463823802564608,
        -83076749736557242056487941267521536 <= n.x * cx <= 83076749736557242056487941267521536,
        -83076749736557242056487941267521536 <= n.y * cy <= 83076749736557242056487941267521536,
        -83076749736557242056487941267521536 <= n.z * cz <= 83076749736557242056487941267521536,
{
    lemma_mul_bound(n.x as int, cx, 9007199254740992, 9223372036854775808);
    lemma_mul_bound(n.y as int, cy, 9007199254740992, 9223372036854775808);
    lemma_mul_bound(n.z as int, cz, 9007199254740992, 9223372036854775808);
}

fn cross_wide_x(a: Vec3, b: Vec3) -> (r: i128)
    requires
        bounded(a, 2147483648),
        bounded(b, 2147483648),
    ensures
        r == cross_raw_x(a, b),
{
    proof {
        lemma_mul_bound(a.y as int, b.z as int, 2147483648, 2147483648);
        lemma_mul_bound(a.z as int, b.y as int, 2147483648, 2147483648);
    }
    (a.y as i128) * (b.z as i128) - (a.z as i128) * (b.y as i128)
}

fn cross_wide_y(a: Vec3, b: Vec3) -> (r: i128)
    requires
        bounded(a, 2147483648),
        bounded(b, 2147483648),
    ensures
        r == cross_raw_y(a, b),
{
    proof {
        lemma_mul_bound(a.z as int, b.x as int, 2147483648, 2147483648);
        lemma_mul_bound(a.x as int, b.z as int, 2147483648, 2147483648);
    }
    (a.z as i128) * (b.x as i128) - (a.x as i128) * (b.z as i128)
}

fn cross_wide_z(a: Vec3, b: Vec3) -> (r: i128)
    requires
        bounded(a, 2147483648),
        bounded(b, 2147483648),
    ensures
        r == cross_raw_z(a, b),
{
    proof {
        lemma_mul_bound(a.x as int, b.y as int, 2147483648, 2147483648);
        lemma_mul_bound(a.y as int, b.x as int, 2147483648, 2147483648);
    }
    (a.x as i128) * (b.y as i128) - (a.y as i128) * (b.x as i128)
}

/// Saturate a wide quotient into the ray-parameter range.
fn clip_t(q: i128) -> (r: i64)
    ensures
        r == clip(q as int, TMAX as int),
{
    if q > TMAX as i128 {
        TMAX
    } else if q < -(TMAX as i128) {
        -TMAX
    } else {
        q as i64
    }
}

} // verus!
