//! Spheres, stationary or moving linearly over the exposure time.

use vstd::prelude::*;
use crate::aabb::{box_contains, box_wf, Aabb};
use crate::fixed::{
    clip, isqrt, lemma_mul_bound, lemma_smul_unit_signed, sdiv, smul, sqrt_floor, tdiv, CMAX,
    SCALE, SMAX, TMAX,
};
use crate::hittable::{rec_wf, spec_face_rec, HitRecord};
use crate::material::MaterialRef;
use crate::ray::{ray_wf, spec_at, Ray};
use crate::texture::TexCoord;
use crate::trig::{turn_frac, turn_frac_spec};
use crate::util::Interval;
use crate::vec3::{bounded, dot_raw, vadd, vsmul, vsub, Vec3};

verus! {

#[derive(Clone, Copy)]
pub struct Sphere {
    pub start_center: Vec3,
    pub move_dir: Vec3,
    pub radius: i64,
    pub material: MaterialRef,
    pub bounding_box: Aabb,
}

/// The shape of every constructed sphere: centers and radius in the scene
/// range, a well-formed bounding box.
pub open spec fn sphere_wf(s: Sphere) -> bool {
    &&& bounded(s.start_center, SMAX as int)
    &&& bounded(vadd(s.start_center, s.move_dir), SMAX as int)
    &&& bounded(s.move_dir, 2 * SMAX as int)
    &&& 0 < s.radius <= SMAX
    &&& box_wf(s.bounding_box)
}

/// The center at a ray time in `[0, 1)`: linear motion from the start center.
pub open spec fn spec_center(s: Sphere, time: i64) -> Vec3 {
    vadd(s.start_center, vsmul(s.move_dir, time as int))
}

/// The texture coordinate of a point on the unit sphere: the longitude as a
/// fraction of a full turn (shifted so the negative x axis is the seam) and
/// the colatitude as a fraction of a half turn.
pub open spec fn spec_uv(p: Vec3) -> TexCoord {
    let u = (turn_frac_spec(-p.z, p.x as int) + 32768) % 65536;
    let w = clip(-p.y, SCALE as int);
    let sq = sqrt_floor(SCALE as int * SCALE as int - w * w);
    let v = 2 * turn_frac_spec(sq, w);
    TexCoord { u: u as i64, v: v as i64 }
}

/// The sphere intersection: the reduced quadratic, preferring the nearer
/// admissible root, with the hit rejected if its position escapes the
/// sphere's bounding box.
#[verifier::opaque]
pub open spec fn spec_sphere_hit(s: Sphere, ray: Ray, tmin: int, tmax: int)
    -> Option<HitRecord> {
    let center = spec_center(s, ray.time);
    let oc = vsub(ray.origin, center);
    let a2 = dot_raw(ray.direction, ray.direction);
    let hb2 = dot_raw(oc, ray.direction);
    let c2 = dot_raw(oc, oc) - s.radius * s.radius;
    let disc = hb2 * hb2 - a2 * c2;
    if disc < 0 || a2 == 0 {
        None
    } else {
        let sq = sqrt_floor(disc);
        let root1 = clip(tdiv((-hb2 - sq) * SCALE, a2), TMAX as int);
        let root2 = clip(tdiv((-hb2 + sq) * SCALE, a2), TMAX as int);
        let root = if tmin < root1 < tmax { root1 } else { root2 };
        if !(tmin < root < tmax) {
            None
        } else {
            let position = spec_at(ray, root);
            let outward = Vec3 {
                x: clip(sdiv(position.x - center.x, s.radius as int), 2 * SCALE as int) as i64,
                y: clip(sdiv(position.y - center.y, s.radius as int), 2 * SCALE as int) as i64,
                z: clip(sdiv(position.z - center.z, s.radius as int), 2 * SCALE as int) as i64,
            };
            if box_contains(s.bounding_box, position) {
                Some(spec_face_rec(ray, root as i64, position, spec_uv(outward), outward,
                    s.material))
            } else {
                None
            }
        }
    }
}

/// The spherical texture mapping sends the six axis directions to their
/// canonical coordinates: the positive x axis to the map's center, the poles
/// to the top and bottom edges, and the remaining axes a quarter turn apart.
pub proof fn lemma_uv_axis_points()
    ensures
        spec_uv(Vec3 { x: SCALE, y: 0i64, z: 0i64 }) == (TexCoord { u: 32768i64, v: 32768i64 }),
        spec_uv(Vec3 { x: 0i64, y: SCALE, z: 0i64 }) == (TexCoord { u: 32768i64, v: SCALE }),
        spec_uv(Vec3 { x: 0i64, y: 0i64, z: SCALE }) == (TexCoord { u: 16384i64, v: 32768i64 }),
        spec_uv(Vec3 { x: (-SCALE) as i64, y: 0i64, z: 0i64 })
            == (TexCoord { u: 0i64, v: 32768i64 }),
        spec_uv(Vec3 { x: 0i64, y: (-SCALE) as i64, z: 0i64 })
            == (TexCoord { u: 32768i64, v: 0i64 }),
        spec_uv(Vec3 { x: 0i64, y: 0i64, z: (-SCALE) as i64 })
            == (TexCoord { u: 49152i64, v: 32768i64 }),
{
    reveal(crate::trig::turn_frac_spec);
    reveal(crate::trig::atan_frac_spec);
    lemma_sqrt_value(0, 0);
    assert(65536 * 65536 == 4294967296) by (nonlinear_arith);
    lemma_sqrt_value(4294967296, 65536);
    assert(SCALE as int * SCALE as int - 65536 * 65536 == 0) by (nonlinear_arith);
    assert(crate::fixed::sdiv(0, 65536) == 0);
    assert(crate::trig::atan_frac_spec(0) == 0) by {
        reveal(crate::trig::atan_frac_spec);
        assert(2847 * 0 == 0) by (nonlinear_arith);
        assert(crate::fixed::smul(0, 65536) == 0);
        assert(crate::fixed::smul(2847, 0) == 0);
    }
    assert(crate::trig::turn_frac_spec(0, 65536) == 0);
    assert(crate::trig::turn_frac_spec(65536, 0) == 16384);
    assert(crate::trig::turn_frac_spec(-65536, 0) == 49152);
    assert(crate::trig::turn_frac_spec(0, -65536) == 32768);
    assert((0int + 32768int) % 65536int == 32768int);
    assert((16384int + 32768int) % 65536int == 49152int);
    assert((49152int + 32768int) % 65536int == 16384int);
    assert((32768int + 32768int) % 65536int == 0int);
    assert((-65536int) * (-65536int) == 4294967296) by (nonlinear_arith);
    assert(0int * 0int == 0) by (nonlinear_arith);
    assert(clip(-65536, SCALE as int) == -65536);
    assert(clip(65536, SCALE as int) == 65536);
    assert(clip(0, SCALE as int) == 0);
    assert(sqrt_floor(SCALE as int * SCALE as int - 0int * 0int) == 65536);
    assert(sqrt_floor(SCALE as int * SCALE as int - (-65536int) * (-65536int)) == 0);
    assert(sqrt_floor(SCALE as int * SCALE as int - 65536int * 65536int) == 0);
}

/// Pin the square-root floor of a perfect square.
proof fn lemma_sqrt_value(x: int, r: int)
    requires
        0 <= r,
        r * r == x,
    ensures
        crate::fixed::sqrt_floor(x) == r,
{
    crate::fixed::lemma_sqrt_floor_facts(x);
    let q = crate::fixed::sqrt_floor(x);
    assert(q == r) by (nonlinear_arith)
        requires q >= 0 && r >= 0 && q * q <= x && (q + 1) * (q + 1) > x && r * r == x;
}


/// The head-on scenario, derived from the contracts alone: a half-unit
/// sphere at the origin (as `stationary` builds it) and a ray from one unit
/// out on the z axis looking inward meet at t = 0.5, on the near pole, front
/// face, with the outward normal along +z and its canonical texture seam.
pub proof fn lemma_head_on_sphere_hit(m: MaterialRef)
    ensures
        ({
            let s = Sphere {
                start_center: Vec3 { x: 0i64, y: 0i64, z: 0i64 },
                move_dir: Vec3 { x: 0i64, y: 0i64, z: 0i64 },
                radius: 32768i64,
                material: m,
                bounding_box: crate::aabb::spec_span(
                    Vec3 { x: (-32768) as i64, y: (-32768) as i64, z: (-32768) as i64 },
                    Vec3 { x: 32768i64, y: 32768i64, z: 32768i64 }),
            };
            let ray = Ray {
                origin: Vec3 { x: 0i64, y: 0i64, z: SCALE },
                direction: Vec3 { x: 0i64, y: 0i64, z: (-SCALE) as i64 },
                time: 0i64,
            };
            spec_sphere_hit(s, ray, 66, TMAX as int) == Some(HitRecord {
                position: Vec3 { x: 0i64, y: 0i64, z: 32768i64 },
                normal: Vec3 { x: 0i64, y: 0i64, z: SCALE },
                t: 32768i64,
                front_face: true,
                uv: TexCoord { u: 16384i64, v: 32768i64 },
                material: m,
            })
        }),
{
    reveal(spec_sphere_hit);
    let s = Sphere {
        start_center: Vec3 { x: 0i64, y: 0i64, z: 0i64 },
        move_dir: Vec3 { x: 0i64, y: 0i64, z: 0i64 },
        radius: 32768i64,
        material: m,
        bounding_box: crate::aabb::spec_span(
            Vec3 { x: (-32768) as i64, y: (-32768) as i64, z: (-32768) as i64 },
            Vec3 { x: 32768i64, y: 32768i64, z: 32768i64 }),
    };
    let ray = Ray {
        origin: Vec3 { x: 0i64, y: 0i64, z: SCALE },
        direction: Vec3 { x: 0i64, y: 0i64, z: (-SCALE) as i64 },
        time: 0i64,
    };
    assert(0int * 0int == 0 && 65536int * 0int == 0 && 0int * 65536int == 0)
        by (nonlinear_arith);
    let center = spec_center(s, ray.time);
    assert(crate::fixed::smul(0, 0) == 0);
    assert(center == (Vec3 { x: 0i64, y: 0i64, z: 0i64 }));
    let oc = vsub(ray.origin, center);
    assert(oc == (Vec3 { x: 0i64, y: 0i64, z: SCALE }));
    assert((-65536int) * (-65536int) == 4294967296
        && 65536int * (-65536int) == -4294967296
        && 65536int * 65536int == 4294967296
        && 32768int * 32768int == 1073741824) by (nonlinear_arith);
    let a2 = dot_raw(ray.direction, ray.direction);
    let hb2 = dot_raw(oc, ray.direction);
    let c2 = dot_raw(oc, oc) - s.radius * s.radius;
    assert(a2 == 4294967296 && hb2 == -4294967296 && c2 == 3221225472);
    let disc = hb2 * hb2 - a2 * c2;
    assert((-4294967296int) * (-4294967296int) == 18446744073709551616
        && 4294967296int * 3221225472int == 13835058055282163712) by (nonlinear_arith);
    assert(disc == 4611686018427387904);
    assert(2147483648int * 2147483648int == 4611686018427387904) by (nonlinear_arith);
    lemma_sqrt_value(4611686018427387904, 2147483648);
    let sq = sqrt_floor(disc);
    assert(sq == 2147483648);
    assert((4294967296int - 2147483648int) * 65536int == 140737488355328)
        by (nonlinear_arith);
    assert(tdiv(140737488355328, 4294967296) == 32768) by {
        assert(140737488355328int / 4294967296int == 32768) by (nonlinear_arith);
    }
    let root1 = clip(tdiv((-hb2 - sq) * SCALE, a2), TMAX as int);
    assert(root1 == 32768);
    assert(crate::fixed::smul(32768, -65536) == -32768) by {
        assert(32768int * (-65536int) == -2147483648) by (nonlinear_arith);
        assert(tdiv(-2147483648, 65536) == -32768) by {
            assert(2147483648int / 65536int == 32768) by (nonlinear_arith);
        }
    }
    assert(crate::fixed::smul(32768, 0) == 0) by {
        assert(32768int * 0int == 0) by (nonlinear_arith);
    }
    let position = crate::ray::spec_at(ray, 32768);
    assert(position == (Vec3 { x: 0i64, y: 0i64, z: 32768i64 }));
    assert(sdiv(32768, 32768) == 65536) by {
        assert(32768int * 65536int == 2147483648) by (nonlinear_arith);
        assert(tdiv(2147483648, 32768) == 65536) by {
            assert(2147483648int / 32768int == 65536) by (nonlinear_arith);
        }
    }
    assert(box_contains(s.bounding_box, position));
    lemma_uv_axis_points();
    assert(spec_uv(Vec3 { x: 0i64, y: 0i64, z: SCALE })
        == (TexCoord { u: 16384i64, v: 32768i64 }));
    assert(crate::vec3::sdot(ray.direction, Vec3 { x: 0i64, y: 0i64, z: SCALE }) == -65536) by {
        assert(tdiv(-4294967296, 65536) == -65536) by {
            assert(4294967296int / 65536int == 65536) by (nonlinear_arith);
        }
    }
}

impl Sphere {
    /// A sphere fixed at `center`.
    pub fn stationary(center: Vec3, radius: i64, material: MaterialRef) -> (r: Self)
        requires
            bounded(center, SMAX as int),
            0 < radius <= SMAX,
        ensures
            r.start_center == center,
            r.move_dir == (Vec3 { x: 0i64, y: 0i64, z: 0i64 }),
            r.radius == radius,
            r.material == material,
            r.bounding_box == crate::aabb::spec_span(
                vsub(center, Vec3 { x: radius, y: radius, z: radius }),
                vadd(center, Vec3 { x: radius, y: radius, z: radius })),
            sphere_wf(r),
    {
        let r_vec = Vec3::new(radius, radius, radius);
        let bounding_box = Aabb::span_points(center.sub(r_vec), center.add(r_vec));
        let s = Sphere {
            start_center: center,
            move_dir: Vec3::zero(),
            radius,
            material,
            bounding_box,
        };
        proof {
            assert(vadd(s.start_center, s.move_dir) == s.start_center);
        }
        s
    }

    /// A sphere moving linearly from `start_center` to `end_center` as the
    /// ray time runs over the exposure.
    pub fn moving(start_center: Vec3, end_center: Vec3, radius: i64, material: MaterialRef)
        -> (r: Self)
        requires
            bounded(start_center, SMAX as int),
            bounded(end_center, SMAX as int),
            0 < radius <= SMAX,
        ensures
            r.start_center == start_center,
            r.move_dir == vsub(end_center, start_center),
            r.radius == radius,
            r.material == material,
            r.bounding_box == Aabb::spec_combine(
                crate::aabb::spec_span(
                    vsub(start_center, Vec3 { x: radius, y: radius, z: radius }),
                    vadd(start_center, Vec3 { x: radius, y: radius, z: radius })),
                crate::aabb::spec_span(
                    vsub(end_center, Vec3 { x: radius, y: radius, z: radius }),
                    vadd(end_center, Vec3 { x: radius, y: radius, z: radius }))),
            sphere_wf(r),
    {
        let r_vec = Vec3::new(radius, radius, radius);
        let box1 = Aabb::span_points(start_center.sub(r_vec), start_center.add(r_vec));
        let box2 = Aabb::span_points(end_center.sub(r_vec), end_center.add(r_vec));
        let bounding_box = Aabb::combine(box1, box2);
        let s = Sphere {
            start_center,
            move_dir: end_center.sub(start_center),
            radius,
            material,
            bounding_box,
        };
        proof {
            assert(vadd(s.start_center, s.move_dir) == end_center);
        }
        s
    }

    /// Where the center is at a ray time.
    pub fn get_center(&self, time: i64) -> (r: Vec3)
        requires
            sphere_wf(*self),
            0 <= time <= SCALE,
        ensures
            r == spec_center(*self, time),
            bounded(r, SMAX as int),
    {
        proof {
            lemma_smul_unit_signed(self.move_dir.x as int, time as int);
            lemma_smul_unit_signed(self.move_dir.y as int, time as int);
            lemma_smul_unit_signed(self.move_dir.z as int, time as int);
        }
        let delta = self.move_dir.scale(time);
        let r = self.start_center.add(delta);
        proof {
            assert(r == spec_center(*self, time));
        }
        r
    }

    /// Spherical texture coordinates for a unit outward normal.
    pub fn get_uv_for_point(point: Vec3) -> (r: TexCoord)
        requires
            bounded(point, 2 * SCALE as int),
        ensures
            r == spec_uv(point),
            0 <= r.u < SCALE,
            0 <= r.v <= SCALE,
    {
        let u0 = turn_frac(-point.z, point.x);
        let u = (u0 + 32768) % 65536;
        proof {
            assert(u == (u0 + 32768) as int % 65536int);
        }
        let w = if -point.y > SCALE {
            SCALE
        } else if -point.y < -SCALE {
            -SCALE
        } else {
            -point.y
        };
        proof {
            assert(SCALE as int * SCALE as int == 4294967296) by (nonlinear_arith);
            lemma_mul_bound(w as int, w as int, SCALE as int, SCALE as int);
        }
        let s2 = SCALE * SCALE - w * w;
        proof {
            assert(w as int * w as int >= 0) by (nonlinear_arith);
        }
        let squ = isqrt(s2 as u128);
        proof {
            assert(s2 as u128 <= 4294967296);
            assert(squ as int * squ as int <= 4294967296);
            assert(squ <= 65536) by (nonlinear_arith)
                requires squ as int * squ as int <= 4294967296;
        }
        let sq = squ as i64;
        let v = 2 * turn_frac(sq, w);
        proof {
            assert(v <= SCALE);
        }
        TexCoord { u, v }
    }

    pub fn bounding_box(&self) -> (r: Aabb)
        ensures
            r == self.bounding_box,
    {
        self.bounding_box
    }

    /// Intersect the ray with the sphere over the allowed parameter range:
    /// the nearer admissible quadratic root wins, and a root whose computed
    /// position leaves the sphere's box at the fixed-point resolution is
    /// treated as a miss.
    #[verifier::rlimit(100)]
    pub fn hit(&self, ray: &Ray, allowed_t: Interval) -> (r: Option<HitRecord>)
        requires
            sphere_wf(*self),
            ray_wf(*ray),
            -TMAX <= allowed_t.0,
            allowed_t.1 <= TMAX,
        ensures
            r == spec_sphere_hit(*self, *ray, allowed_t.0 as int, allowed_t.1 as int),
            match r {
                Some(rec) => box_contains(self.bounding_box, spec_at(*ray, rec.t as int))
                    && allowed_t.0 < rec.t < allowed_t.1
                    && rec_wf(rec),
                None => true,
            },
    {
        proof {
            reveal(spec_sphere_hit);
        }
        let center = self.get_center(ray.time);
        let oc = ray.origin.sub(center);
        proof {
            assert(bounded(oc, 0x80000000));
        }
        let a2 = ray.direction.dot_wide(ray.direction);
        let hb2 = oc.dot_wide(ray.direction);
        let oc2 = oc.dot_wide(oc);
        proof {
            crate::vec3::lemma_dot_raw_bound(ray.direction, ray.direction, 1610611824);
            crate::vec3::lemma_dot_raw_bound(oc, ray.direction, 1610611824);
            crate::vec3::lemma_dot_raw_bound(oc, oc, 1610611824);
            lemma_mul_bound(self.radius as int, self.radius as int, 536870000, 536870000);
        }
        let c2: i128 = oc2 - (self.radius as i128) * (self.radius as i128);
        proof {
            lemma_mul_bound(hb2 as int, hb2 as int, 7782211342825820928,
                7782211342825820928);
            lemma_mul_bound(a2 as int, c2 as int, 7782211342825820928,
                8070440739725820928);
        }
        let disc: i128 = hb2 * hb2 - a2 * c2;
        if disc < 0 || a2 == 0 {
            return None;
        }
        proof {
            assert(dot_raw(ray.direction, ray.direction) >= 0) by (nonlinear_arith);
        }
        let sq = isqrt(disc as u128) as i128;
        proof {
            assert(sq as int * sq as int <= disc
                ==> sq <= 13000000000000000000i128) by (nonlinear_arith)
                requires disc <= 130000000000000000000000000000000000000int && sq >= 0;
            lemma_mul_bound((-hb2 - sq) as int, SCALE as int, 20782211342825820928int,
                SCALE as int);
            lemma_mul_bound((-hb2 + sq) as int, SCALE as int, 20782211342825820928int,
                SCALE as int);
        }
        let root1 = clip_t(crate::fixed::div_i128((-hb2 - sq) * (SCALE as i128), a2));
        let root = if allowed_t.0 < root1 && root1 < allowed_t.1 {
            root1
        } else {
            let root2 = clip_t(crate::fixed::div_i128((-hb2 + sq) * (SCALE as i128), a2));
            root2
        };
        if !(allowed_t.0 < root && root < allowed_t.1) {
            return None;
        }
        let position = ray.at(root);
        let outward = position.sub(center).div_sat(self.radius, 2 * SCALE);
        let uv = Sphere::get_uv_for_point(outward);
        if self.bounding_box.contains_point(position) {
            Some(HitRecord::with_face_normal(*ray, root, position, uv, outward, self.material))
        } else {
            None
        }
    }
}

/// Saturate a wide quotient into the ray-parameter range.
fn clip_t(q: i128) -> (r: i64)
    ensures
        r == clip(q as int, TMAX as int),
{
    if q > TMAX as i128 {
        TMAX
    } else if q < -(TMAX as i128) {
        -TMAX
    } else {
        q as i64
    }
}

} // verus!
