//! Spatial transform wrappers: translation and rotation about the y axis.

use vstd::prelude::*;
use crate::aabb::{box_wf, Aabb};
use crate::fixed::{clip, fx_mul, smul, CMAX, SCALE};
use crate::hittable::Hittable;
use crate::trig::{cos_fx, cos_spec, sin_fx, sin_spec};
use crate::vec3::{bounded, Vec3};

verus! {

pub struct Translate {
    pub offset: Vec3,
    pub object: Box<Hittable>,
    pub bounding_box: Aabb,
}

pub struct RotateY {
    pub object: Box<Hittable>,
    pub bounding_box: Aabb,
    pub cos_angle: i64,
    pub sin_angle: i64,
}

/// Rotate a point about the y axis from object to world space, clamping
/// the result into `[-cap, cap]`.
pub open spec fn rot_o2w(p: Vec3, c: int, s: int, cap: int) -> Vec3 {
    Vec3 {
        x: clip(smul(p.x as int, c) + smul(p.z as int, s), cap) as i64,
        y: clip(p.y as int, cap) as i64,
        z: clip(-smul(p.x as int, s) + smul(p.z as int, c), cap) as i64,
    }
}

/// Rotate a point about the y axis from world to object space, clamping
/// the result into `[-cap, cap]`.
pub open spec fn rot_w2o(p: Vec3, c: int, s: int, cap: int) -> Vec3 {
    Vec3 {
        x: clip(smul(p.x as int, c) - smul(p.z as int, s), cap) as i64,
        y: clip(p.y as int, cap) as i64,
        z: clip(smul(p.x as int, s) + smul(p.z as int, c), cap) as i64,
    }
}

/// Apply the object-to-world rotation.
pub fn rotate_o2w(p: Vec3, c: i64, s: i64, cap: i64) -> (r: Vec3)
    requires
        bounded(p, CMAX as int),
        -SCALE <= c <= SCALE,
        -SCALE <= s <= SCALE,
        0 <= cap,
    ensures
        r == rot_o2w(p, c as int, s as int, cap as int),
        bounded(r, cap as int),
{
    proof {
        crate::fixed::lemma_smul_bound(p.x as int, c as int, 1073741824, 65536,
            70368744177664);
        crate::fixed::lemma_smul_bound(p.z as int, s as int, 1073741824, 65536,
            70368744177664);
        crate::fixed::lemma_smul_bound(p.x as int, s as int, 1073741824, 65536,
            70368744177664);
        crate::fixed::lemma_smul_bound(p.z as int, c as int, 1073741824, 65536,
            70368744177664);
    }
    let x0 = fx_mul(p.x, c) + fx_mul(p.z, s);
    let z0 = -fx_mul(p.x, s) + fx_mul(p.z, c);
    Vec3 { x: clip_cap(x0, cap), y: clip_cap(p.y, cap), z: clip_cap(z0, cap) }
}

/// Apply the world-to-object rotation.
pub fn rotate_w2o(p: Vec3, c: i64, s: i64, cap: i64) -> (r: Vec3)
    requires
        bounded(p, CMAX as int),
        -SCALE <= c <= SCALE,
        -SCALE <= s <= SCALE,
        0 <= cap,
    ensures
        r == rot_w2o(p, c as int, s as int, cap as int),
        bounded(r, cap as int),
{
    proof {
        crate::fixed::lemma_smul_bound(p.x as int, c as int, 1073741824, 65536,
            70368744177664);
        crate::fixed::lemma_smul_bound(p.z as int, s as int, 1073741824, 65536,
            70368744177664);
        crate::fixed::lemma_smul_bound(p.x as int, s as int, 1073741824, 65536,
            70368744177664);
        crate::fixed::lemma_smul_bound(p.z as int, c as int, 1073741824, 65536,
            70368744177664);
    }
    let x0 = fx_mul(p.x, c) - fx_mul(p.z, s);
    let z0 = fx_mul(p.x, s) + fx_mul(p.z, c);
    Vec3 { x: clip_cap(x0, cap), y: clip_cap(p.y, cap), z: clip_cap(z0, cap) }
}

fn clip_cap(v: i64, cap: i64) -> (r: i64)
    requires
        cap >= 0,
    ensures
        r == clip(v as int, cap as int),
{
    if v > cap {
        cap
    } else if v < -cap {
        -cap
    } else {
        v
    }
}

impl Translate {
    /// Wrap an object so it appears shifted by `offset`.
    pub fn new(offset: Vec3, object: Box<Hittable>) -> (r: Self)
        requires
            bounded(offset, CMAX as int),
            box_wf(crate::hittable::bbox_of(*object)),
        ensures
            r.offset == offset,
            r.object == object,
            r.bounding_box == crate::aabb::spec_shift(crate::hittable::bbox_of(*object), offset),
            box_wf(r.bounding_box),
    {
        let bounding_box = object.bounding_box().shifted(offset);
        Translate { offset, object, bounding_box }
    }
}

/// The `i`-th corner of a box, axes selected by the low three bits of `i`.
pub open spec fn box_corner(b: Aabb, i: int) -> Vec3 {
    Vec3 {
        x: if i % 2 == 0 { b.x.0 } else { b.x.1 },
        y: if (i / 2) % 2 == 0 { b.y.0 } else { b.y.1 },
        z: if (i / 4) % 2 == 0 { b.z.0 } else { b.z.1 },
    }
}

/// The `i`-th corner of `b`, rotated into world space.
pub open spec fn rotated_corner(b: Aabb, i: int, c: int, s: int) -> Vec3 {
    rot_o2w(box_corner(b, i), c, s, CMAX as int - 1)
}

/// The rotated corner lies between `lo` and `hi` on every axis.
pub open spec fn corner_within(b: Aabb, i: int, c: int, s: int, lo: Vec3, hi: Vec3) -> bool {
    let t = rotated_corner(b, i, c, s);
    &&& lo.x <= t.x <= hi.x
    &&& lo.y <= t.y <= hi.y
    &&& lo.z <= t.z <= hi.z
}

impl RotateY {
    /// Wrap an object so it appears rotated by `angle` radians about y.
    /// The bounding box covers all eight rotated corners of the wrapped box.
    pub fn new(angle: i64, object: Box<Hittable>) -> (r: Self)
        requires
            -0x1000000000000000 <= angle <= 0x1000000000000000,
            box_wf(crate::hittable::bbox_of(*object)),
        ensures
            r.object == object,
            r.cos_angle == cos_spec(angle as int),
            r.sin_angle == sin_spec(angle as int),
            -SCALE <= r.cos_angle <= SCALE,
            -SCALE <= r.sin_angle <= SCALE,
            forall|i: int| 0 <= i < 8 ==> crate::aabb::box_contains(r.bounding_box,
                #[trigger] rotated_corner(crate::hittable::bbox_of(*object), i,
                    r.cos_angle as int, r.sin_angle as int)),
            box_wf(r.bounding_box),
    {
        let c = cos_fx(angle);
        let s = sin_fx(angle);
        let bbox = object.bounding_box();
        let mut lo = Vec3::new(CMAX - 1, CMAX - 1, CMAX - 1);
        let mut hi = Vec3::new(1 - CMAX, 1 - CMAX, 1 - CMAX);
        let mut i: usize = 0;
        while i < 8
            invariant
                i <= 8,
                bounded(lo, CMAX as int - 1),
                bounded(hi, CMAX as int - 1),
                -SCALE <= c <= SCALE,
                -SCALE <= s <= SCALE,
                box_wf(bbox),
                forall|j: int| 0 <= j < i
                    ==> #[trigger] corner_within(bbox, j, c as int, s as int, lo, hi),
            decreases 8 - i,
        {
            let ghost lo0 = lo;
            let ghost hi0 = hi;
            let px = if i % 2 == 0 { bbox.x.0 } else { bbox.x.1 };
            let py = if (i / 2) % 2 == 0 { bbox.y.0 } else { bbox.y.1 };
            let pz = if (i / 4) % 2 == 0 { bbox.z.0 } else { bbox.z.1 };
            let tester = rotate_o2w(Vec3::new(px, py, pz), c, s, CMAX - 1);
            proof {
                assert(Vec3 { x: px, y: py, z: pz } == box_corner(bbox, i as int));
                assert(tester == rotated_corner(bbox, i as int, c as int, s as int));
            }
            if tester.x < lo.x { lo = Vec3::new(tester.x, lo.y, lo.z); }
            if tester.y < lo.y { lo = Vec3::new(lo.x, tester.y, lo.z); }
            if tester.z < lo.z { lo = Vec3::new(lo.x, lo.y, tester.z); }
            if tester.x > hi.x { hi = Vec3::new(tester.x, hi.y, hi.z); }
            if tester.y > hi.y { hi = Vec3::new(hi.x, tester.y, hi.z); }
            if tester.z > hi.z { hi = Vec3::new(hi.x, hi.y, tester.z); }
            proof {
                assert(lo.x <= lo0.x && lo.y <= lo0.y && lo.z <= lo0.z);
                assert(hi.x >= hi0.x && hi.y >= hi0.y && hi.z >= hi0.z);
                assert(corner_within(bbox, i as int, c as int, s as int, lo, hi));
                assert forall|j: int| 0 <= j < i + 1
                    implies #[trigger] corner_within(bbox, j, c as int, s as int, lo, hi) by {
                    if j < i {
                        assert(corner_within(bbox, j, c as int, s as int, lo0, hi0));
                    }
                }
            }
            i = i + 1;
        }
        let bounding_box = Aabb::new(
            crate::util::Interval(lo.x, hi.x),
            crate::util::Interval(lo.y, hi.y),
            crate::util::Interval(lo.z, hi.z),
        );
        proof {
            assert forall|j: int| 0 <= j < 8
                implies crate::aabb::box_contains(bounding_box,
                    #[trigger] rotated_corner(bbox, j, c as int, s as int)) by {
                assert(corner_within(bbox, j, c as int, s as int, lo, hi));
            }
        }
        RotateY { object, bounding_box, cos_angle: c, sin_angle: s }
    }
}

} // verus!
