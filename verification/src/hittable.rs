//! The intersectable-surface protocol: hit records, the closed union of
//! surface kinds, and linear-scan intersection over a list of surfaces.

use vstd::prelude::*;
use crate::aabb::{box_contains, box_encloses, box_wf, Aabb};
use crate::constant_volume::{vol_word, ConstantVolume};
use crate::fixed::{smul, tdiv, CMAX, SCALE, TMAX};
use crate::material::MaterialRef;
use crate::quad::{spec_quad_hit, Quad};
use crate::ray::{ray_wf, spec_at, Ray};
use crate::sphere::{spec_sphere_hit, Sphere};
use crate::texture::TexCoord;
use crate::transform::{rot_o2w, rot_w2o, rotate_o2w, rotate_w2o, RotateY, Translate};
use crate::trig::neg_ln_spec;
use crate::util::{lemma_sdot_neg, Interval};
use crate::vec3::{bounded, len_fx, sdot, vadd, vclip, vneg, vsub, Vec3};

verus! {

#[derive(Debug, Clone, Copy, PartialEq, Eq, Structural)]
pub struct HitRecord {
    pub position: Vec3,
    pub normal: Vec3,
    pub t: i64,
    pub front_face: bool,
    pub uv: TexCoord,
    pub material: MaterialRef,
}

/// The shape every record handed to the shading code has.
pub open spec fn rec_wf(r: HitRecord) -> bool {
    &&& bounded(r.position, CMAX as int)
    &&& bounded(r.normal, 2 * SCALE as int)
    &&& -TMAX <= r.t <= TMAX
}

/// The record `with_face_normal` builds: the outward normal is kept when it
/// opposes the incoming direction and flipped toward the ray otherwise.
pub open spec fn spec_face_rec(
    ray: Ray,
    t: i64,
    position: Vec3,
    uv: TexCoord,
    outward_normal: Vec3,
    material: MaterialRef,
) -> HitRecord {
    let ff = sdot(ray.direction, outward_normal) < 0;
    HitRecord {
        position,
        normal: if ff { outward_normal } else { vneg(outward_normal) },
        t,
        front_face: ff,
        uv,
        material,
    }
}

impl HitRecord {
    /// Build a record whose stored normal always faces against the incoming
    /// ray: `front_face` holds exactly when the ray arrives from outside.
    pub fn with_face_normal(
        ray: Ray,
        t: i64,
        position: Vec3,
        uv: TexCoord,
        outward_normal: Vec3,
        material: MaterialRef,
    ) -> (r: HitRecord)
        requires
            bounded(ray.direction, CMAX as int),
            bounded(outward_normal, 2 * SCALE as int),
        ensures
            r == spec_face_rec(ray, t, position, uv, outward_normal, material),
            r.front_face <==> sdot(ray.direction, outward_normal) < 0,
            sdot(ray.direction, r.normal) <= 0,
            r.t == t && r.position == position && r.uv == uv && r.material == material,
            bounded(r.normal, 2 * SCALE as int),
    {
        let front_face = ray.direction.dot(outward_normal) < 0;
        let normal = if front_face {
            outward_normal
        } else {
            proof {
                lemma_sdot_neg(outward_normal, ray.direction);
                crate::vec3::lemma_sdot_sym(outward_normal, ray.direction);
                crate::vec3::lemma_sdot_sym(vneg(outward_normal), ray.direction);
            }
            outward_normal.neg()
        };
        HitRecord { position, normal, t, front_face, uv, material }
    }
}


/// The closed set of intersectable surfaces.
pub enum Hittable {
    Sphere(Sphere),
    Quad(Quad),
    Volume(ConstantVolume),
    Translate(Translate),
    RotateY(RotateY),
    List(HittableList),
}

/// A plain collection of surfaces, intersected by linear scan.
pub struct HittableList {
    pub objects: Vec<Hittable>,
    pub bounding_box: Aabb,
}

/// The bounding box a surface reports: a volume delegates to its boundary.
pub open spec fn bbox_of(h: Hittable) -> Aabb
    decreases h,
{
    match h {
        Hittable::Sphere(s) => s.bounding_box,
        Hittable::Quad(q) => q.bounding_box,
        Hittable::Volume(v) => bbox_of(*v.boundary),
        Hittable::Translate(t) => t.bounding_box,
        Hittable::RotateY(r) => r.bounding_box,
        Hittable::List(l) => l.bounding_box,
    }
}

/// Structural well-formedness of a surface tree.
pub open spec fn hittable_wf(h: Hittable) -> bool
    decreases h,
{
    match h {
        Hittable::Sphere(s) => crate::sphere::sphere_wf(s),
        Hittable::Quad(q) => crate::quad::quad_wf(q),
        Hittable::Volume(v) => {
            &&& hittable_wf(*v.boundary)
            &&& -CMAX <= v.neg_inv_density <= 0
        },
        Hittable::Translate(t) => {
            &&& hittable_wf(*t.object)
            &&& bounded(t.offset, CMAX as int)
            &&& box_wf(t.bounding_box)
        },
        Hittable::RotateY(r) => {
            &&& hittable_wf(*r.object)
            &&& -SCALE <= r.cos_angle <= SCALE
            &&& -SCALE <= r.sin_angle <= SCALE
            &&& box_wf(r.bounding_box)
        },
        Hittable::List(l) => {
            &&& box_wf(l.bounding_box)
            &&& forall|i: int| 0 <= i < l.objects.len() ==> hittable_wf(#[trigger] l.objects[i])
            &&& forall|i: int| 0 <= i < l.objects.len()
                ==> box_encloses(l.bounding_box, bbox_of(#[trigger] l.objects[i]))
        },
    }
}

/// The nearest intersection of a ray with a surface inside `[tmin, tmax]`,
/// or nothing.
pub open spec fn spec_hit(h: Hittable, ray: Ray, tmin: int, tmax: int) -> Option<HitRecord>
    decreases h, 1int,
{
    match h {
        Hittable::Sphere(s) => spec_sphere_hit(s, ray, tmin, tmax),
        Hittable::Quad(q) => spec_quad_hit(q, ray, tmin, tmax),
        Hittable::List(l) => lin_hit(l.objects@, ray, tmin, tmax),
        Hittable::Translate(t) => {
            let iray = Ray {
                origin: vclip(vsub(ray.origin, t.offset), CMAX as int),
                direction: ray.direction,
                time: ray.time,
            };
            match spec_hit(*t.object, iray, tmin, tmax) {
                Some(rec) => if box_contains(t.bounding_box, spec_at(ray, rec.t as int)) {
                    Some(HitRecord {
                        position: vclip(vadd(rec.position, t.offset), CMAX as int),
                        ..rec
                    })
                } else {
                    None
                },
                None => None,
            }
        },
        Hittable::RotateY(rt) => {
            let iray = Ray {
                origin: rot_w2o(ray.origin, rt.cos_angle as int, rt.sin_angle as int, CMAX as int),
                direction: rot_w2o(ray.direction, rt.cos_angle as int, rt.sin_angle as int,
                    CMAX as int),
                time: ray.time,
            };
            match spec_hit(*rt.object, iray, tmin, tmax) {
                Some(rec) => if box_contains(rt.bounding_box, spec_at(ray, rec.t as int)) {
                    Some(HitRecord {
                        position: rot_o2w(rec.position, rt.cos_angle as int,
                            rt.sin_angle as int, CMAX as int),
                        normal: rot_o2w(rec.normal, rt.cos_angle as int, rt.sin_angle as int,
                            2 * SCALE as int),
                        ..rec
                    })
                } else {
                    None
                },
                None => None,
            }
        },
        Hittable::Volume(v) => {
            match spec_hit(*v.boundary, ray, -TMAX as int, TMAX as int) {
                None => None,
                Some(r1) => match spec_hit(*v.boundary, ray, r1.t + 7, TMAX as int) {
                    None => None,
                    Some(r2) => spec_vol_tail(v, ray, tmin, tmax, r1, r2),
                },
            }
        },
    }
}

/// The sampling step of a volume intersection, once the boundary entrance
/// and exit records are known: clamp them to the allowed range, draw a
/// free-flight distance, and accept the hit if the flight ends inside.
pub open spec fn spec_vol_tail(v: ConstantVolume, ray: Ray, tmin: int, tmax: int,
    r1: HitRecord, r2: HitRecord) -> Option<HitRecord> {
    let t1a = if r1.t >= tmin { r1.t as int } else { tmin };
    let t2 = if r2.t <= tmax { r2.t as int } else { tmax };
    if t1a >= t2 {
        None
    } else {
        let t1 = if t1a >= 0 { t1a } else { 0 };
        spec_vol_sample(v, ray, t1, t2)
    }
}

/// The free-flight acceptance test for a clamped traversal range.
#[verifier::opaque]
pub open spec fn spec_vol_sample(v: ConstantVolume, ray: Ray, t1: int, t2: int)
    -> Option<HitRecord> {
    let len = len_fx(ray.direction);
    if len == 0 {
        None
    } else {
        let hd = spec_vol_flight(v, ray);
        let dist = tdiv((t2 - t1) * len, SCALE as int);
        if hd > dist {
            None
        } else {
            let t = t1 + tdiv(hd * SCALE, len);
            let pos = spec_at(ray, t);
            if t1 <= t <= t2 && box_contains(bbox_of(*v.boundary), pos) {
                Some(HitRecord {
                    position: pos,
                    normal: Vec3 { x: SCALE, y: 0i64, z: 0i64 },
                    t: t as i64,
                    front_face: true,
                    uv: TexCoord { u: 0i64, v: 0i64 },
                    material: v.phase_function,
                })
            } else {
                None
            }
        }
    }
}

/// The free-flight distance a ray draws in the medium.
#[verifier::opaque]
pub open spec fn spec_vol_flight(v: ConstantVolume, ray: Ray) -> int {
    let w = ((vol_word(v.seed, ray) & 0xffff) + 1) as int;
    smul(-v.neg_inv_density, neg_ln_spec(w))
}

/// Brute-force linear scan over a sequence of surfaces: each surface is
/// tested against the interval tightened to the closest hit so far; the
/// last accepted hit wins.
pub open spec fn lin_hit(s: Seq<Hittable>, ray: Ray, tmin: int, tmax: int) -> Option<HitRecord>
    decreases s, 0int,
{
    if s.len() == 0 {
        None
    } else {
        let prev = lin_hit(s.drop_last(), ray, tmin, tmax);
        let cur_max = match prev {
            Some(rec) => rec.t as int,
            None => tmax,
        };
        match spec_hit(s.last(), ray, tmin, cur_max) {
            Some(rec) => Some(rec),
            None => prev,
        }
    }
}

/// What the intersection protocol guarantees of every reported hit: the ray
/// passes through the surface's bounding box at the hit parameter, the
/// parameter lies in the allowed range, and the record is well formed.
pub open spec fn hit_ok(r: Option<HitRecord>, bbox: Aabb, ray: Ray, tmin: int, tmax: int) -> bool {
    match r {
        Some(rec) => {
            &&& box_contains(bbox, spec_at(ray, rec.t as int))
            &&& tmin <= rec.t <= tmax
            &&& rec_wf(rec)
        },
        None => true,
    }
}

/// Every hit a well-formed surface reports satisfies `hit_ok`.
pub proof fn lemma_spec_hit_ok(h: Hittable, ray: Ray, tmin: int, tmax: int)
    requires
        hittable_wf(h),
        -TMAX <= tmin,
        tmax <= TMAX,
    ensures
        hit_ok(spec_hit(h, ray, tmin, tmax), bbox_of(h), ray, tmin, tmax),
    decreases h, 1int,
{
    reveal(spec_sphere_hit);
    reveal(spec_quad_hit);
    match h {
        Hittable::Sphere(s) => {},
        Hittable::Quad(q) => {},
        Hittable::List(l) => {
            lemma_lin_hit_ok(l.objects@, ray, tmin, tmax);
            if let Some(rec) = lin_hit(l.objects@, ray, tmin, tmax) {
                let i = choose|i: int| 0 <= i < l.objects@.len()
                    && box_contains(bbox_of(l.objects@[i]), spec_at(ray, rec.t as int));
                crate::aabb::lemma_encloses_contains(l.bounding_box, bbox_of(l.objects@[i]),
                    spec_at(ray, rec.t as int));
            }
        },
        Hittable::Translate(t) => {
            let iray = Ray {
                origin: vclip(vsub(ray.origin, t.offset), CMAX as int),
                direction: ray.direction,
                time: ray.time,
            };
            lemma_spec_hit_ok(*t.object, iray, tmin, tmax);
        },
        Hittable::RotateY(rt) => {
            let iray = Ray {
                origin: rot_w2o(ray.origin, rt.cos_angle as int, rt.sin_angle as int, CMAX as int),
                direction: rot_w2o(ray.direction, rt.cos_angle as int, rt.sin_angle as int,
                    CMAX as int),
                time: ray.time,
            };
            lemma_spec_hit_ok(*rt.object, iray, tmin, tmax);
        },
        Hittable::Volume(v) => {
            lemma_spec_hit_ok(*v.boundary, ray, -TMAX as int, TMAX as int);
            if let Some(r1) = spec_hit(*v.boundary, ray, -TMAX as int, TMAX as int) {
                lemma_spec_hit_ok(*v.boundary, ray, r1.t + 7, TMAX as int);
                if let Some(r2) = spec_hit(*v.boundary, ray, r1.t + 7, TMAX as int) {
                    lemma_vol_tail_ok(v, ray, tmin, tmax, r1, r2);
                }
            }
        },
    }
}

/// The volume sampling step obeys the hit protocol.
proof fn lemma_vol_tail_ok(v: ConstantVolume, ray: Ray, tmin: int, tmax: int,
    r1: HitRecord, r2: HitRecord)
    requires
        -TMAX <= tmin,
        tmax <= TMAX,
    ensures
        hit_ok(spec_vol_tail(v, ray, tmin, tmax, r1, r2), bbox_of(*v.boundary), ray,
            tmin, tmax),
{
    reveal(spec_vol_sample);
}

/// Every hit a linear scan over well-formed surfaces reports lies in the
/// allowed range and passes through the bounding box of one of them.
pub proof fn lemma_lin_hit_ok(s: Seq<Hittable>, ray: Ray, tmin: int, tmax: int)
    requires
        forall|i: int| 0 <= i < s.len() ==> hittable_wf(#[trigger] s[i]),
        -TMAX <= tmin,
        tmax <= TMAX,
    ensures
        match lin_hit(s, ray, tmin, tmax) {
            Some(rec) => tmin <= rec.t <= tmax && rec_wf(rec)
                && exists|i: int| 0 <= i < s.len()
                    && box_contains(bbox_of(#[trigger] s[i]), spec_at(ray, rec.t as int)),
            None => true,
        },
    decreases s, 0int,
{
    if s.len() == 0 {
    } else {
        lemma_lin_hit_ok(s.drop_last(), ray, tmin, tmax);
        let prev = lin_hit(s.drop_last(), ray, tmin, tmax);
        let cur_max = match prev {
            Some(rec) => rec.t as int,
            None => tmax,
        };
        lemma_spec_hit_ok(s.last(), ray, tmin, cur_max);
        match lin_hit(s, ray, tmin, tmax) {
            Some(rec) => {
                match spec_hit(s.last(), ray, tmin, cur_max) {
                    Some(rec2) => {
                        assert(box_contains(bbox_of(s[s.len() - 1]),
                            spec_at(ray, rec2.t as int)));
                    },
                    None => {
                        let i = choose|i: int| 0 <= i < s.drop_last().len()
                            && box_contains(bbox_of(s.drop_last()[i]),
                                spec_at(ray, rec.t as int));
                        if prev is Some {
                            assert(s.drop_last()[i] == s[i]);
                            assert(box_contains(bbox_of(s[i]), spec_at(ray, rec.t as int)));
                        }
                    },
                }
            },
            None => {},
        }
    }
}

impl HittableList {
    /// A list over the given surfaces, with the union of their boxes.
    pub fn from_slice(objects: Vec<Hittable>) -> (r: Self)
        requires
            forall|i: int| 0 <= i < objects.len() ==> hittable_wf(#[trigger] objects[i]),
        ensures
            r.objects == objects,
            hittable_wf(Hittable::List(r)),
    {
        let mut bounding_box = Aabb::empty();
        let n = objects.len();
        let mut k: usize = 0;
        while k < n
            invariant
                n == objects.len(),
                k <= n,
                box_wf(bounding_box),
                forall|i: int| 0 <= i < objects.len() ==> hittable_wf(#[trigger] objects[i]),
                forall|i: int| 0 <= i < k
                    ==> box_encloses(bounding_box, bbox_of(#[trigger] objects[i])),
            decreases n - k,
        {
            let b = objects[k].bounding_box();
            proof {
                lemma_wf_bbox(objects[k as int]);
            }
            let nb = Aabb::combine(bounding_box, b);
            proof {
                assert forall|i: int| 0 <= i < k + 1
                    implies box_encloses(nb, bbox_of(#[trigger] objects[i])) by {
                    if i < k {
                        assert(box_encloses(bounding_box, bbox_of(objects[i])));
                    }
                }
            }
            bounding_box = nb;
            k = k + 1;
        }
        HittableList { objects, bounding_box }
    }

    /// Add one more surface, growing the box to keep covering everything.
    pub fn add(&mut self, object: Hittable)
        requires
            hittable_wf(object),
            hittable_wf(Hittable::List(*old(self))),
        ensures
            final(self).objects@ == old(self).objects@.push(object),
            hittable_wf(Hittable::List(*final(self))),
    {
        proof {
            lemma_wf_bbox(object);
        }
        let b = object.bounding_box();
        let nb = Aabb::combine(self.bounding_box, b);
        proof {
            assert forall|i: int| 0 <= i < self.objects@.push(object).len()
                implies box_encloses(nb, bbox_of(#[trigger] self.objects@.push(object)[i])) by {
                if i < self.objects.len() {
                    assert(self.objects@.push(object)[i] == self.objects@[i]);
                    assert(box_encloses(self.bounding_box, bbox_of(self.objects@[i])));
                }
            }
        }
        self.bounding_box = nb;
        self.objects.push(object);
    }
}

/// A well-formed surface has a well-formed bounding box.
pub proof fn lemma_wf_bbox(h: Hittable)
    requires
        hittable_wf(h),
    ensures
        box_wf(bbox_of(h)),
    decreases h,
{
    match h {
        Hittable::Volume(v) => lemma_wf_bbox(*v.boundary),
        _ => {},
    }
}

impl Hittable {
    /// The box that contains the surface for all valid ray times.
    pub fn bounding_box(&self) -> (r: Aabb)
        ensures
            r == bbox_of(*self),
        decreases *self,
    {
        match self {
            Hittable::Sphere(s) => s.bounding_box,
            Hittable::Quad(q) => q.bounding_box,
            Hittable::Volume(v) => v.boundary.bounding_box(),
            Hittable::Translate(t) => t.bounding_box,
            Hittable::RotateY(r) => r.bounding_box,
            Hittable::List(l) => l.bounding_box,
        }
    }

    /// The nearest intersection inside the allowed parameter range, exactly
    /// as `spec_hit` describes, with every reported hit passing `hit_ok`.
    /// Every surface re-checks that the reported hit stays inside its own
    /// bounding box, so a root whose computed position escapes the box at the
    /// fixed-point resolution counts as a miss; this deliberate tolerance is
    /// what makes the traversal theorem exact at integer precision.
    pub fn hit(&self, ray: &Ray, allowed_t: Interval) -> (r: Option<HitRecord>)
        requires
            hittable_wf(*self),
            ray_wf(*ray),
            -TMAX <= allowed_t.0,
            allowed_t.1 <= TMAX,
        ensures
            r == spec_hit(*self, *ray, allowed_t.0 as int, allowed_t.1 as int),
            hit_ok(r, bbox_of(*self), *ray, allowed_t.0 as int, allowed_t.1 as int),
        decreases *self, 1int,
    {
        proof {
            lemma_spec_hit_ok(*self, *ray, allowed_t.0 as int, allowed_t.1 as int);
        }
        match self {
            Hittable::Sphere(s) => s.hit(ray, allowed_t),
            Hittable::Quad(q) => q.hit(ray, allowed_t),
            Hittable::List(l) => hit_list(l, ray, allowed_t),
            Hittable::Translate(t) => hit_translate(t, ray, allowed_t),
            Hittable::RotateY(rt) => hit_rotate(rt, ray, allowed_t),
            Hittable::Volume(v) => hit_volume(v, ray, allowed_t),
        }
    }
}

fn hit_list(l: &HittableList, ray: &Ray, allowed_t: Interval) -> (r: Option<HitRecord>)
    requires
        hittable_wf(Hittable::List(*l)),
        ray_wf(*ray),
        -TMAX <= allowed_t.0,
        allowed_t.1 <= TMAX,
    ensures
        r == lin_hit(l.objects@, *ray, allowed_t.0 as int, allowed_t.1 as int),
    decreases Hittable::List(*l), 0int,
{
    let mut maybe_rec: Option<HitRecord> = None;
    let n = l.objects.len();
    let mut k: usize = 0;
    while k < n
        invariant
            hittable_wf(Hittable::List(*l)),
            ray_wf(*ray),
            -TMAX <= allowed_t.0,
            allowed_t.1 <= TMAX,
            n == l.objects.len(),
            k <= n,
            maybe_rec == lin_hit(l.objects@.subrange(0, k as int), *ray,
                allowed_t.0 as int, allowed_t.1 as int),
            match maybe_rec {
                Some(rec) => allowed_t.0 <= rec.t <= allowed_t.1 && rec_wf(rec),
                None => true,
            },
        decreases n - k,
    {
        let closest = match &maybe_rec {
            Some(rec) => rec.t,
            None => allowed_t.1,
        };
        proof {
            assert(hittable_wf(l.objects@[k as int]));
            assert(decreases_to!(Hittable::List(*l), 0int => l.objects@[k as int], 1int));
        }
        let hit_k = (&l.objects[k]).hit(ray, Interval(allowed_t.0, closest));
        proof {
            let pre = l.objects@.subrange(0, k as int);
            let cur = l.objects@.subrange(0, k as int + 1);
            assert(cur.drop_last() =~= pre);
            assert(cur.last() == l.objects@[k as int]);
            lemma_lin_hit_ok(cur, *ray, allowed_t.0 as int, allowed_t.1 as int);
        }
        if hit_k.is_some() {
            maybe_rec = hit_k;
        }
        k = k + 1;
    }
    proof {
        assert(l.objects@.subrange(0, n as int) =~= l.objects@);
    }
    maybe_rec
}

fn hit_translate(t: &Translate, ray: &Ray, allowed_t: Interval) -> (r: Option<HitRecord>)
    requires
        hittable_wf(Hittable::Translate(*t)),
        ray_wf(*ray),
        -TMAX <= allowed_t.0,
        allowed_t.1 <= TMAX,
    ensures
        r == spec_hit(Hittable::Translate(*t), *ray, allowed_t.0 as int, allowed_t.1 as int),
    decreases Hittable::Translate(*t), 0int,
{
    let shifted = ray.origin.sub(t.offset).clamp_c(CMAX);
    let iray = Ray::new(shifted, ray.direction, ray.time);
    proof {
        assert(iray.origin == vclip(vsub(ray.origin, t.offset), CMAX as int));
        assert(decreases_to!(Hittable::Translate(*t), 0int => *t.object, 1int));
    }
    match (&*t.object).hit(&iray, allowed_t) {
        Some(rec) => {
            let pp = ray.at(rec.t);
            if t.bounding_box.contains_point(pp) {
                let position = rec.position.add(t.offset).clamp_c(CMAX);
                proof {
                    assert(position == vclip(vadd(rec.position, t.offset), CMAX as int));
                }
                Some(HitRecord { position, ..rec })
            } else {
                None
            }
        },
        None => None,
    }
}

fn hit_rotate(rt: &RotateY, ray: &Ray, allowed_t: Interval) -> (r: Option<HitRecord>)
    requires
        hittable_wf(Hittable::RotateY(*rt)),
        ray_wf(*ray),
        -TMAX <= allowed_t.0,
        allowed_t.1 <= TMAX,
    ensures
        r == spec_hit(Hittable::RotateY(*rt), *ray, allowed_t.0 as int, allowed_t.1 as int),
    decreases Hittable::RotateY(*rt), 0int,
{
    let origin = rotate_w2o(ray.origin, rt.cos_angle, rt.sin_angle, CMAX);
    let direction = rotate_w2o(ray.direction, rt.cos_angle, rt.sin_angle, CMAX);
    let iray = Ray::new(origin, direction, ray.time);
    proof {
        assert(decreases_to!(Hittable::RotateY(*rt), 0int => *rt.object, 1int));
    }
    match (&*rt.object).hit(&iray, allowed_t) {
        Some(rec) => {
            let pp = ray.at(rec.t);
            if rt.bounding_box.contains_point(pp) {
                let position = rotate_o2w(rec.position, rt.cos_angle, rt.sin_angle, CMAX);
                let normal = rotate_o2w(rec.normal, rt.cos_angle, rt.sin_angle, 2 * SCALE);
                Some(HitRecord { position, normal, ..rec })
            } else {
                None
            }
        },
        None => None,
    }
}

#[verifier::rlimit(100)]
fn hit_volume(v: &ConstantVolume, ray: &Ray, allowed_t: Interval) -> (r: Option<HitRecord>)
    requires
        hittable_wf(Hittable::Volume(*v)),
        ray_wf(*ray),
        -TMAX <= allowed_t.0,
        allowed_t.1 <= TMAX,
    ensures
        r == spec_hit(Hittable::Volume(*v), *ray, allowed_t.0 as int, allowed_t.1 as int),
    decreases Hittable::Volume(*v), 0int,
{
    proof {
        assert(decreases_to!(Hittable::Volume(*v), 0int => *v.boundary, 1int));
    }
    let r1 = match (&*v.boundary).hit(ray, Interval::universe()) {
        Some(rec) => rec,
        None => {
            return None;
        },
    };
    let r2 = match (&*v.boundary).hit(ray, Interval(r1.t + 7, TMAX)) {
        Some(rec) => rec,
        None => {
            return None;
        },
    };
    vol_tail(v, ray, allowed_t, r1, r2)
}

#[verifier::rlimit(100)]
fn vol_tail(v: &ConstantVolume, ray: &Ray, allowed_t: Interval, r1: HitRecord, r2: HitRecord)
    -> (r: Option<HitRecord>)
    requires
        hittable_wf(Hittable::Volume(*v)),
        ray_wf(*ray),
        -TMAX <= allowed_t.0,
        allowed_t.1 <= TMAX,
        -TMAX <= r1.t <= TMAX,
        -TMAX <= r2.t <= TMAX,
    ensures
        r == spec_vol_tail(*v, *ray, allowed_t.0 as int, allowed_t.1 as int, r1, r2),
{
    let t1a = if r1.t >= allowed_t.0 { r1.t } else { allowed_t.0 };
    let t2 = if r2.t <= allowed_t.1 { r2.t } else { allowed_t.1 };
    if t1a >= t2 {
        return None;
    }
    let t1 = if t1a >= 0 { t1a } else { 0 };
    vol_sample(v, ray, t1, t2)
}

fn vol_flight(v: &ConstantVolume, ray: &Ray) -> (r: i64)
    requires
        -CMAX <= v.neg_inv_density <= 0,
    ensures
        r == spec_vol_flight(*v, *ray),
        0 <= r <= 11908659067891,
{
    proof {
        reveal(spec_vol_flight);
    }
    let wm = crate::constant_volume::mix_ray(v.seed, ray) & 0xffff;
    proof {
        crate::fixed::lemma_mask16(vol_word(v.seed, *ray));
    }
    let w = (wm + 1) as i64;
    proof {
        assert(w as int == ((vol_word(v.seed, *ray) & 0xffff) + 1) as int);
    }
    let nl = crate::trig::neg_ln(w);
    proof {
        crate::fixed::lemma_smul_bound((-v.neg_inv_density) as int, nl as int, 1073741824,
            726816, 780426633216000000);
        assert((-v.neg_inv_density) as int * nl as int >= 0) by (nonlinear_arith)
            requires v.neg_inv_density <= 0 && nl >= 0;
        crate::fixed::lemma_tdiv_nonneg((-v.neg_inv_density) as int * nl as int, SCALE as int);
    }
    crate::fixed::fx_mul(-v.neg_inv_density, nl)
}

#[verifier::rlimit(100)]
fn vol_sample(v: &ConstantVolume, ray: &Ray, t1: i64, t2: i64) -> (r: Option<HitRecord>)
    requires
        hittable_wf(Hittable::Volume(*v)),
        ray_wf(*ray),
        0 <= t1 <= TMAX,
        -TMAX <= t2 <= TMAX,
    ensures
        r == spec_vol_sample(*v, *ray, t1 as int, t2 as int),
{
    proof {
        reveal(spec_vol_sample);
    }
    let len = ray.direction.length();
    if len == 0 {
        return None;
    }
    let hd = vol_flight(v, ray);
    proof {
        crate::vec3::lemma_dot_raw_bound(ray.direction, ray.direction, 1073741824);
        assert(len <= 2147483648) by (nonlinear_arith)
            requires len >= 0
                && len as int * len as int <= 3458764513820540928;
        crate::fixed::lemma_mul_bound((t2 - t1) as int, len as int, 140737488355328,
            2147483648);
        crate::fixed::lemma_tdiv_bound((t2 - t1) as int * len as int, SCALE as int,
            302231454903657293676544);
    }
    let dist = crate::fixed::div_i128((t2 as i128 - t1 as i128) * (len as i128),
        SCALE as i128) as i64;
    if hd > dist {
        return None;
    }
    proof {
        crate::fixed::lemma_mul_bound(hd as int, SCALE as int, 11908659067891,
            SCALE as int);
        crate::fixed::lemma_tdiv_bound(hd as int * SCALE as int, len as int,
            780465752452303421374464);
    }
    let te = crate::fixed::div_i128((hd as i128) * (SCALE as i128), len as i128);
    let t128: i128 = (t1 as i128) + te;
    if t128 < t1 as i128 || t128 > t2 as i128 {
        return None;
    }
    let t = t128 as i64;
    let pos = ray.at(t);
    proof {
        lemma_wf_bbox(*v.boundary);
    }
    let bb = v.boundary.bounding_box();
    if bb.contains_point(pos) {
        Some(HitRecord {
            position: pos,
            normal: Vec3::new(SCALE, 0, 0),
            t,
            front_face: true,
            uv: TexCoord::new(0, 0),
            material: v.phase_function,
        })
    } else {
        None
    }
}

} // verus!
