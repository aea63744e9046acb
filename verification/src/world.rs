//! The world: a registry of materials addressed by stable handles, plus the
//! top-level hierarchy over all surfaces.

use vstd::prelude::*;
use crate::aabb::Aabb;
use crate::bvh::{bvh_wf, leaf_surfs, Bvh};
use crate::fixed::TMAX;
use crate::hittable::{hit_ok, hittable_wf, lin_hit, rec_wf, spec_hit, HitRecord, Hittable};
use crate::material::{mat_wf, Material, MaterialRef};
use crate::ray::{ray_wf, Ray};
use crate::util::Interval;

verus! {

pub struct World {
    pub materials: Vec<Material>,
    pub bvh: Option<Bvh>,
}

/// All material handles a surface carries point below `n`.
pub open spec fn mats_below(h: Hittable, n: int) -> bool
    decreases h,
{
    match h {
        Hittable::Sphere(s) => s.material.0 < n,
        Hittable::Quad(q) => q.material.0 < n,
        Hittable::Volume(v) => v.phase_function.0 < n && mats_below(*v.boundary, n),
        Hittable::Translate(t) => mats_below(*t.object, n),
        Hittable::RotateY(r) => mats_below(*r.object, n),
        Hittable::List(l) => forall|i: int| 0 <= i < l.objects.len()
            ==> mats_below(#[trigger] l.objects[i], n),
    }
}

/// A well-formed world: materials and hierarchy well formed, and every
/// surface's handle resolvable in the registry.
pub open spec fn world_wf(w: World) -> bool {
    &&& forall|i: int| 0 <= i < w.materials.len() ==> mat_wf(#[trigger] w.materials[i])
    &&& match w.bvh {
        Some(b) => bvh_wf(b) && forall|i: int| 0 <= i < b.surfaces.len()
            ==> mats_below(#[trigger] b.surfaces@[i], w.materials.len() as int),
        None => true,
    }
}

/// Any hit a surface reports carries one of the surface's own handles.
pub proof fn lemma_hit_mats(h: Hittable, ray: Ray, tmin: int, tmax: int, n: int)
    requires
        mats_below(h, n),
    ensures
        match spec_hit(h, ray, tmin, tmax) {
            Some(rec) => rec.material.0 < n,
            None => true,
        },
    decreases h, 1int,
{
    reveal(crate::sphere::spec_sphere_hit);
    reveal(crate::quad::spec_quad_hit);
    reveal(crate::hittable::spec_vol_sample);
    match h {
        Hittable::Sphere(s) => {},
        Hittable::Quad(q) => {},
        Hittable::List(l) => {
            lemma_lin_mats(l.objects@, ray, tmin, tmax, n);
        },
        Hittable::Translate(t) => {
            let iray = Ray {
                origin: crate::vec3::vclip(crate::vec3::vsub(ray.origin, t.offset),
                    crate::fixed::CMAX as int),
                direction: ray.direction,
                time: ray.time,
            };
            lemma_hit_mats(*t.object, iray, tmin, tmax, n);
        },
        Hittable::RotateY(rt) => {
            let iray = Ray {
                origin: crate::transform::rot_w2o(ray.origin, rt.cos_angle as int,
                    rt.sin_angle as int, crate::fixed::CMAX as int),
                direction: crate::transform::rot_w2o(ray.direction, rt.cos_angle as int,
                    rt.sin_angle as int, crate::fixed::CMAX as int),
                time: ray.time,
            };
            lemma_hit_mats(*rt.object, iray, tmin, tmax, n);
        },
        Hittable::Volume(v) => {},
    }
}

/// Any hit a linear scan reports carries a handle of one of its surfaces.
pub proof fn lemma_lin_mats(s: Seq<Hittable>, ray: Ray, tmin: int, tmax: int, n: int)
    requires
        forall|i: int| 0 <= i < s.len() ==> mats_below(#[trigger] s[i], n),
    ensures
        match lin_hit(s, ray, tmin, tmax) {
            Some(rec) => rec.material.0 < n,
            None => true,
        },
    decreases s, 0int,
{
    if s.len() > 0 {
        lemma_lin_mats(s.drop_last(), ray, tmin, tmax, n);
        let prev = lin_hit(s.drop_last(), ray, tmin, tmax);
        let cur_max = match prev {
            Some(rec) => rec.t as int,
            None => tmax,
        };
        lemma_hit_mats(s.last(), ray, tmin, cur_max, n);
    }
}

/// Handle bounds are monotone in the registry size.
pub proof fn lemma_mats_mono(h: Hittable, n: int, m: int)
    requires
        mats_below(h, n),
        n <= m,
    ensures
        mats_below(h, m),
    decreases h,
{
    match h {
        Hittable::Volume(v) => lemma_mats_mono(*v.boundary, n, m),
        Hittable::Translate(t) => lemma_mats_mono(*t.object, n, m),
        Hittable::RotateY(r) => lemma_mats_mono(*r.object, n, m),
        Hittable::List(l) => {
            assert forall|i: int| 0 <= i < l.objects.len()
                implies mats_below(#[trigger] l.objects[i], m) by {
                lemma_mats_mono(l.objects[i], n, m);
            }
        },
        _ => {},
    }
}

/// Append a surface to a scene's list, carrying the well-formedness and
/// handle-validity of the whole list along.
pub fn push_surface(objects: &mut Vec<Hittable>, h: Hittable, Ghost(n): Ghost<int>)
    requires
        hittable_wf(h),
        mats_below(h, n),
        forall|i: int| 0 <= i < old(objects)@.len()
            ==> hittable_wf(#[trigger] old(objects)@[i]),
        forall|i: int| 0 <= i < old(objects)@.len()
            ==> mats_below(#[trigger] old(objects)@[i], n),
    ensures
        final(objects)@ == old(objects)@.push(h),
        forall|i: int| 0 <= i < final(objects)@.len()
            ==> hittable_wf(#[trigger] final(objects)@[i]),
        forall|i: int| 0 <= i < final(objects)@.len()
            ==> mats_below(#[trigger] final(objects)@[i], n),
{
    let ghost pre = objects@;
    objects.push(h);
    proof {
        assert forall|i: int| 0 <= i < objects@.len()
            implies hittable_wf(#[trigger] objects@[i])
                && mats_below(#[trigger] objects@[i], n) by {
            if i < pre.len() {
                assert(objects@[i] == pre[i]);
            } else {
                assert(objects@[i] == h);
            }
        }
    }
}

impl World {
    /// An empty world: no materials, no hierarchy yet.
    pub fn new() -> (r: Self)
        ensures
            r.materials@.len() == 0,
            r.bvh is None,
            world_wf(r),
    {
        World { materials: Vec::new(), bvh: None }
    }

    /// Append a material and hand back its stable handle: the handle names
    /// exactly the slot the material was stored in, and old handles keep
    /// naming what they named.
    pub fn register_material(&mut self, material: Material) -> (r: MaterialRef)
        requires
            mat_wf(material),
            world_wf(*old(self)),
            old(self).bvh is None,
        ensures
            r.0 == old(self).materials@.len(),
            final(self).materials@ == old(self).materials@.push(material),
            final(self).bvh == old(self).bvh,
            world_wf(*final(self)),
    {
        let new_ref = MaterialRef(self.materials.len());
        self.materials.push(material);
        new_ref
    }

    /// Install the hierarchy over all registered surfaces.
    pub fn set_bvh(&mut self, bvh: Bvh)
        requires
            world_wf(*old(self)),
            bvh_wf(bvh),
            forall|i: int| 0 <= i < bvh.surfaces.len()
                ==> mats_below(#[trigger] bvh.surfaces@[i], old(self).materials@.len() as int),
        ensures
            final(self).materials == old(self).materials,
            final(self).bvh == Some(bvh),
            world_wf(*final(self)),
    {
        self.bvh = Some(bvh);
    }

    /// The installed hierarchy; calling this before `set_bvh` is a caller
    /// defect.
    pub fn bvh(&self) -> (r: &Bvh)
        requires
            self.bvh is Some,
        ensures
            Some(*r) == self.bvh,
    {
        match &self.bvh {
            Some(b) => b,
            None => unreached(),
        }
    }

    /// A box covering every surface in the world.
    pub fn bounding_box(&self) -> (r: Aabb)
        requires
            world_wf(*self),
            self.bvh is Some,
        ensures
            crate::aabb::box_wf(r),
            forall|i: int| 0 <= i < self.bvh->Some_0.surfaces.len()
                ==> crate::aabb::box_encloses(r,
                    crate::hittable::bbox_of(#[trigger] self.bvh->Some_0.surfaces@[i])),
    {
        self.bvh().bounding_box()
    }

    /// Intersect against the hierarchy: the same result as a brute-force
    /// linear scan over its leaf surfaces, with a resolvable material handle.
    pub fn hit(&self, ray: &Ray, allowed_t: Interval) -> (r: Option<HitRecord>)
        requires
            world_wf(*self),
            self.bvh is Some,
            ray_wf(*ray),
            -TMAX <= allowed_t.0,
            allowed_t.1 <= TMAX,
        ensures
            r == lin_hit(leaf_surfs(self.bvh->Some_0.root, self.bvh->Some_0.surfaces@),
                *ray, allowed_t.0 as int, allowed_t.1 as int),
            match r {
                Some(rec) => rec.material.0 < self.materials@.len()
                    && crate::fixed::iabs(rec.t as int) <= TMAX
                    && allowed_t.0 <= rec.t <= allowed_t.1
                    && rec_wf(rec),
                None => true,
            },
    {
        let b = self.bvh();
        let r = b.hit(ray, allowed_t);
        proof {
            let surfs = leaf_surfs(b.root, b.surfaces@);
            crate::bvh::lemma_leaf_surfs(b.root, b.surfaces@);
            crate::bvh::lemma_leaf_surfs_wf(b.root, b.surfaces@);
            assert forall|j: int| 0 <= j < surfs.len()
                implies mats_below(#[trigger] surfs[j], self.materials@.len() as int) by {
                assert(surfs[j] == b.surfaces@[crate::bvh::leaves(b.root)[j] as int]);
            }
            lemma_lin_mats(surfs, *ray, allowed_t.0 as int, allowed_t.1 as int,
                self.materials@.len() as int);
            crate::hittable::lemma_lin_hit_ok(surfs, *ray,
                allowed_t.0 as int, allowed_t.1 as int);
        }
        r
    }
}

} // verus!
