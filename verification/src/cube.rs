//! An axis-aligned box assembled from six quads.

use vstd::prelude::*;
use crate::hittable::{hittable_wf, Hittable, HittableList};
use crate::material::MaterialRef;
use crate::quad::{Quad, QMAX};
use crate::vec3::{bounded, Vec3};
use crate::world::{lemma_mats_mono, mats_below, push_surface};

verus! {

/// The box spanning the opposite corners `a` and `b`: six quads, one per
/// face, all sharing one material.
#[verifier::rlimit(100)]
pub fn cube(a: Vec3, b: Vec3, material: MaterialRef) -> (r: HittableList)
    requires
        bounded(a, QMAX as int),
        bounded(b, QMAX as int),
        -QMAX <= b.x - a.x <= QMAX,
        -QMAX <= b.y - a.y <= QMAX,
        -QMAX <= b.z - a.z <= QMAX,
    ensures
        hittable_wf(Hittable::List(r)),
        r.objects@.len() == 6,
        forall|n: int| material.0 < n
            ==> mats_below(Hittable::List(r), n),
{
    let minp = Vec3::new(
        if a.x <= b.x { a.x } else { b.x },
        if a.y <= b.y { a.y } else { b.y },
        if a.z <= b.z { a.z } else { b.z },
    );
    let maxp = Vec3::new(
        if a.x >= b.x { a.x } else { b.x },
        if a.y >= b.y { a.y } else { b.y },
        if a.z >= b.z { a.z } else { b.z },
    );
    let dx = Vec3::new(maxp.x - minp.x, 0, 0);
    let dy = Vec3::new(0, maxp.y - minp.y, 0);
    let dz = Vec3::new(0, 0, maxp.z - minp.z);
    let ghost n0 = material.0 + 1;
    let mut faces: Vec<Hittable> = Vec::new();
    push_surface(&mut faces, Hittable::Quad(Quad::new(
        Vec3::new(minp.x, minp.y, maxp.z), dx, dy, material)), Ghost(n0));
    push_surface(&mut faces, Hittable::Quad(Quad::new(
        Vec3::new(maxp.x, minp.y, maxp.z), dz.neg(), dy, material)), Ghost(n0));
    push_surface(&mut faces, Hittable::Quad(Quad::new(
        Vec3::new(maxp.x, minp.y, minp.z), dx.neg(), dy, material)), Ghost(n0));
    push_surface(&mut faces, Hittable::Quad(Quad::new(
        Vec3::new(minp.x, minp.y, minp.z), dz, dy, material)), Ghost(n0));
    push_surface(&mut faces, Hittable::Quad(Quad::new(
        Vec3::new(minp.x, maxp.y, maxp.z), dx, dz.neg(), material)), Ghost(n0));
    push_surface(&mut faces, Hittable::Quad(Quad::new(
        Vec3::new(minp.x, minp.y, minp.z), dx, dz, material)), Ghost(n0));
    let r = HittableList::from_slice(faces);
    proof {
        assert forall|n: int| material.0 < n
            implies mats_below(Hittable::List(r), n) by {
            assert(mats_below(Hittable::List(r), n0));
            lemma_mats_mono(Hittable::List(r), n0, n);
        }
    }
    r
}

} // verus!
