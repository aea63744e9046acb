//! Rays: an origin, a direction (not necessarily unit length) and a time.

use vstd::prelude::*;
use crate::fixed::{clip, smul, tdiv, CMAX, SCALE, TMAX};
use crate::fixed::{lemma_mul_bound, lemma_tdiv_bound};
use crate::vec3::{bounded, Vec3};

verus! {

#[derive(Debug, Clone, Copy)]
pub struct Ray {
    pub origin: Vec3,
    pub direction: Vec3,
    /// Time in `[0, 1)` (raw fixed point), used for moving geometry.
    pub time: i64,
}

/// The rays the tracer forms: coordinates in range, time in `[0, 1)`.
pub open spec fn ray_wf(r: Ray) -> bool {
    &&& bounded(r.origin, CMAX as int)
    &&& bounded(r.direction, CMAX as int)
    &&& 0 <= r.time < SCALE
}

/// One coordinate of the point a ray reaches at parameter `t`, clamped to the
/// coordinate range.
pub open spec fn at_c(o: int, d: int, t: int) -> int {
    clip(o + smul(t, d), CMAX as int)
}

/// The point `origin + t * direction`, each coordinate clamped.
pub open spec fn spec_at(r: Ray, t: int) -> Vec3 {
    Vec3 {
        x: at_c(r.origin.x as int, r.direction.x as int, t) as i64,
        y: at_c(r.origin.y as int, r.direction.y as int, t) as i64,
        z: at_c(r.origin.z as int, r.direction.z as int, t) as i64,
    }
}

impl Ray {
    pub fn new(origin: Vec3, direction: Vec3, time: i64) -> (r: Self)
        ensures
            r == (Ray { origin, direction, time }),
    {
        Ray { origin, direction, time }
    }

    /// The point the ray reaches at parameter `t`.
    pub fn at(&self, t: i64) -> (r: Vec3)
        requires
            bounded(self.origin, CMAX as int),
            bounded(self.direction, CMAX as int),
            -TMAX <= t <= TMAX,
        ensures
            r == spec_at(*self, t as int),
            bounded(r, CMAX as int),
    {
        let x = at_coord(self.origin.x, self.direction.x, t);
        let y = at_coord(self.origin.y, self.direction.y, t);
        let z = at_coord(self.origin.z, self.direction.z, t);
        Vec3 { x, y, z }
    }
}

fn at_coord(o: i64, d: i64, t: i64) -> (r: i64)
    requires
        -CMAX <= o <= CMAX,
        -CMAX <= d <= CMAX,
        -TMAX <= t <= TMAX,
    ensures
        r == at_c(o as int, d as int, t as int),
{
    proof {
        lemma_mul_bound(t as int, d as int, TMAX as int, CMAX as int);
        lemma_tdiv_bound(t as int * d as int, SCALE as int, TMAX as int * CMAX as int);
    }
    let p: i128 = (t as i128) * (d as i128);
    let q = crate::fixed::div_i128(p, SCALE as i128);
    let v: i128 = (o as i128) + q;
    if v > CMAX as i128 {
        CMAX
    } else if v < -(CMAX as i128) {
        -CMAX
    } else {
        v as i64
    }
}

} // verus!
