//! A homogeneous participating medium bounded by a convex surface.

use vstd::prelude::*;
use crate::fixed::{fx_div_sat, fx_mul, smul, CMAX, SCALE};
use crate::hittable::Hittable;
use crate::material::MaterialRef;
use crate::ray::Ray;
use crate::rng::{next_state, out_word, Rng};

verus! {

pub struct ConstantVolume {
    pub boundary: Box<Hittable>,
    /// `-1 / density` at the fixed-point scale (a nonpositive value).
    pub neg_inv_density: i64,
    pub phase_function: MaterialRef,
    /// Decorrelation seed for the per-ray free-flight draw.
    pub seed: u64,
}

/// The pseudo-random word a ray draws inside a volume: the volume's seed
/// mixed with every ray coordinate through the stream's step function.
/// The draw is a pure function of the seed and the ray, so repeated tests of
/// the identical ray against the same volume get identical flight distances;
/// distinct primary rays (jittered in position and time) decorrelate it.
#[verifier::opaque]
pub open spec fn vol_word(seed: u64, ray: Ray) -> u64 {
    let h1 = next_state(seed ^ (ray.origin.x as u64));
    let h2 = next_state(h1 ^ (ray.origin.y as u64));
    let h3 = next_state(h2 ^ (ray.origin.z as u64));
    let h4 = next_state(h3 ^ (ray.direction.x as u64));
    let h5 = next_state(h4 ^ (ray.direction.y as u64));
    let h6 = next_state(h5 ^ (ray.direction.z as u64));
    out_word(next_state(h6 ^ (ray.time as u64)))
}

/// Compute the free-flight word for a ray.
pub fn mix_ray(seed: u64, ray: &Ray) -> (r: u64)
    ensures
        r == vol_word(seed, *ray),
{
    proof {
        reveal(vol_word);
    }
    let h1 = step(seed, ray.origin.x);
    let h2 = step(h1, ray.origin.y);
    let h3 = step(h2, ray.origin.z);
    let h4 = step(h3, ray.direction.x);
    let h5 = step(h4, ray.direction.y);
    let h6 = step(h5, ray.direction.z);
    let h7 = step(h6, ray.time);
    (h7 >> 31) ^ h7
}

fn step(h: u64, v: i64) -> (r: u64)
    ensures
        r == next_state(h ^ (v as u64)),
{
    let m = h ^ (#[verifier::truncate] (v as u64));
    m.wrapping_mul(6364136223846793005).wrapping_add(1442695040888963407)
}

impl ConstantVolume {
    /// A medium of the given density inside `boundary`, shaded by the phase
    /// function; draws a decorrelation seed from the stream.
    pub fn new(boundary: Box<Hittable>, density: i64, phase_function: MaterialRef,
        rng: &mut Rng) -> (r: Self)
        requires
            density > 0,
        ensures
            r.boundary == boundary,
            r.neg_inv_density ==
                -crate::fixed::clip(crate::fixed::sdiv(SCALE as int, density as int), CMAX as int),
            -CMAX <= r.neg_inv_density <= 0,
            r.phase_function == phase_function,
    {
        let inv = fx_div_sat(SCALE, density, CMAX);
        proof {
            assert(SCALE as int * SCALE as int >= 0) by (nonlinear_arith);
            crate::fixed::lemma_tdiv_nonneg(SCALE as int * SCALE as int, density as int);
        }
        let seed = rng.next_u64();
        ConstantVolume {
            boundary,
            neg_inv_density: -inv,
            phase_function,
            seed,
        }
    }
}

} // verus!
