//! The camera: viewport geometry, primary-ray generation, the recursive path
//! integrator, and batch/progressive sample accumulation.

use vstd::prelude::*;
use vstd::pervasive::VecAdditionalExecFns;
use crate::fixed::{
    clip, fx_clip, fx_div_sat, lemma_avg_bound, lemma_tdiv_close, sdiv, smul, tdiv, CMAX, SCALE,
    SMAX, TMAX,
};
use crate::ray::{ray_wf, Ray};
use crate::rng::Rng;
use crate::rng::{next_state, out_word};
use crate::trig::{deg2rad, tan_fx, tan_spec, RAD_PER_DEG};
use crate::util::{linear_to_gamma, rand_unit_disc_vec3, spec_rand_disc, vgamma, Interval};
use crate::vec3::{bounded, spec_normalize, vadd, vclip, vdiv_i, vmul, vneg, vsmul, vsub, Color, Vec3};
use crate::hittable::lin_hit;
use crate::material::{spec_emit, spec_scatter, spec_scatter_state};
use crate::world::{world_wf, World};

verus! {

pub struct Camera {
    pub eye: Vec3,
    pub width: u32,
    pub height: u32,
    pub pixel00_loc: Vec3,
    pub pixel_delta_u: Vec3,
    pub pixel_delta_v: Vec3,
    pub defocus_angle: i64,
    pub defocus_disc_u: Vec3,
    pub defocus_disc_v: Vec3,
    pub samples_per_pixel: u32,
    pub max_bounces: u32,
    pub background_color: Option<Color>,
}

/// The shape of every constructed camera.
pub open spec fn cam_wf(c: Camera) -> bool {
    &&& bounded(c.eye, SMAX as int)
    &&& bounded(c.pixel00_loc, CMAX as int)
    &&& bounded(c.pixel_delta_u, CMAX as int)
    &&& bounded(c.pixel_delta_v, CMAX as int)
    &&& bounded(c.defocus_disc_u, CMAX as int)
    &&& bounded(c.defocus_disc_v, CMAX as int)
    &&& 1 <= c.width <= 16384
    &&& 1 <= c.height <= 16384
    &&& 1 <= c.samples_per_pixel <= 65536
    &&& match c.background_color {
        Some(b) => bounded(b, CMAX as int),
        None => true,
    }
}

/// The procedural sky: a vertical white-to-blue gradient over the ray's
/// normalized vertical component.
pub open spec fn spec_sky(ray: Ray) -> Color {
    let unit = if ray.direction.x == 0 && ray.direction.y == 0 && ray.direction.z == 0 {
        Vec3 { x: 0i64, y: 0i64, z: 0i64 }
    } else {
        spec_normalize(ray.direction)
    };
    let a = tdiv(unit.y + SCALE, 2);
    vclip(vadd(
        vsmul(Vec3 { x: SCALE, y: SCALE, z: SCALE }, SCALE - a),
        vsmul(Vec3 { x: 32768, y: 45875, z: SCALE }, a),
    ), CMAX as int)
}


/// The view basis: `w` looks from the target to the eye, `u` spans the
/// viewport horizontally, `v` vertically; degenerate inputs fall back to the
/// coordinate axes.
pub open spec fn spec_basis(eye: Vec3, look_at: Vec3, up: Vec3) -> (Vec3, Vec3, Vec3) {
    let w0 = vsub(eye, look_at);
    let wv = if w0.x == 0 && w0.y == 0 && w0.z == 0 {
        Vec3 { x: 0i64, y: 0i64, z: SCALE }
    } else {
        spec_normalize(w0)
    };
    let u0 = crate::quad::spec_cross(up, wv);
    let uu = if u0.x == 0 && u0.y == 0 && u0.z == 0 {
        Vec3 { x: SCALE, y: 0i64, z: 0i64 }
    } else {
        spec_normalize(u0)
    };
    let vv = crate::quad::spec_cross(wv, uu);
    (wv, uu, vv)
}

/// The two viewport edge vectors, from the field of view, the focus distance
/// and the aspect ratio.
pub open spec fn spec_viewport(uu: Vec3, vv: Vec3, v_fov: i64, focus_dist: i64,
    width: u32, height: u32) -> (Vec3, Vec3) {
    let theta = smul(v_fov as int, RAD_PER_DEG as int);
    let h = tan_spec(tdiv(theta, 2));
    let vh = clip(2 * smul(h, focus_dist as int), CMAX as int);
    let aspect = clip(sdiv(width * SCALE, height * SCALE), CMAX as int);
    let vw = clip(smul(vh, aspect), CMAX as int);
    (vclip(vsmul(uu, vw), CMAX as int), vclip(vsmul(vneg(vv), vh), CMAX as int))
}

/// The horizontal per-pixel step vector.
pub open spec fn spec_pdu(eye: Vec3, look_at: Vec3, up: Vec3, v_fov: i64, focus_dist: i64,
    width: u32, height: u32) -> Vec3 {
    let (wv, uu, vv) = spec_basis(eye, look_at, up);
    vdiv_i(spec_viewport(uu, vv, v_fov, focus_dist, width, height).0, width as int)
}

/// The vertical per-pixel step vector.
pub open spec fn spec_pdv(eye: Vec3, look_at: Vec3, up: Vec3, v_fov: i64, focus_dist: i64,
    width: u32, height: u32) -> Vec3 {
    let (wv, uu, vv) = spec_basis(eye, look_at, up);
    vdiv_i(spec_viewport(uu, vv, v_fov, focus_dist, width, height).1, height as int)
}

/// The location of the first pixel's center: the viewport's upper-left corner
/// plus half a pixel step each way.
pub open spec fn spec_pixel00(eye: Vec3, look_at: Vec3, up: Vec3, v_fov: i64, focus_dist: i64,
    width: u32, height: u32) -> Vec3 {
    let (wv, uu, vv) = spec_basis(eye, look_at, up);
    let (vu, vvp) = spec_viewport(uu, vv, v_fov, focus_dist, width, height);
    let pdu = spec_pdu(eye, look_at, up, v_fov, focus_dist, width, height);
    let pdv = spec_pdv(eye, look_at, up, v_fov, focus_dist, width, height);
    let vul = vclip(vsub(vsub(vsub(eye, vsmul(wv, focus_dist as int)), vdiv_i(vu, 2)),
        vdiv_i(vvp, 2)), CMAX as int);
    vclip(vadd(vul, vsmul(vadd(pdu, pdv), 32768)), CMAX as int)
}

/// The thin-lens radius: the focus distance times the tangent of half the
/// defocus angle.
pub open spec fn spec_defocus_radius(focus_dist: i64, defocus_angle: i64) -> int {
    clip(smul(focus_dist as int,
        tan_spec(smul(tdiv(defocus_angle as int, 2), RAD_PER_DEG as int))), CMAX as int)
}


/// The jittered sample point for pixel `(x, y)`: the pixel center plus the
/// two uniform jitters the first two stream draws name.
#[verifier::opaque]
pub open spec fn spec_pixel_sample(c: Camera, x: u32, y: u32, s0: u64) -> Vec3 {
    let px = -32768 + smul(65536, (out_word(next_state(s0)) & 0xffff) as int);
    let py = -32768 + smul(65536, (out_word(next_state(next_state(s0))) & 0xffff) as int);
    let pc1 = vclip(vadd(c.pixel00_loc,
        vclip(vsmul(c.pixel_delta_u, x * SCALE), CMAX as int)), CMAX as int);
    let pc = vclip(vadd(pc1,
        vclip(vsmul(c.pixel_delta_v, y * SCALE), CMAX as int)), CMAX as int);
    let ps1 = vclip(vadd(pc, vclip(vsmul(c.pixel_delta_u, px), CMAX as int)), CMAX as int);
    vclip(vadd(ps1, vclip(vsmul(c.pixel_delta_v, py), CMAX as int)), CMAX as int)
}

/// The lens origin of a primary ray: the eye, or a point jittered on the
/// defocus disc by the draws that follow the two pixel jitters.
#[verifier::opaque]
pub open spec fn spec_ray_origin(c: Camera, s0: u64) -> Vec3 {
    if c.defocus_angle <= 0 {
        c.eye
    } else {
        let off = spec_rand_disc(next_state(next_state(s0)));
        let o1 = vclip(vadd(c.eye,
            vclip(vsmul(c.defocus_disc_u, off.x as int), CMAX as int)), CMAX as int);
        vclip(vadd(o1,
            vclip(vsmul(c.defocus_disc_v, off.y as int), CMAX as int)), CMAX as int)
    }
}

/// The primary ray pixel `(x, y)` gets from stream state `s0`: jittered
/// sample point, lens origin, and a fresh time from the final draw.
#[verifier::opaque]
pub open spec fn spec_get_ray(c: Camera, x: u32, y: u32, s0: u64) -> Ray {
    let ps = spec_pixel_sample(c, x, y, s0);
    let origin = spec_ray_origin(c, s0);
    let s_time = if c.defocus_angle <= 0 {
        next_state(next_state(next_state(s0)))
    } else {
        next_state(next_state(next_state(next_state(next_state(s0)))))
    };
    Ray {
        origin,
        direction: vclip(vsub(ps, origin), CMAX as int),
        time: (out_word(s_time) & 0xffff) as i64,
    }
}

/// The stream state a primary ray leaves behind: three draws, or five when
/// the lens disc is sampled.
pub open spec fn spec_get_ray_state(c: Camera, s0: u64) -> u64 {
    if c.defocus_angle <= 0 {
        next_state(next_state(next_state(s0)))
    } else {
        next_state(next_state(next_state(next_state(next_state(s0)))))
    }
}


/// The color and stream state the integrator yields: black at the bounce
/// limit; the configured background or the sky on a miss; on a hit, the
/// emitted radiance plus the clamped product of the scattering attenuation
/// and the recursive color of the scattered ray.
#[verifier::opaque]
pub open spec fn spec_ray_color(c: Camera, w: World, ray: Ray, depth: u32, s0: u64)
    -> (Color, u64)
    decreases c.max_bounces - depth,
{
    if depth >= c.max_bounces {
        (Vec3 { x: 0i64, y: 0i64, z: 0i64 }, s0)
    } else {
        match lin_hit(crate::bvh::leaf_surfs(w.bvh->Some_0.root, w.bvh->Some_0.surfaces@),
            ray, 66, TMAX as int) {
            Some(rec) => {
                let m = w.materials@[rec.material.0 as int];
                let emitted = spec_emit(m, rec.uv, rec.position);
                let s1 = spec_scatter_state(m, s0, ray);
                match spec_scatter(m, s0, ray, rec) {
                    Some(sr) => {
                        let (bounced, s2) = spec_ray_color(c, w, sr.ray,
                            (depth + 1) as u32, s1);
                        (vclip(vadd(vclip(vmul(sr.attenuation, bounced), CMAX as int),
                            emitted), CMAX as int), s2)
                    },
                    None => (emitted, s1),
                }
            },
            None => (
                match c.background_color {
                    Some(bg) => bg,
                    None => spec_sky(ray),
                },
                s0,
            ),
        }
    }
}


/// The running sum of `n` integrator samples for pixel `(x, y)` starting from
/// stream state `s0`, with the state left after them.
#[verifier::opaque]
pub open spec fn spec_sample_sum(c: Camera, w: World, x: u32, y: u32, s0: u64, n: nat)
    -> (Vec3, u64)
    decreases n,
{
    if n == 0 {
        (Vec3 { x: 0i64, y: 0i64, z: 0i64 }, s0)
    } else {
        let (pre, s1) = spec_sample_sum(c, w, x, y, s0, (n - 1) as nat);
        let ray = spec_get_ray(c, x, y, s1);
        let s2 = spec_get_ray_state(c, s1);
        let (col, s3) = spec_ray_color(c, w, ray, 0, s2);
        (vadd(pre, col), s3)
    }
}

/// The pixel's color: the truncated mean of `samples_per_pixel` integrator
/// samples drawn along the stream.
pub open spec fn spec_render_pixel(c: Camera, w: World, x: u32, y: u32, s0: u64)
    -> (Vec3, u64) {
    let (sum, s1) = spec_sample_sum(c, w, x, y, s0, c.samples_per_pixel as nat);
    (vdiv_i(sum, c.samples_per_pixel as int), s1)
}

/// The first `k` pixels of a frame in row-major order, each gamma corrected,
/// with the stream threaded through them.
#[verifier::opaque]
pub open spec fn spec_render_seq(c: Camera, w: World, s0: u64, k: nat) -> (Seq<Color>, u64)
    decreases k,
{
    if k == 0 {
        (Seq::empty(), s0)
    } else {
        let (pre, s1) = spec_render_seq(c, w, s0, (k - 1) as nat);
        let col = (((k - 1) as int) % (c.width as int)) as u32;
        let row = (((k - 1) as int) / (c.width as int)) as u32;
        let (pix, s2) = spec_render_pixel(c, w, col, row, s1);
        (pre.push(vgamma(pix)), s2)
    }
}

/// The weighted-average update of one channel triple: the old average carries
/// its sample count, the batch sum joins it, and the total count divides.
pub open spec fn spec_accumulate(old_avg: Color, num_previous: u32, batch_sum: Color,
    num_new: u32) -> Color {
    Vec3 {
        x: tdiv(old_avg.x * num_previous + batch_sum.x, num_previous + num_new as int) as i64,
        y: tdiv(old_avg.y * num_previous + batch_sum.y, num_previous + num_new as int) as i64,
        z: tdiv(old_avg.z * num_previous + batch_sum.z, num_previous + num_new as int) as i64,
    }
}

/// One progressive batch over the first `k` pixels: each running average is
/// folded with a fresh batch sum by the weighted-average update.
#[verifier::opaque]
pub open spec fn spec_batch_seq(c: Camera, w: World, data0: Seq<Color>, s0: u64, k: nat,
    num_new: u32, num_previous: u32) -> (Seq<Color>, u64)
    decreases k,
{
    if k == 0 {
        (data0, s0)
    } else {
        let (pre, s1) = spec_batch_seq(c, w, data0, s0, (k - 1) as nat, num_new, num_previous);
        let col = (((k - 1) as int) % (c.width as int)) as u32;
        let row = (((k - 1) as int) / (c.width as int)) as u32;
        let (bsum, s2) = spec_sample_sum(c, w, col, row, s1, num_new as nat);
        (pre.update((k - 1) as int,
            spec_accumulate(data0[(k - 1) as int], num_previous, bsum, num_new)), s2)
    }
}

/// The row and column a row-major index names.
proof fn lemma_rowcol(k: int, row: int, col: int, width: int)
    requires
        width >= 1,
        0 <= col < width,
        0 <= row,
        k == row * width + col,
    ensures
        k % width == col,
        k / width == row,
{
    vstd::arithmetic::div_mod::lemma_fundamental_div_mod(k, width);
    vstd::arithmetic::div_mod::lemma_mod_bound(k, width);
    assert(k % width == col && k / width == row) by (nonlinear_arith)
        requires
            width >= 1,
            0 <= col < width,
            0 <= row,
            k == row * width + col,
            k == width * (k / width) + (k % width),
            0 <= (k % width),
            (k % width) < width;
}

impl Camera {
    /// Derive the camera from the scene parameters.
    #[verifier::rlimit(100)]
    pub fn new(
        width: u32,
        height: u32,
        eye: Vec3,
        look_at: Vec3,
        up: Vec3,
        v_fov: i64,
        focus_dist: i64,
        defocus_angle: i64,
        samples_per_pixel: u32,
        max_bounces: u32,
        background_color: Option<Color>,
    ) -> (r: Camera)
        requires
            1 <= width <= 16384,
            1 <= height <= 16384,
            bounded(eye, SMAX as int),
            bounded(look_at, SMAX as int),
            bounded(up, 2 * SCALE as int),
            0 <= v_fov <= CMAX,
            0 < focus_dist <= SMAX,
            0 <= defocus_angle <= CMAX,
            1 <= samples_per_pixel <= 65536,
            match background_color {
                Some(b) => bounded(b, CMAX as int),
                None => true,
            },
        ensures
            cam_wf(r),
            r.width == width && r.height == height && r.eye == eye,
            r.samples_per_pixel == samples_per_pixel && r.max_bounces == max_bounces,
            r.background_color == background_color,
            r.defocus_angle == defocus_angle,
            r.pixel_delta_u == spec_pdu(eye, look_at, up, v_fov, focus_dist, width, height),
            r.pixel_delta_v == spec_pdv(eye, look_at, up, v_fov, focus_dist, width, height),
            r.pixel00_loc == spec_pixel00(eye, look_at, up, v_fov, focus_dist, width, height),
            r.defocus_disc_u == vclip(vsmul(spec_basis(eye, look_at, up).1,
                spec_defocus_radius(focus_dist, defocus_angle)), CMAX as int),
            r.defocus_disc_v == vclip(vsmul(spec_basis(eye, look_at, up).2,
                spec_defocus_radius(focus_dist, defocus_angle)), CMAX as int),
    {
        let w0 = eye.sub(look_at);
        let wv = if w0.near_zero() {
            Vec3::new(0, 0, SCALE)
        } else {
            proof {
                crate::vec3::lemma_nonzero_dot(w0);
            }
            w0.normalize()
        };
        let u0 = up.cross(wv);
        proof {
            lemma_cross_small(up, wv);
        }
        let uu = if u0.near_zero() {
            Vec3::new(SCALE, 0, 0)
        } else {
            proof {
                crate::vec3::lemma_nonzero_dot(u0);
            }
            u0.normalize()
        };
        let vv = wv.cross(uu);
        proof {
            lemma_cross_small(wv, uu);
            assert((wv, uu, vv) == spec_basis(eye, look_at, up));
        }
        let theta = deg2rad(v_fov);
        let h = tan_fx(theta / 2);
        proof {
            assert(theta / 2 == tdiv(theta as int, 2));
            crate::fixed::lemma_smul_bound(h as int, focus_dist as int, 1073741824,
                536870000, 576460617119940608);
        }
        let viewport_height = fx_clip(2 * crate::fixed::fx_mul(h, focus_dist), CMAX);
        let aspect = fx_div_sat(width as i64 * SCALE, height as i64 * SCALE, CMAX);
        proof {
            crate::fixed::lemma_smul_bound(viewport_height as int, aspect as int, 1073741824,
                1073741824, 1152921504606846976);
        }
        let viewport_width = fx_clip(crate::fixed::fx_mul(viewport_height, aspect), CMAX);
        let viewport_u = uu.scale(viewport_width).clamp_c(CMAX);
        let viewport_v = vv.neg().scale(viewport_height).clamp_c(CMAX);
        proof {
            assert((viewport_u, viewport_v)
                == spec_viewport(uu, vv, v_fov, focus_dist, width, height));
        }
        let pixel_delta_u = viewport_u.div_int(width as i64);
        let pixel_delta_v = viewport_v.div_int(height as i64);
        proof {
            assert(pixel_delta_u == spec_pdu(eye, look_at, up, v_fov, focus_dist, width, height));
            assert(pixel_delta_v == spec_pdv(eye, look_at, up, v_fov, focus_dist, width, height));
        }
        proof {
            crate::fixed::lemma_tdiv_bound(viewport_u.x as int, width as int, 1073741824);
            crate::fixed::lemma_tdiv_bound(viewport_u.y as int, width as int, 1073741824);
            crate::fixed::lemma_tdiv_bound(viewport_u.z as int, width as int, 1073741824);
            crate::fixed::lemma_tdiv_bound(viewport_v.x as int, height as int, 1073741824);
            crate::fixed::lemma_tdiv_bound(viewport_v.y as int, height as int, 1073741824);
            crate::fixed::lemma_tdiv_bound(viewport_v.z as int, height as int, 1073741824);
            crate::fixed::lemma_tdiv_bound(viewport_u.x as int, 2, 1073741824);
            crate::fixed::lemma_tdiv_bound(viewport_u.y as int, 2, 1073741824);
            crate::fixed::lemma_tdiv_bound(viewport_u.z as int, 2, 1073741824);
            crate::fixed::lemma_tdiv_bound(viewport_v.x as int, 2, 1073741824);
            crate::fixed::lemma_tdiv_bound(viewport_v.y as int, 2, 1073741824);
            crate::fixed::lemma_tdiv_bound(viewport_v.z as int, 2, 1073741824);
            crate::fixed::lemma_smul_bound(wv.x as int, focus_dist as int, 131072,
                536870000, 70368624640000);
            crate::fixed::lemma_smul_bound(wv.y as int, focus_dist as int, 131072,
                536870000, 70368624640000);
            crate::fixed::lemma_smul_bound(wv.z as int, focus_dist as int, 131072,
                536870000, 70368624640000);
        }
        let vul = eye.sub(wv.scale(focus_dist)).sub(viewport_u.div_int(2))
            .sub(viewport_v.div_int(2)).clamp_c(CMAX);
        proof {
            crate::fixed::lemma_smul_bound((pixel_delta_u.x + pixel_delta_v.x) as int, 32768,
                2147483648, 32768, 70368744177664);
            crate::fixed::lemma_smul_bound((pixel_delta_u.y + pixel_delta_v.y) as int, 32768,
                2147483648, 32768, 70368744177664);
            crate::fixed::lemma_smul_bound((pixel_delta_u.z + pixel_delta_v.z) as int, 32768,
                2147483648, 32768, 70368744177664);
        }
        let pixel00_loc = vul.add(pixel_delta_u.add(pixel_delta_v).scale(32768)).clamp_c(CMAX);
        proof {
            assert(pixel00_loc
                == spec_pixel00(eye, look_at, up, v_fov, focus_dist, width, height));
        }
        let tn = tan_fx(deg2rad(defocus_angle / 2));
        proof {
            assert(defocus_angle / 2 == tdiv(defocus_angle as int, 2));
            crate::fixed::lemma_smul_bound(focus_dist as int, tn as int, 536870000,
                1073741824, 576460617119940608);
        }
        let defocus_radius = fx_clip(crate::fixed::fx_mul(focus_dist, tn), CMAX);
        proof {
            assert(defocus_radius as int == spec_defocus_radius(focus_dist, defocus_angle));
        }
        let defocus_disc_u = uu.scale(defocus_radius).clamp_c(CMAX);
        let defocus_disc_v = vv.scale(defocus_radius).clamp_c(CMAX);
        Camera {
            eye,
            width,
            height,
            pixel00_loc,
            pixel_delta_u,
            pixel_delta_v,
            defocus_angle,
            defocus_disc_u,
            defocus_disc_v,
            samples_per_pixel,
            max_bounces,
            background_color,
        }
    }

    /// A primary ray through pixel `(x, y)`: the pixel center jittered within
    /// the pixel, origin jittered on the lens disc when depth of field is on,
    /// and a fresh time in `[0, 1)` for motion blur; exactly the ray
    /// `spec_get_ray` names for the current stream state.
    #[verifier::rlimit(100)]
    pub fn get_ray(&self, x: u32, y: u32, rng: &mut Rng) -> (r: Ray)
        requires
            cam_wf(*self),
            x < self.width,
            y < self.height,
        ensures
            r == spec_get_ray(*self, x, y, old(rng).state),
            final(rng).state == spec_get_ray_state(*self, old(rng).state),
            ray_wf(r),
            r.origin == self.eye || self.defocus_angle > 0,
    {
        let ghost s0 = rng.state;
        let px = rng.range(-32768, 32768);
        let py = rng.range(-32768, 32768);
        proof {
            crate::fixed::lemma_mask16(out_word(next_state(s0)));
            crate::fixed::lemma_mask16(out_word(next_state(next_state(s0))));
        }
        let pixel_center = self.pixel00_loc
            .add(self.pixel_delta_u.scale(x as i64 * SCALE).clamp_c(CMAX)).clamp_c(CMAX)
            .add(self.pixel_delta_v.scale(y as i64 * SCALE).clamp_c(CMAX)).clamp_c(CMAX);
        let pixel_sample = pixel_center
            .add(self.pixel_delta_u.scale(px).clamp_c(CMAX)).clamp_c(CMAX)
            .add(self.pixel_delta_v.scale(py).clamp_c(CMAX)).clamp_c(CMAX);
        proof {
            reveal(spec_get_ray);
            reveal(spec_pixel_sample);
            reveal(spec_ray_origin);
            assert(pixel_sample == spec_pixel_sample(*self, x, y, s0));
        }
        let ray_origin = if self.defocus_angle <= 0 {
            self.eye
        } else {
            let off = rand_unit_disc_vec3(rng);
            self.eye
                .add(self.defocus_disc_u.scale(off.x).clamp_c(CMAX)).clamp_c(CMAX)
                .add(self.defocus_disc_v.scale(off.y).clamp_c(CMAX)).clamp_c(CMAX)
        };
        let ray_direction = pixel_sample.sub(ray_origin).clamp_c(CMAX);
        let ray_time = rng.unit();
        proof {
            crate::fixed::lemma_mask16(out_word(rng.state));
        }
        Ray::new(ray_origin, ray_direction, ray_time)
    }

    /// The recursive integrator: exactly the color `spec_ray_color` names for
    /// the current stream state, leaving the stream where the spec says.
    #[verifier::rlimit(100)]
    pub fn ray_color(&self, ray: &Ray, depth: u32, world: &World, rng: &mut Rng) -> (r: Color)
        requires
            cam_wf(*self),
            world_wf(*world),
            world.bvh is Some,
            ray_wf(*ray),
        ensures
            r == spec_ray_color(*self, *world, *ray, depth, old(rng).state).0,
            final(rng).state == spec_ray_color(*self, *world, *ray, depth, old(rng).state).1,
            bounded(r, CMAX as int),
            depth >= self.max_bounces ==> r == (Vec3 { x: 0i64, y: 0i64, z: 0i64 }),
        decreases self.max_bounces - depth,
    {
        proof {
            reveal(spec_ray_color);
        }
        if depth >= self.max_bounces {
            return Vec3::zero();
        }
        match world.hit(ray, Interval(66, TMAX)) {
            Some(rec) => {
                let material = &world.materials[rec.material.0];
                let emitted = material.emit(rec.uv, rec.position);
                match material.scatter(rng, ray, &rec) {
                    Some(sr) => {
                        let bounced = self.ray_color(&sr.ray, depth + 1, world, rng);
                        let scatter_color = sr.attenuation.mul(bounced).clamp_c(CMAX);
                        scatter_color.add(emitted).clamp_c(CMAX)
                    },
                    None => emitted,
                }
            },
            None => {
                match &self.background_color {
                    Some(c) => *c,
                    None => sky(ray),
                }
            },
        }
    }

    /// Average `samples_per_pixel` integrator evaluations for one pixel
    /// (linear color, not yet gamma corrected): exactly the truncated sample
    /// mean `spec_render_pixel` names for the current stream state.
    pub fn render_pixel(&self, x: u32, y: u32, world: &World, rng: &mut Rng) -> (r: Color)
        requires
            cam_wf(*self),
            world_wf(*world),
            world.bvh is Some,
            x < self.width,
            y < self.height,
        ensures
            r == spec_render_pixel(*self, *world, x, y, old(rng).state).0,
            final(rng).state == spec_render_pixel(*self, *world, x, y, old(rng).state).1,
            bounded(r, CMAX as int),
    {
        let ghost s0 = rng.state;
        let mut sum = Vec3::zero();
        let n = self.samples_per_pixel;
        let mut k: u32 = 0;
        proof {
            reveal(spec_sample_sum);
        }
        while k < n
            invariant
                cam_wf(*self),
                world_wf(*world),
                world.bvh is Some,
                x < self.width,
                y < self.height,
                k <= n,
                n == self.samples_per_pixel,
                sum == spec_sample_sum(*self, *world, x, y, s0, k as nat).0,
                rng.state == spec_sample_sum(*self, *world, x, y, s0, k as nat).1,
                -(k as int * CMAX as int) <= sum.x <= k as int * CMAX as int,
                -(k as int * CMAX as int) <= sum.y <= k as int * CMAX as int,
                -(k as int * CMAX as int) <= sum.z <= k as int * CMAX as int,
            decreases n - k,
        {
            let ray = self.get_ray(x, y, rng);
            let c = self.ray_color(&ray, 0, world, rng);
            proof {
                reveal(spec_sample_sum);
                assert((k + 1) as int * CMAX as int == k as int * CMAX as int + CMAX as int)
                    by (nonlinear_arith);
            }
            sum = Vec3::new(sum.x + c.x, sum.y + c.y, sum.z + c.z);
            k = k + 1;
        }
        proof {
            lemma_avg_bound(sum.x as int, n as int, CMAX as int);
            lemma_avg_bound(sum.y as int, n as int, CMAX as int);
            lemma_avg_bound(sum.z as int, n as int, CMAX as int);
        }
        sum.div_int(n as i64)
    }

    /// Render the full frame: one gamma-corrected color per pixel, rows from
    /// the top, `width * height` entries in row-major order — exactly the
    /// sequence `spec_render_seq` names for the current stream state.
    pub fn render(&self, world: &World, rng: &mut Rng) -> (r: Vec<Color>)
        requires
            cam_wf(*self),
            world_wf(*world),
            world.bvh is Some,
        ensures
            r@ == spec_render_seq(*self, *world, old(rng).state,
                (self.width * self.height) as nat).0,
            final(rng).state == spec_render_seq(*self, *world, old(rng).state,
                (self.width * self.height) as nat).1,
            r@.len() == self.width * self.height,
            forall|i: int| 0 <= i < r@.len() ==> bounded(#[trigger] r@[i], CMAX as int),
    {
        proof {
            crate::fixed::lemma_mul_bound(self.width as int, self.height as int, 16384, 16384);
            reveal(spec_render_seq);
        }
        let ghost s0 = rng.state;
        let mut out: Vec<Color> = Vec::new();
        let mut row: u32 = 0;
        while row < self.height
            invariant
                cam_wf(*self),
                world_wf(*world),
                world.bvh is Some,
                row <= self.height,
                out@.len() == row * self.width,
                out@ == spec_render_seq(*self, *world, s0, out@.len() as nat).0,
                rng.state == spec_render_seq(*self, *world, s0, out@.len() as nat).1,
                forall|i: int| 0 <= i < out@.len() ==> bounded(#[trigger] out@[i], CMAX as int),
            decreases self.height - row,
        {
            let mut col: u32 = 0;
            while col < self.width
                invariant
                    cam_wf(*self),
                    world_wf(*world),
                    world.bvh is Some,
                    row < self.height,
                    col <= self.width,
                    out@.len() == row * self.width + col,
                    out@ == spec_render_seq(*self, *world, s0, out@.len() as nat).0,
                    rng.state == spec_render_seq(*self, *world, s0, out@.len() as nat).1,
                    forall|i: int| 0 <= i < out@.len()
                        ==> bounded(#[trigger] out@[i], CMAX as int),
                decreases self.width - col,
            {
                proof {
                    crate::fixed::lemma_mul_bound(row as int, self.width as int, 16384, 16384);
                    lemma_rowcol((row * self.width + col) as int, row as int, col as int,
                        self.width as int);
                }
                let linear = self.render_pixel(col, row, world, rng);
                out.push(linear_to_gamma(linear));
                proof {
                    reveal(spec_render_seq);
                }
                col = col + 1;
            }
            proof {
                assert((row + 1) as int * self.width as int
                    == row as int * self.width as int + self.width as int) by (nonlinear_arith);
            }
            row = row + 1;
        }
        proof {
            assert(self.height as int * self.width as int
                == self.width as int * self.height as int) by (nonlinear_arith);
        }
        out
    }

    /// Sum a batch of fresh integrator samples for one pixel.
    fn batch_pixel(&self, x: u32, y: u32, world: &World, rng: &mut Rng, num_samples: u32)
        -> (sum: Vec3)
        requires
            cam_wf(*self),
            world_wf(*world),
            world.bvh is Some,
            x < self.width,
            y < self.height,
            num_samples <= 65536,
        ensures
            sum == spec_sample_sum(*self, *world, x, y, old(rng).state, num_samples as nat).0,
            final(rng).state
                == spec_sample_sum(*self, *world, x, y, old(rng).state, num_samples as nat).1,
            bounded(sum, num_samples as int * CMAX as int),
    {
        let ghost s_pix = rng.state;
        let mut sum = Vec3::zero();
        let mut k: u32 = 0;
        proof {
            reveal(spec_sample_sum);
        }
        while k < num_samples
            invariant
                cam_wf(*self),
                world_wf(*world),
                world.bvh is Some,
                x < self.width,
                y < self.height,
                k <= num_samples,
                sum == spec_sample_sum(*self, *world, x, y, s_pix, k as nat).0,
                rng.state == spec_sample_sum(*self, *world, x, y, s_pix, k as nat).1,
                -(k as int * CMAX as int) <= sum.x <= k as int * CMAX as int,
                -(k as int * CMAX as int) <= sum.y <= k as int * CMAX as int,
                -(k as int * CMAX as int) <= sum.z <= k as int * CMAX as int,
            decreases num_samples - k,
        {
            let ray = self.get_ray(x, y, rng);
            let c = self.ray_color(&ray, 0, world, rng);
            proof {
                reveal(spec_sample_sum);
                assert((k + 1) as int * CMAX as int == k as int * CMAX as int + CMAX as int)
                    by (nonlinear_arith);
            }
            sum = Vec3::new(sum.x + c.x, sum.y + c.y, sum.z + c.z);
            k = k + 1;
        }
        proof {
            crate::fixed::lemma_mul_bound(num_samples as int, CMAX as int, 65536, CMAX as int);
        }
        sum
    }

    /// One progressive batch: fold `num_samples` fresh samples per pixel into
    /// the running averages in `data` by the weighted-average update, exactly
    /// as `spec_batch_seq` describes over the stream.
    #[verifier::rlimit(100)]
    pub fn render_x_samples(
        &self,
        data: &mut Vec<Color>,
        world: &World,
        rng: &mut Rng,
        num_samples: u32,
        num_previous_samples: u32,
    )
        requires
            cam_wf(*self),
            world_wf(*world),
            world.bvh is Some,
            old(data)@.len() == self.width * self.height,
            forall|i: int| 0 <= i < old(data)@.len()
                ==> bounded(#[trigger] old(data)@[i], CMAX as int),
            1 <= num_samples,
            num_samples + num_previous_samples <= 65536,
        ensures
            final(data)@ == spec_batch_seq(*self, *world, old(data)@, old(rng).state,
                old(data)@.len() as nat, num_samples, num_previous_samples).0,
            final(rng).state == spec_batch_seq(*self, *world, old(data)@, old(rng).state,
                old(data)@.len() as nat, num_samples, num_previous_samples).1,
            final(data)@.len() == old(data)@.len(),
            forall|i: int| 0 <= i < final(data)@.len()
                ==> bounded(#[trigger] final(data)@[i], CMAX as int),
    {
        let ghost data0 = data@;
        let ghost s0 = rng.state;
        proof {
            reveal(spec_batch_seq);
        }
        let n = data.len();
        let mut idx: usize = 0;
        while idx < n
            invariant
                cam_wf(*self),
                world_wf(*world),
                world.bvh is Some,
                n == self.width * self.height,
                n == data0.len(),
                idx <= n,
                data@.len() == n,
                data@ == spec_batch_seq(*self, *world, data0, s0, idx as nat,
                    num_samples, num_previous_samples).0,
                rng.state == spec_batch_seq(*self, *world, data0, s0, idx as nat,
                    num_samples, num_previous_samples).1,
                forall|i: int| idx <= i < data@.len() ==> #[trigger] data@[i] == data0[i],
                forall|i: int| 0 <= i < data@.len()
                    ==> bounded(#[trigger] data@[i], CMAX as int),
                1 <= num_samples,
                num_samples + num_previous_samples <= 65536,
            decreases n - idx,
        {
            let col = (idx % self.width as usize) as u32;
            let row = (idx / self.width as usize) as u32;
            proof {
                let wi = self.width as int;
                let hi = self.height as int;
                assert(idx as int / wi < hi) by (nonlinear_arith)
                    requires
                        (idx as int) < wi * hi,
                        wi >= 1;
            }
            let sum = self.batch_pixel(col, row, world, rng, num_samples);
            let updated = accumulate_average(data[idx], num_previous_samples, sum, num_samples);
            data.set(idx, updated);
            proof {
                reveal(spec_batch_seq);
                assert(col as int == idx as int % self.width as int);
                assert(row as int == idx as int / self.width as int);
            }
            idx = idx + 1;
        }
    }
}

/// The weighted-average update of progressive rendering: the old per-pixel
/// average weighted by its sample count, plus the new batch sum, divided by
/// the total count; exactly `(old * n1 + sum) / (n1 + n2)` per component.
pub fn accumulate_average(old_avg: Color, num_previous: u32, batch_sum: Color, num_new: u32)
    -> (r: Color)
    requires
        bounded(old_avg, CMAX as int),
        1 <= num_new,
        num_previous + num_new <= 65536,
        bounded(batch_sum, num_new as int * CMAX as int),
    ensures
        r.x == tdiv(old_avg.x * num_previous + batch_sum.x, num_previous + num_new as int),
        r.y == tdiv(old_avg.y * num_previous + batch_sum.y, num_previous + num_new as int),
        r.z == tdiv(old_avg.z * num_previous + batch_sum.z, num_previous + num_new as int),
        r == spec_accumulate(old_avg, num_previous, batch_sum, num_new),
        bounded(r, CMAX as int),
{
    let n1 = num_previous as i64;
    let n2 = num_new as i64;
    proof {
        crate::fixed::lemma_mul_bound(old_avg.x as int, n1 as int, CMAX as int, 65536);
        crate::fixed::lemma_mul_bound(old_avg.y as int, n1 as int, CMAX as int, 65536);
        crate::fixed::lemma_mul_bound(old_avg.z as int, n1 as int, CMAX as int, 65536);
        crate::fixed::lemma_mul_bound(num_new as int, CMAX as int, 65536, CMAX as int);
        lemma_accum_bound(old_avg.x as int, n1 as int, batch_sum.x as int, n2 as int);
        lemma_accum_bound(old_avg.y as int, n1 as int, batch_sum.y as int, n2 as int);
        lemma_accum_bound(old_avg.z as int, n1 as int, batch_sum.z as int, n2 as int);
    }
    let x = crate::fixed::div_i128(
        (old_avg.x as i128) * (n1 as i128) + (batch_sum.x as i128), (n1 + n2) as i128) as i64;
    let y = crate::fixed::div_i128(
        (old_avg.y as i128) * (n1 as i128) + (batch_sum.y as i128), (n1 + n2) as i128) as i64;
    let z = crate::fixed::div_i128(
        (old_avg.z as i128) * (n1 as i128) + (batch_sum.z as i128), (n1 + n2) as i128) as i64;
    Vec3 { x, y, z }
}

/// The accumulated numerator averages back into the color range.
proof fn lemma_accum_bound(avg: int, n1: int, s: int, n2: int)
    requires
        -CMAX <= avg <= CMAX,
        0 <= n1,
        1 <= n2,
        -(n2 * CMAX) <= s <= n2 * CMAX,
    ensures
        -((n1 + n2) * CMAX) <= avg * n1 + s <= (n1 + n2) * CMAX,
        -CMAX <= tdiv(avg * n1 + s, n1 + n2) <= CMAX,
{
    assert(-(n1 * CMAX) <= avg * n1 <= n1 * CMAX) by (nonlinear_arith)
        requires -CMAX <= avg <= CMAX && 0 <= n1;
    assert((n1 + n2) * CMAX == n1 * CMAX + n2 * CMAX) by (nonlinear_arith);
    lemma_avg_bound(avg * n1 + s, n1 + n2, CMAX as int);
}

/// Progressive accumulation tracks the plain average: folding a batch into a
/// truncated running average lands within one unit of the truncated average
/// of all samples taken together.
pub proof fn lemma_progressive_average(s1: int, n1: int, s2: int, n2: int)
    requires
        0 <= s1,
        0 <= s2,
        1 <= n1,
        1 <= n2,
    ensures
        tdiv(s1 + s2, n1 + n2) - 1 <= tdiv(tdiv(s1, n1) * n1 + s2, n1 + n2)
            <= tdiv(s1 + s2, n1 + n2),
{
    let avg1 = tdiv(s1, n1);
    crate::fixed::lemma_tdiv_nonneg(s1, n1);
    lemma_tdiv_close(s1, n1);
    assert(avg1 * n1 == n1 * avg1) by (nonlinear_arith);
    let d = s1 - avg1 * n1;
    assert(0 <= d < n1);
    assert(avg1 * n1 + s2 == s1 + s2 - d);
    assert(avg1 * n1 >= 0) by (nonlinear_arith)
        requires avg1 >= 0 && n1 >= 1;
    lemma_tdiv_close(s1 + s2, n1 + n2);
    lemma_tdiv_close(s1 + s2 - d, n1 + n2);
    assert(tdiv(s1 + s2, n1 + n2) - 1 <= tdiv(s1 + s2 - d, n1 + n2)
        <= tdiv(s1 + s2, n1 + n2)) by (nonlinear_arith)
        requires
            0 <= d < n1,
            d < n1 + n2,
            s1 + s2 >= 0,
            s1 + s2 - d >= 0,
            n1 + n2 > 0,
            (n1 + n2) * tdiv(s1 + s2, n1 + n2) <= s1 + s2
                < (n1 + n2) * tdiv(s1 + s2, n1 + n2) + (n1 + n2),
            (n1 + n2) * tdiv(s1 + s2 - d, n1 + n2) <= s1 + s2 - d
                < (n1 + n2) * tdiv(s1 + s2 - d, n1 + n2) + (n1 + n2);
}

/// The sky gradient for a missed ray.
fn sky(ray: &Ray) -> (r: Color)
    requires
        ray_wf(*ray),
    ensures
        r == spec_sky(*ray),
        bounded(r, CMAX as int),
{
    let unit = if ray.direction.near_zero() {
        Vec3::zero()
    } else {
        proof {
            crate::vec3::lemma_nonzero_dot(ray.direction);
        }
        ray.direction.normalize()
    };
    let a = (unit.y + SCALE) / 2;
    proof {
        assert(a == tdiv(unit.y as int + SCALE as int, 2));
        crate::fixed::lemma_smul_bound(SCALE as int, (SCALE - a) as int, 65536, 196608,
            12884901888);
        crate::fixed::lemma_smul_bound(45875, a as int, 65536, 196608, 12884901888);
        crate::fixed::lemma_smul_bound(32768, a as int, 65536, 196608, 12884901888);
        crate::fixed::lemma_smul_bound(SCALE as int, a as int, 65536, 196608, 12884901888);
    }
    let white = Vec3::new(SCALE, SCALE, SCALE).scale(SCALE - a);
    let blue = Vec3::new(32768, 45875, SCALE).scale(a);
    white.add(blue).clamp_c(CMAX)
}

/// Cross products of near-unit vectors stay small.
proof fn lemma_cross_small(a: Vec3, b: Vec3)
    requires
        bounded(a, 2 * SCALE as int),
        bounded(b, 2 * SCALE as int),
    ensures
        bounded(crate::quad::spec_cross(a, b), 8 * SCALE as int),
{
    crate::fixed::lemma_smul_bound(a.y as int, b.z as int, 131072, 131072, 17179869184);
    crate::fixed::lemma_smul_bound(a.z as int, b.y as int, 131072, 131072, 17179869184);
    crate::fixed::lemma_smul_bound(a.z as int, b.x as int, 131072, 131072, 17179869184);
    crate::fixed::lemma_smul_bound(a.x as int, b.z as int, 131072, 131072, 17179869184);
    crate::fixed::lemma_smul_bound(a.x as int, b.y as int, 131072, 131072, 17179869184);
    crate::fixed::lemma_smul_bound(a.y as int, b.x as int, 131072, 131072, 17179869184);
    crate::fixed::lemma_tdiv_bound(a.y * b.z - a.z * b.y, SCALE as int, 34359738368);
    crate::fixed::lemma_tdiv_bound(a.z * b.x - a.x * b.z, SCALE as int, 34359738368);
    crate::fixed::lemma_tdiv_bound(a.x * b.y - a.y * b.x, SCALE as int, 34359738368);
}

} // verus!
