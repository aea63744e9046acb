//! The scattering and emission models, driven by textures.

use vstd::prelude::*;
use crate::fixed::{clip, fx_div_sat, fx_mul, fx_sqrt, sdiv, smul, sqrt_floor, tdiv, CMAX, SCALE};
use crate::hittable::{rec_wf, HitRecord};
use crate::ray::{ray_wf, Ray};
use crate::rng::{next_state, out_word, Rng};
use crate::texture::{spec_sample, tex_wf, SolidColor, TexCoord, Texture};
use crate::util::{
    rand_unit_vec3, reflect, reflectance, refract, spec_rand_unit, spec_reflect, spec_reflectance,
    spec_refract,
};
use crate::vec3::{bounded, sdot, vadd, vclip, vneg, vsmul, Color, Vec3};

verus! {

/// A stable handle into the world's material registry.
#[derive(Debug, Clone, Copy, PartialEq, Eq, Structural)]
pub struct MaterialRef(pub usize);

/// A scattering outcome: the continuation ray and the color multiplier.
pub struct ScatterResult {
    pub ray: Ray,
    pub attenuation: Color,
}

pub struct Lambertian {
    pub texture: Texture,
}

pub struct Metal {
    pub albedo: Color,
    pub fuzziness: i64,
}

pub struct Dialectric {
    pub refraction_index: i64,
}

pub struct DiffuseLight {
    pub texture: Texture,
}

pub struct Isotropic {
    pub texture: Texture,
}

/// The closed set of material kinds.
pub enum Material {
    Lambertian(Lambertian),
    Metal(Metal),
    Dialectric(Dialectric),
    DiffuseLight(DiffuseLight),
    Isotropic(Isotropic),
}

/// Material well-formedness: textures well formed, parameters in range.
pub open spec fn mat_wf(m: Material) -> bool {
    match m {
        Material::Lambertian(l) => tex_wf(l.texture),
        Material::Metal(mt) => bounded(mt.albedo, CMAX as int) && 0 <= mt.fuzziness <= SCALE,
        Material::Dialectric(d) => 0 < d.refraction_index <= 16 * SCALE,
        Material::DiffuseLight(d) => tex_wf(d.texture),
        Material::Isotropic(i) => tex_wf(i.texture),
    }
}

impl Lambertian {
    pub fn new(texture: Texture) -> (r: Self)
        ensures
            r.texture == texture,
            tex_wf(texture) ==> mat_wf(Material::Lambertian(r)),
    {
        Lambertian { texture }
    }

    pub fn from_color(albedo: Color) -> (r: Self)
        ensures
            r.texture == Texture::Solid(SolidColor { color: albedo }),
            bounded(albedo, CMAX as int) ==> mat_wf(Material::Lambertian(r)),
    {
        Lambertian { texture: Texture::Solid(SolidColor { color: albedo }) }
    }
}

impl Metal {
    pub fn new(albedo: Color, fuzziness: i64) -> (r: Self)
        ensures
            r.albedo == albedo,
            r.fuzziness == fuzziness,
            bounded(albedo, CMAX as int) && 0 <= fuzziness <= SCALE
                ==> mat_wf(Material::Metal(r)),
    {
        Metal { albedo, fuzziness }
    }
}

impl Dialectric {
    pub fn new(refraction_index: i64) -> (r: Self)
        ensures
            r.refraction_index == refraction_index,
            0 < refraction_index <= 16 * SCALE ==> mat_wf(Material::Dialectric(r)),
    {
        Dialectric { refraction_index }
    }
}

impl DiffuseLight {
    pub fn from_color(color: Color) -> (r: Self)
        ensures
            r.texture == Texture::Solid(SolidColor { color }),
            bounded(color, CMAX as int) ==> mat_wf(Material::DiffuseLight(r)),
    {
        DiffuseLight { texture: Texture::Solid(SolidColor { color }) }
    }
}

impl Isotropic {
    pub fn from_color(color: Color) -> (r: Self)
        ensures
            r.texture == Texture::Solid(SolidColor { color }),
            bounded(color, CMAX as int) ==> mat_wf(Material::Isotropic(r)),
    {
        Isotropic { texture: Texture::Solid(SolidColor { color }) }
    }
}

/// What scattering yields, as a function of the material, the stream state,
/// the incoming ray and the hit record.
#[verifier::opaque]
pub open spec fn spec_scatter(m: Material, s0: u64, ray: Ray, rec: HitRecord)
    -> Option<ScatterResult> {
    match m {
        Material::Lambertian(l) => {
            let u = spec_rand_unit(s0);
            let d0 = vadd(rec.normal, u);
            let dir = if d0.x == 0 && d0.y == 0 && d0.z == 0 { rec.normal } else { d0 };
            Some(ScatterResult {
                ray: Ray { origin: rec.position, direction: dir, time: ray.time },
                attenuation: spec_sample(l.texture, rec.uv, rec.position),
            })
        },
        Material::Metal(mt) => {
            if ray.direction.x == 0 && ray.direction.y == 0 && ray.direction.z == 0 {
                None
            } else {
                let refl = spec_reflect(crate::vec3::spec_normalize(ray.direction), rec.normal);
                let u = spec_rand_unit(s0);
                let dir = vclip(vadd(refl, vsmul(u, mt.fuzziness as int)), CMAX as int);
                Some(ScatterResult {
                    ray: Ray { origin: rec.position, direction: dir, time: ray.time },
                    attenuation: mt.albedo,
                })
            }
        },
        Material::Dialectric(dl) => {
            if ray.direction.x == 0 && ray.direction.y == 0 && ray.direction.z == 0 {
                None
            } else {
                let ratio = if rec.front_face {
                    clip(sdiv(SCALE as int, dl.refraction_index as int), 16 * SCALE as int)
                } else {
                    dl.refraction_index as int
                };
                let unit = crate::vec3::spec_normalize(ray.direction);
                let d = sdot(vneg(unit), rec.normal);
                let cos_theta = if d >= SCALE { SCALE as int } else { d };
                let k = SCALE - smul(cos_theta, cos_theta);
                let sin_theta = if k < 0 { 0 } else { sqrt_floor(k * SCALE) };
                let cannot_refract = smul(ratio, sin_theta) > SCALE;
                let w = (out_word(next_state(s0)) & 0xffff) as int;
                let should_reflect = spec_reflectance(cos_theta, ratio) > w;
                let dir0 = if cannot_refract || should_reflect {
                    spec_reflect(unit, rec.normal)
                } else {
                    spec_refract(unit, rec.normal, ratio)
                };
                Some(ScatterResult {
                    ray: Ray {
                        origin: rec.position,
                        direction: vclip(dir0, CMAX as int),
                        time: ray.time,
                    },
                    attenuation: Vec3 { x: SCALE, y: SCALE, z: SCALE },
                })
            }
        },
        Material::DiffuseLight(_) => None,
        Material::Isotropic(i) => Some(ScatterResult {
            ray: Ray { origin: rec.position, direction: spec_rand_unit(s0), time: ray.time },
            attenuation: spec_sample(i.texture, rec.uv, rec.position),
        }),
    }
}

/// The stream state scattering leaves behind.
pub open spec fn spec_scatter_state(m: Material, s0: u64, ray: Ray) -> u64 {
    let zero_dir = ray.direction.x == 0 && ray.direction.y == 0 && ray.direction.z == 0;
    match m {
        Material::Lambertian(_) => next_state(next_state(s0)),
        Material::Metal(_) => if zero_dir { s0 } else { next_state(next_state(s0)) },
        Material::Dialectric(_) => if zero_dir { s0 } else { next_state(s0) },
        Material::DiffuseLight(_) => s0,
        Material::Isotropic(_) => next_state(next_state(s0)),
    }
}

/// What a material emits at a texture coordinate and point.
pub open spec fn spec_emit(m: Material, uv: TexCoord, p: Vec3) -> Color {
    match m {
        Material::DiffuseLight(d) => spec_sample(d.texture, uv, p),
        _ => Vec3 { x: 0i64, y: 0i64, z: 0i64 },
    }
}

fn scatter_lambertian(l: &Lambertian, rng: &mut Rng, ray: &Ray, rec: &HitRecord)
    -> (r: Option<ScatterResult>)
    requires
        tex_wf(l.texture),
        ray_wf(*ray),
        rec_wf(*rec),
    ensures
        r == spec_scatter(Material::Lambertian(Lambertian { texture: l.texture }),
            old(rng).state, *ray, *rec),
        final(rng).state == next_state(next_state(old(rng).state)),
        match r { Some(sr) => ray_wf(sr.ray) && bounded(sr.attenuation, CMAX as int)
            && sr.ray.time == ray.time, None => true },
{
    proof {
        reveal(spec_scatter);
    }
    let u = rand_unit_vec3(rng);
    let sum = rec.normal.add(u);
    let dir = if sum.near_zero() { rec.normal } else { sum };
    let attenuation = l.texture.sample(rec.uv, rec.position);
    Some(ScatterResult {
        ray: Ray::new(rec.position, dir, ray.time),
        attenuation,
    })
}

fn scatter_metal(mt: &Metal, rng: &mut Rng, ray: &Ray, rec: &HitRecord)
    -> (r: Option<ScatterResult>)
    requires
        bounded(mt.albedo, CMAX as int),
        0 <= mt.fuzziness <= SCALE,
        ray_wf(*ray),
        rec_wf(*rec),
    ensures
        r == spec_scatter(Material::Metal(Metal { albedo: mt.albedo, fuzziness: mt.fuzziness }),
            old(rng).state, *ray, *rec),
        final(rng).state == if ray.direction.x == 0 && ray.direction.y == 0
            && ray.direction.z == 0 { old(rng).state } else {
            next_state(next_state(old(rng).state)) },
        match r { Some(sr) => ray_wf(sr.ray) && bounded(sr.attenuation, CMAX as int)
            && sr.ray.time == ray.time, None => true },
{
    proof {
        reveal(spec_scatter);
    }
    if ray.direction.near_zero() {
        return None;
    }
    proof {
        crate::vec3::lemma_nonzero_dot(ray.direction);
    }
    let unit = ray.direction.normalize();
    let refl = reflect(unit, rec.normal);
    let u = rand_unit_vec3(rng);
    let fuzz = u.scale(mt.fuzziness);
    proof {
        crate::fixed::lemma_smul_bound(u.x as int, mt.fuzziness as int, 65536,
            65536, 4294967296);
        crate::fixed::lemma_smul_bound(u.y as int, mt.fuzziness as int, 65536,
            65536, 4294967296);
        crate::fixed::lemma_smul_bound(u.z as int, mt.fuzziness as int, 65536,
            65536, 4294967296);
    }
    let fuzzed = refl.add(fuzz);
    let dir = fuzzed.clamp_c(CMAX);
    Some(ScatterResult {
        ray: Ray::new(rec.position, dir, ray.time),
        attenuation: mt.albedo,
    })
}

#[verifier::rlimit(100)]
#[verifier::spinoff_prover]
fn scatter_dialectric(dl: &Dialectric, rng: &mut Rng, ray: &Ray, rec: &HitRecord)
    -> (r: Option<ScatterResult>)
    requires
        0 < dl.refraction_index <= 16 * SCALE,
        ray_wf(*ray),
        rec_wf(*rec),
    ensures
        r == spec_scatter(Material::Dialectric(Dialectric {
            refraction_index: dl.refraction_index }), old(rng).state, *ray, *rec),
        final(rng).state == if ray.direction.x == 0 && ray.direction.y == 0
            && ray.direction.z == 0 { old(rng).state } else { next_state(old(rng).state) },
        match r { Some(sr) => ray_wf(sr.ray) && bounded(sr.attenuation, CMAX as int)
            && sr.ray.time == ray.time, None => true },
{
    proof {
        reveal(spec_scatter);
    }
    if ray.direction.near_zero() {
        return None;
    }
    proof {
        crate::vec3::lemma_nonzero_dot(ray.direction);
    }
    let ratio = if rec.front_face {
        proof {
            assert(SCALE as int * SCALE as int == 4294967296) by (nonlinear_arith);
            crate::fixed::lemma_tdiv_close(4294967296, dl.refraction_index as int);
            assert(tdiv(4294967296, dl.refraction_index as int) >= 1) by (nonlinear_arith)
                requires 0 < dl.refraction_index <= 1048576
                    && dl.refraction_index as int
                        * tdiv(4294967296, dl.refraction_index as int) <= 4294967296
                    && 4294967296 < dl.refraction_index as int
                        * tdiv(4294967296, dl.refraction_index as int)
                        + dl.refraction_index as int;
        }
        fx_div_sat(SCALE, dl.refraction_index, 16 * SCALE)
    } else {
        dl.refraction_index
    };
    let unit = ray.direction.normalize();
    let nu = unit.neg();
    proof {
        crate::vec3::lemma_dot_raw_bound(nu, rec.normal, 131072);
        crate::fixed::lemma_tdiv_bound(crate::vec3::dot_raw(nu, rec.normal),
            SCALE as int, 51539607552);
    }
    let d = nu.dot(rec.normal);
    let cos_theta = if d >= SCALE { SCALE } else { d };
    let c2 = fx_mul(cos_theta, cos_theta);
    proof {
        crate::fixed::lemma_smul_bound(cos_theta as int, cos_theta as int,
            786432, 786432, 618475290624);
    }
    let k = SCALE - c2;
    let sin_theta = if k < 0 { 0 } else { fx_sqrt(k) };
    proof {
        if k >= 0 {
            assert(sin_theta <= 800000) by (nonlinear_arith)
                requires sin_theta >= 0
                    && sin_theta as int * sin_theta as int <= k as int * 65536
                    && 0 <= k <= 9502720;
        }
        crate::fixed::lemma_smul_bound(ratio as int, sin_theta as int, 1048576,
            800000, 838860800000);
    }
    let cannot_refract = fx_mul(ratio, sin_theta) > SCALE;
    let refl_chance = reflectance(cos_theta, ratio);
    let w = rng.unit();
    proof {
        let wrd = out_word(next_state(old(rng).state));
        assert((wrd & 0xffff) < 0x10000) by (bit_vector);
        assert(w as int == (wrd & 0xffff) as int);
    }
    let should_reflect = refl_chance > w;
    let dir0 = if cannot_refract || should_reflect {
        reflect(unit, rec.normal)
    } else {
        refract(unit, rec.normal, ratio)
    };
    let dir = dir0.clamp_c(CMAX);
    let res = Some(ScatterResult {
        ray: Ray::new(rec.position, dir, ray.time),
        attenuation: Vec3::new(SCALE, SCALE, SCALE),
    });
    proof {
        let s0 = old(rng).state;
        let sratio: int = if rec.front_face {
            clip(sdiv(SCALE as int, dl.refraction_index as int), 16 * SCALE as int)
        } else {
            dl.refraction_index as int
        };
        assert(ratio == sratio);
        let sunit = crate::vec3::spec_normalize(ray.direction);
        assert(unit == sunit);
        assert(nu == vneg(sunit));
        let scos: int = if sdot(vneg(sunit), rec.normal) >= SCALE { SCALE as int } else {
            sdot(vneg(sunit), rec.normal)
        };
        assert(cos_theta == scos);
        let sk = SCALE - smul(scos, scos);
        assert(k == sk);
        let ssin: int = if sk < 0 { 0 } else { sqrt_floor(sk * SCALE) };
        assert(sin_theta == ssin);
        assert(cannot_refract == (smul(sratio, ssin) > SCALE));
        let sw = (out_word(next_state(s0)) & 0xffff) as int;
        assert(should_reflect == (spec_reflectance(scos, sratio) > sw));
        let sdir0 = if cannot_refract || should_reflect {
            spec_reflect(sunit, rec.normal)
        } else {
            spec_refract(sunit, rec.normal, sratio)
        };
        assert(dir0 == sdir0);
        assert(dir == vclip(sdir0, CMAX as int));
    }
    res
}

fn scatter_isotropic(iso: &Isotropic, rng: &mut Rng, ray: &Ray, rec: &HitRecord)
    -> (r: Option<ScatterResult>)
    requires
        tex_wf(iso.texture),
        ray_wf(*ray),
        rec_wf(*rec),
    ensures
        r == spec_scatter(Material::Isotropic(Isotropic { texture: iso.texture }),
            old(rng).state, *ray, *rec),
        final(rng).state == next_state(next_state(old(rng).state)),
        match r { Some(sr) => ray_wf(sr.ray) && bounded(sr.attenuation, CMAX as int)
            && sr.ray.time == ray.time, None => true },
{
    proof {
        reveal(spec_scatter);
    }
    let dir = rand_unit_vec3(rng);
    let attenuation = iso.texture.sample(rec.uv, rec.position);
    Some(ScatterResult {
        ray: Ray::new(rec.position, dir, ray.time),
        attenuation,
    })
}

impl Material {
    /// The stochastic scattering model: the exact continuation ray and
    /// attenuation `spec_scatter` describes for the current stream state.
    pub fn scatter(&self, rng: &mut Rng, ray: &Ray, rec: &HitRecord) -> (r: Option<ScatterResult>)
        requires
            mat_wf(*self),
            ray_wf(*ray),
            rec_wf(*rec),
        ensures
            r == spec_scatter(*self, old(rng).state, *ray, *rec),
            final(rng).state == spec_scatter_state(*self, old(rng).state, *ray),
            match r {
                Some(sr) => ray_wf(sr.ray) && bounded(sr.attenuation, CMAX as int)
                    && sr.ray.time == ray.time,
                None => true,
            },
    {
        match self {
            Material::Lambertian(l) => scatter_lambertian(l, rng, ray, rec),
            Material::Metal(mt) => scatter_metal(mt, rng, ray, rec),
            Material::Dialectric(dl) => scatter_dialectric(dl, rng, ray, rec),
            Material::DiffuseLight(_) => {
                proof {
                    reveal(spec_scatter);
                }
                None
            },
            Material::Isotropic(i) => scatter_isotropic(i, rng, ray, rec),
        }
    }

    /// Emitted radiance: the light texture's color, black for the others.
    pub fn emit(&self, uv: TexCoord, point: Vec3) -> (r: Color)
        requires
            mat_wf(*self),
            bounded(point, CMAX as int),
        ensures
            r == spec_emit(*self, uv, point),
            bounded(r, CMAX as int),
    {
        match self {
            Material::DiffuseLight(d) => d.texture.sample(uv, point),
            _ => Vec3::zero(),
        }
    }
}

} // verus!
