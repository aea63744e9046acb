//! The showcase scene: a field of random-height ground boxes, a ceiling
//! lamp, moving, glass and metal spheres, two participating media and a
//! textured globe.

use vstd::prelude::*;
use crate::fixed::SCALE;
use crate::bvh::Bvh;
use crate::constant_volume::ConstantVolume;
use crate::cube::cube;
use crate::hittable::{hittable_wf, Hittable};
use crate::material::{Dialectric, DiffuseLight, Isotropic, Lambertian, Material, MaterialRef, Metal};
use crate::rng::Rng;
use crate::scene::{settings_wf, Scene, Settings};
use crate::sphere::Sphere;
use crate::quad::Quad;
use crate::texture::{ImageGrid, ImageTexture, SolidColor, Texture};
use crate::vec3::Vec3;
use crate::world::{mats_below, push_surface, world_wf, World};

verus! {

/// Carries the decoded globe bitmap; without one, the globe is plain blue.
pub struct EverythingScene {
    pub image: Option<ImageGrid>,
}

impl Scene for EverythingScene {
    fn default_settings(&self) -> (r: Settings)
        ensures
            settings_wf(r),
    {
        Settings {
            camera_eye: Vec3::new(31326208, 18219008, -39321600),
            camera_target: Vec3::new(18219008, 18219008, 0),
            width: 720,
            height: 720,
            fov: 2621440,
            focus_distance: 655360,
            defocus_angle: 0,
            samples: 500,
            max_bounces: 50,
            background_color: Some(Vec3::new(0, 0, 0)),
        }
    }

    #[verifier::rlimit(100)]
    fn world(&self, rng: &mut Rng) -> (r: World)
        ensures
            world_wf(r),
            r.bvh is Some,
    {
        let mut world = World::new();
        let ground = world.register_material(Material::Lambertian(
            Lambertian::from_color(Vec3::new(31457, 54394, 34734))));
        let light = world.register_material(Material::DiffuseLight(
            DiffuseLight::from_color(Vec3::new(458752, 458752, 458752))));
        let moving_mat = world.register_material(Material::Lambertian(
            Lambertian::from_color(Vec3::new(45875, 19660, 6553))));
        let glass = world.register_material(Material::Dialectric(Dialectric::new(98304)));
        let metal = world.register_material(Material::Metal(
            Metal::new(Vec3::new(52428, 52428, 58982), SCALE)));
        let boundary_mat = world.register_material(Material::Dialectric(Dialectric::new(98304)));
        let blue_fog = world.register_material(Material::Isotropic(
            Isotropic::from_color(Vec3::new(13107, 26214, 58982))));
        let mist_mat = world.register_material(Material::Dialectric(Dialectric::new(98304)));
        let mist = world.register_material(Material::Isotropic(
            Isotropic::from_color(Vec3::new(65536, 65536, 65536))));
        let globe_texture = match &self.image {
            Some(g) => match ImageGrid::new(g.width, g.height, crate::scenes::earth::clone_bytes(&g.data)) {
                Some(grid) => Texture::Image(ImageTexture::new(grid)),
                None => Texture::Solid(SolidColor { color: Vec3::new(13107, 19660, 52428) }),
            },
            None => Texture::Solid(SolidColor { color: Vec3::new(13107, 19660, 52428) }),
        };
        let globe = world.register_material(Material::Lambertian(Lambertian::new(globe_texture)));

        let ghost n = world.materials@.len() as int;
        let mut objects: Vec<Hittable> = Vec::new();
        ground_boxes(&mut objects, rng, ground, Ghost(n));
        push_surface(&mut objects, Hittable::Quad(Quad::new(
            Vec3::new(8060928, 36306944, 9633792),
            Vec3::new(19660800, 0, 0),
            Vec3::new(0, 0, 17367040),
            light)), Ghost(n));
        let center1 = Vec3::new(26214400, 26214400, 13107200);
        let center2 = Vec3::new(28180480, 26214400, 13107200);
        push_surface(&mut objects, Hittable::Sphere(Sphere::moving(
            center1, center2, 3276800, moving_mat)), Ghost(n));
        push_surface(&mut objects, Hittable::Sphere(Sphere::stationary(
            Vec3::new(17039360, 9830400, 2949120), 3276800, glass)), Ghost(n));
        push_surface(&mut objects, Hittable::Sphere(Sphere::stationary(
            Vec3::new(0, 9830400, 9502720), 3276800, metal)), Ghost(n));
        let boundary = Sphere::stationary(Vec3::new(23592960, 9830400, 9502720), 4587520,
            boundary_mat);
        push_surface(&mut objects, Hittable::Sphere(boundary), Ghost(n));
        let fog = ConstantVolume::new(Box::new(Hittable::Sphere(boundary)), 13107, blue_fog, rng);
        proof {
            assert(hittable_wf(Hittable::Sphere(boundary)));
            assert(mats_below(Hittable::Sphere(boundary), n));
            assert(hittable_wf(Hittable::Volume(fog)));
            assert(mats_below(Hittable::Volume(fog), n));
        }
        push_surface(&mut objects, Hittable::Volume(fog), Ghost(n));
        let mist_boundary = Sphere::stationary(Vec3::new(0, 0, 0), 327680000, mist_mat);
        let haze = ConstantVolume::new(Box::new(Hittable::Sphere(mist_boundary)), 7, mist, rng);
        proof {
            assert(hittable_wf(Hittable::Sphere(mist_boundary)));
            assert(mats_below(Hittable::Sphere(mist_boundary), n));
            assert(hittable_wf(Hittable::Volume(haze)));
            assert(mats_below(Hittable::Volume(haze), n));
        }
        push_surface(&mut objects, Hittable::Volume(haze), Ghost(n));
        push_surface(&mut objects, Hittable::Sphere(Sphere::stationary(
            Vec3::new(26214400, 13107200, 26214400), 6553600, globe)), Ghost(n));
        let bvh = Bvh::new(objects, rng);
        world.set_bvh(bvh);
        world
    }
}

/// The twenty-by-twenty field of ground boxes with random heights.
fn ground_boxes(objects: &mut Vec<Hittable>, rng: &mut Rng, ground: MaterialRef, Ghost(n): Ghost<int>)
    requires
        ground.0 < n,
        forall|i: int| 0 <= i < old(objects)@.len()
            ==> hittable_wf(#[trigger] old(objects)@[i]),
        forall|i: int| 0 <= i < old(objects)@.len()
            ==> mats_below(#[trigger] old(objects)@[i], n),
    ensures
        forall|i: int| 0 <= i < final(objects)@.len()
            ==> hittable_wf(#[trigger] final(objects)@[i]),
        forall|i: int| 0 <= i < final(objects)@.len()
            ==> mats_below(#[trigger] final(objects)@[i], n),
{
    let mut i: i64 = 0;
    while i < 20
        invariant
            0 <= i <= 20,
            ground.0 < n,
            forall|k: int| 0 <= k < objects@.len()
                ==> hittable_wf(#[trigger] objects@[k]),
            forall|k: int| 0 <= k < objects@.len()
                ==> mats_below(#[trigger] objects@[k], n),
        decreases 20 - i,
    {
        let mut j: i64 = 0;
        while j < 20
            invariant
                0 <= i < 20,
                0 <= j <= 20,
                ground.0 < n,
                forall|k: int| 0 <= k < objects@.len()
                    ==> hittable_wf(#[trigger] objects@[k]),
                forall|k: int| 0 <= k < objects@.len()
                    ==> mats_below(#[trigger] objects@[k], n),
            decreases 20 - j,
        {
            let x0 = -65536000 + i * 6553600;
            let z0 = -65536000 + j * 6553600;
            let y1 = SCALE + rng.range(0, 6553600);
            let block = cube(Vec3::new(x0, 0, z0),
                Vec3::new(x0 + 6553600, y1, z0 + 6553600), ground);
            push_surface(objects, Hittable::List(block), Ghost(n));
            j = j + 1;
        }
        i = i + 1;
    }
}

} // verus!
