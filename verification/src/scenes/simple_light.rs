//! A lit sphere over a ground sphere, under a quad lamp.

use vstd::prelude::*;
use crate::bvh::Bvh;
use crate::hittable::Hittable;
use crate::material::{DiffuseLight, Lambertian, Material};
use crate::rng::Rng;
use crate::scene::{settings_wf, Scene, Settings};
use crate::sphere::Sphere;
use crate::quad::Quad;
use crate::texture::Texture;
use crate::vec3::{Color, Vec3};
use crate::world::{push_surface, world_wf, World};

verus! {

pub struct SimpleLightScene;

impl Scene for SimpleLightScene {
    fn default_settings(&self) -> (r: Settings)
        ensures
            settings_wf(r),
    {
        Settings {
            camera_eye: Vec3::new(1703936, 196608, 393216),
            camera_target: Vec3::new(0, 131072, 0),
            width: 1280,
            height: 720,
            fov: 1310720,
            focus_distance: 655360,
            defocus_angle: 39321,
            samples: 1000,
            max_bounces: 10,
            background_color: Some(Vec3::new(0, 0, 0)),
        }
    }

    fn world(&self, rng: &mut Rng) -> (r: World)
        ensures
            world_wf(r),
            r.bvh is Some,
    {
        let mut world = World::new();
        let lambert = world.register_material(Material::Lambertian(
            Lambertian::from_color(Vec3::new(65536, 32768, 32768))));
        let difflight = world.register_material(Material::DiffuseLight(
            DiffuseLight::from_color(Vec3::new(262144, 262144, 262144))));
        let ghost n = world.materials@.len() as int;
        let mut objects: Vec<Hittable> = Vec::new();
        push_surface(&mut objects, Hittable::Sphere(Sphere::stationary(Vec3::new(0, -65536000, 0), 65536000, lambert)), Ghost(n));
        push_surface(&mut objects, Hittable::Sphere(Sphere::stationary(Vec3::new(0, 131072, 0), 131072, lambert)), Ghost(n));
        push_surface(&mut objects, Hittable::Quad(Quad::new(Vec3::new(196608, 65536, -131072), Vec3::new(131072, 0, 0), Vec3::new(0, 131072, 0), difflight)), Ghost(n));
        let bvh = Bvh::new(objects, rng);
        world.set_bvh(bvh);
        world
    }
}

} // verus!
