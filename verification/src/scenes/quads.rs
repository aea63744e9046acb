//! Five colored quads facing the camera.

use vstd::prelude::*;
use crate::bvh::Bvh;
use crate::hittable::Hittable;
use crate::material::{Lambertian, Material};
use crate::rng::Rng;
use crate::scene::{settings_wf, Scene, Settings};
use crate::quad::Quad;
use crate::texture::Texture;
use crate::vec3::{Color, Vec3};
use crate::world::{push_surface, world_wf, World};

verus! {

pub struct QuadsScene;

impl Scene for QuadsScene {
    fn default_settings(&self) -> (r: Settings)
        ensures
            settings_wf(r),
    {
        Settings {
            camera_eye: Vec3::new(0, 0, 589824),
            camera_target: Vec3::new(0, 0, 0),
            width: 720,
            height: 720,
            fov: 5242880,
            focus_distance: 655360,
            defocus_angle: 0,
            samples: 100,
            max_bounces: 50,
            background_color: None,
        }
    }

    fn world(&self, rng: &mut Rng) -> (r: World)
        ensures
            world_wf(r),
            r.bvh is Some,
    {
        let mut world = World::new();
        let red = world.register_material(Material::Lambertian(
            Lambertian::from_color(Vec3::new(65536, 13107, 13107))));
        let green = world.register_material(Material::Lambertian(
            Lambertian::from_color(Vec3::new(13107, 65536, 13107))));
        let blue = world.register_material(Material::Lambertian(
            Lambertian::from_color(Vec3::new(13107, 13107, 65536))));
        let orange = world.register_material(Material::Lambertian(
            Lambertian::from_color(Vec3::new(65536, 32768, 0))));
        let teal = world.register_material(Material::Lambertian(
            Lambertian::from_color(Vec3::new(13107, 52428, 52428))));
        let ghost n = world.materials@.len() as int;
        let mut objects: Vec<Hittable> = Vec::new();
        push_surface(&mut objects, Hittable::Quad(Quad::new(Vec3::new(-196608, -131072, 327680), Vec3::new(0, 0, -262144), Vec3::new(0, 262144, 0), red)), Ghost(n));
        push_surface(&mut objects, Hittable::Quad(Quad::new(Vec3::new(-131072, -131072, 0), Vec3::new(262144, 0, 0), Vec3::new(0, 262144, 0), green)), Ghost(n));
        push_surface(&mut objects, Hittable::Quad(Quad::new(Vec3::new(196608, -131072, 65536), Vec3::new(0, 0, 262144), Vec3::new(0, 262144, 0), blue)), Ghost(n));
        push_surface(&mut objects, Hittable::Quad(Quad::new(Vec3::new(-131072, 196608, 65536), Vec3::new(262144, 0, 0), Vec3::new(0, 0, 262144), orange)), Ghost(n));
        push_surface(&mut objects, Hittable::Quad(Quad::new(Vec3::new(-131072, -196608, 327680), Vec3::new(262144, 0, 0), Vec3::new(0, 0, -262144), teal)), Ghost(n));
        let bvh = Bvh::new(objects, rng);
        world.set_bvh(bvh);
        world
    }
}

} // verus!
