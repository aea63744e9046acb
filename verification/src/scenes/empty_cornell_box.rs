//! The bare five-walled box with its ceiling lamp.

use vstd::prelude::*;
use crate::bvh::Bvh;
use crate::hittable::Hittable;
use crate::material::{DiffuseLight, Lambertian, Material};
use crate::rng::Rng;
use crate::scene::{settings_wf, Scene, Settings};
use crate::quad::Quad;
use crate::texture::Texture;
use crate::vec3::{Color, Vec3};
use crate::world::{push_surface, world_wf, World};

verus! {

pub struct EmptyCornellBoxScene;

impl Scene for EmptyCornellBoxScene {
    fn default_settings(&self) -> (r: Settings)
        ensures
            settings_wf(r),
    {
        Settings {
            camera_eye: Vec3::new(18219008, 18219008, -52428800),
            camera_target: Vec3::new(18219008, 18219008, 0),
            width: 720,
            height: 720,
            fov: 2490368,
            focus_distance: 655360,
            defocus_angle: 0,
            samples: 500,
            max_bounces: 50,
            background_color: Some(Vec3::new(0, 0, 0)),
        }
    }

    fn world(&self, rng: &mut Rng) -> (r: World)
        ensures
            world_wf(r),
            r.bvh is Some,
    {
        let mut world = World::new();
        let red = world.register_material(Material::Lambertian(
            Lambertian::from_color(Vec3::new(42598, 3276, 3276))));
        let white = world.register_material(Material::Lambertian(
            Lambertian::from_color(Vec3::new(47841, 47841, 47841))));
        let green = world.register_material(Material::Lambertian(
            Lambertian::from_color(Vec3::new(7864, 29491, 9830))));
        let light = world.register_material(Material::DiffuseLight(
            DiffuseLight::from_color(Vec3::new(983040, 983040, 983040))));
        let ghost n = world.materials@.len() as int;
        let mut objects: Vec<Hittable> = Vec::new();
        push_surface(&mut objects, Hittable::Quad(Quad::new(Vec3::new(36372480, 0, 0), Vec3::new(0, 36372480, 0), Vec3::new(0, 0, 36372480), green)), Ghost(n));
        push_surface(&mut objects, Hittable::Quad(Quad::new(Vec3::new(0, 0, 0), Vec3::new(0, 36372480, 0), Vec3::new(0, 0, 36372480), red)), Ghost(n));
        push_surface(&mut objects, Hittable::Quad(Quad::new(Vec3::new(22478848, 36306944, 21757952), Vec3::new(-8519680, 0, 0), Vec3::new(0, 0, -6881280), light)), Ghost(n));
        push_surface(&mut objects, Hittable::Quad(Quad::new(Vec3::new(0, 0, 0), Vec3::new(36372480, 0, 0), Vec3::new(0, 0, 36372480), white)), Ghost(n));
        push_surface(&mut objects, Hittable::Quad(Quad::new(Vec3::new(36372480, 36372480, 36372480), Vec3::new(-36372480, 0, 0), Vec3::new(0, 0, -36372480), white)), Ghost(n));
        push_surface(&mut objects, Hittable::Quad(Quad::new(Vec3::new(0, 0, 36372480), Vec3::new(36372480, 0, 0), Vec3::new(0, 36372480, 0), white)), Ghost(n));
        let bvh = Bvh::new(objects, rng);
        world.set_bvh(bvh);
        world
    }
}

} // verus!
