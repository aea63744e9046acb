//! Two large checkered spheres facing each other.

use vstd::prelude::*;
use crate::bvh::Bvh;
use crate::hittable::Hittable;
use crate::material::{Lambertian, Material};
use crate::rng::Rng;
use crate::scene::{settings_wf, Scene, Settings};
use crate::sphere::Sphere;
use crate::texture::{CheckerTexture, Texture};
use crate::vec3::{Color, Vec3};
use crate::world::{push_surface, world_wf, World};

verus! {

pub struct CheckeredSpheresScene;

impl Scene for CheckeredSpheresScene {
    fn default_settings(&self) -> (r: Settings)
        ensures
            settings_wf(r),
    {
        Settings {
            camera_eye: Vec3::new(851968, 131072, 196608),
            camera_target: Vec3::new(0, 0, 0),
            width: 1280,
            height: 720,
            fov: 1310720,
            focus_distance: 655360,
            defocus_angle: 39321,
            samples: 100,
            max_bounces: 50,
            background_color: None,
        }
    }

    fn world(&self, rng: &mut Rng) -> (r: World)
        ensures
            world_wf(r),
            r.bvh is Some,
    {
        let mut world = World::new();
        let checker = CheckerTexture::from_colors(20971, Vec3::new(13107, 19660, 6553), Vec3::new(58982, 58982, 58982));
        let material = world.register_material(Material::Lambertian(
            Lambertian::new(Texture::Checker(checker))));
        let ghost n = world.materials@.len() as int;
        let mut objects: Vec<Hittable> = Vec::new();
        push_surface(&mut objects, Hittable::Sphere(Sphere::stationary(Vec3::new(0, -655360, 0), 655360, material)), Ghost(n));
        push_surface(&mut objects, Hittable::Sphere(Sphere::stationary(Vec3::new(0, 655360, 0), 655360, material)), Ghost(n));
        let bvh = Bvh::new(objects, rng);
        world.set_bvh(bvh);
        world
    }
}

} // verus!
