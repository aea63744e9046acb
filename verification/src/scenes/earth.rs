//! One textured globe, mapped from a decoded bitmap.

use vstd::prelude::*;
use crate::bvh::Bvh;
use crate::hittable::Hittable;
use crate::material::{Lambertian, Material};
use crate::rng::Rng;
use crate::scene::{settings_wf, Scene, Settings};
use crate::sphere::Sphere;
use crate::texture::{ImageGrid, ImageTexture, SolidColor, Texture};
use crate::vec3::{Color, Vec3};
use crate::world::{push_surface, world_wf, World};

verus! {

/// Carries the decoded surface bitmap; without one, the globe is plain blue.
pub struct EarthScene {
    pub image: Option<ImageGrid>,
}

impl Scene for EarthScene {
    fn default_settings(&self) -> (r: Settings)
        ensures
            settings_wf(r),
    {
        Settings {
            camera_eye: Vec3::new(0, 0, 786432),
            camera_target: Vec3::new(0, 0, 0),
            width: 1280,
            height: 720,
            fov: 1310720,
            focus_distance: 655360,
            defocus_angle: 39321,
            samples: 100,
            max_bounces: 50,
            background_color: None,
        }
    }

    fn world(&self, rng: &mut Rng) -> (r: World)
        ensures
            world_wf(r),
            r.bvh is Some,
    {
        let mut world = World::new();
        let texture = match &self.image {
            Some(g) => match ImageGrid::new(g.width, g.height, clone_bytes(&g.data)) {
                Some(grid) => Texture::Image(ImageTexture::new(grid)),
                None => Texture::Solid(SolidColor { color: Vec3::new(13107, 19660, 52428) }),
            },
            None => Texture::Solid(SolidColor { color: Vec3::new(13107, 19660, 52428) }),
        };
        let material = world.register_material(Material::Lambertian(Lambertian::new(texture)));
        let ghost n = world.materials@.len() as int;
        let mut objects: Vec<Hittable> = Vec::new();
        push_surface(&mut objects, Hittable::Sphere(Sphere::stationary(Vec3::new(0, 0, 0), 131072, material)), Ghost(n));
        let bvh = Bvh::new(objects, rng);
        world.set_bvh(bvh);
        world
    }
}

pub fn clone_bytes(data: &Vec<u8>) -> (r: Vec<u8>)
    ensures
        r@ == data@,
{
    let mut out: Vec<u8> = Vec::new();
    let n = data.len();
    let mut i: usize = 0;
    while i < n
        invariant
            n == data.len(),
            i <= n,
            out@ == data@.subrange(0, i as int),
        decreases n - i,
    {
        out.push(data[i]);
        i = i + 1;
    }
    proof {
        assert(data@.subrange(0, n as int) =~= data@);
    }
    out
}

} // verus!
