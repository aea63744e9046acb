//! The box scene with the blocks replaced by participating media: a dark
//! smoke block and a bright haze block.

use vstd::prelude::*;
use crate::constant_volume::ConstantVolume;
use crate::cube::cube;
use crate::transform::{RotateY, Translate};
use crate::bvh::Bvh;
use crate::hittable::{hittable_wf, Hittable};
use crate::material::{DiffuseLight, Isotropic, Lambertian, Material};
use crate::rng::Rng;
use crate::scene::{settings_wf, Scene, Settings};
use crate::quad::Quad;
use crate::texture::Texture;
use crate::vec3::{Color, Vec3};
use crate::world::{mats_below, push_surface, world_wf, World};

verus! {

pub struct CornellSmokeScene;

impl Scene for CornellSmokeScene {
    fn default_settings(&self) -> (r: Settings)
        ensures
            settings_wf(r),
    {
        Settings {
            camera_eye: Vec3::new(18219008, 18219008, -52428800),
            camera_target: Vec3::new(18219008, 18219008, 0),
            width: 720,
            height: 720,
            fov: 2490368,
            focus_distance: 655360,
            defocus_angle: 0,
            samples: 500,
            max_bounces: 50,
            background_color: Some(Vec3::new(0, 0, 0)),
        }
    }

    fn world(&self, rng: &mut Rng) -> (r: World)
        ensures
            world_wf(r),
            r.bvh is Some,
    {
        let mut world = World::new();
        let red = world.register_material(Material::Lambertian(
            Lambertian::from_color(Vec3::new(42598, 3276, 3276))));
        let white = world.register_material(Material::Lambertian(
            Lambertian::from_color(Vec3::new(47841, 47841, 47841))));
        let green = world.register_material(Material::Lambertian(
            Lambertian::from_color(Vec3::new(7864, 29491, 9830))));
        let light = world.register_material(Material::DiffuseLight(
            DiffuseLight::from_color(Vec3::new(983040, 983040, 983040))));
        let smoke = world.register_material(Material::Isotropic(
            Isotropic::from_color(Vec3::new(0, 0, 0))));
        let haze = world.register_material(Material::Isotropic(
            Isotropic::from_color(Vec3::new(65536, 65536, 65536))));
        let ghost n = world.materials@.len() as int;
        let mut objects: Vec<Hittable> = Vec::new();
        push_surface(&mut objects, Hittable::Quad(Quad::new(Vec3::new(36372480, 0, 0), Vec3::new(0, 36372480, 0), Vec3::new(0, 0, 36372480), green)), Ghost(n));
        push_surface(&mut objects, Hittable::Quad(Quad::new(Vec3::new(0, 0, 0), Vec3::new(0, 36372480, 0), Vec3::new(0, 0, 36372480), red)), Ghost(n));
        push_surface(&mut objects, Hittable::Quad(Quad::new(Vec3::new(26214400, 36306944, 26214400), Vec3::new(-16056320, 0, 0), Vec3::new(0, 0, -16056320), light)), Ghost(n));
        push_surface(&mut objects, Hittable::Quad(Quad::new(Vec3::new(0, 0, 0), Vec3::new(36372480, 0, 0), Vec3::new(0, 0, 36372480), white)), Ghost(n));
        push_surface(&mut objects, Hittable::Quad(Quad::new(Vec3::new(36372480, 36372480, 36372480), Vec3::new(-36372480, 0, 0), Vec3::new(0, 0, -36372480), white)), Ghost(n));
        push_surface(&mut objects, Hittable::Quad(Quad::new(Vec3::new(0, 0, 36372480), Vec3::new(36372480, 0, 0), Vec3::new(0, 36372480, 0), white)), Ghost(n));
        let tall0 = cube(Vec3::new(0, 0, 0), Vec3::new(10813440, 21626880, 10813440), white);
        proof {
            assert(hittable_wf(Hittable::List(tall0)));
            assert(mats_below(Hittable::List(tall0), n));
            crate::hittable::lemma_wf_bbox(Hittable::List(tall0));
        }
        let tall1 = RotateY::new(17157, Box::new(Hittable::List(tall0)));
        proof {
            assert(hittable_wf(Hittable::RotateY(tall1)));
            assert(mats_below(Hittable::RotateY(tall1), n));
            crate::hittable::lemma_wf_bbox(Hittable::RotateY(tall1));
        }
        let tall = Translate::new(Vec3::new(17367040, 0, 19333120),
            Box::new(Hittable::RotateY(tall1)));
        proof {
            assert(hittable_wf(Hittable::Translate(tall)));
            assert(mats_below(Hittable::Translate(tall), n));
        }
        let tall_fog = ConstantVolume::new(Box::new(Hittable::Translate(tall)), 655, smoke, rng);
        proof {
            assert(hittable_wf(Hittable::Volume(tall_fog)));
            assert(mats_below(Hittable::Volume(tall_fog), n));
        }
        push_surface(&mut objects, Hittable::Volume(tall_fog), Ghost(n));
        let short0 = cube(Vec3::new(0, 0, 0), Vec3::new(10813440, 10813440, 10813440), white);
        proof {
            assert(hittable_wf(Hittable::List(short0)));
            assert(mats_below(Hittable::List(short0), n));
            crate::hittable::lemma_wf_bbox(Hittable::List(short0));
        }
        let short1 = RotateY::new(-20588, Box::new(Hittable::List(short0)));
        proof {
            assert(hittable_wf(Hittable::RotateY(short1)));
            assert(mats_below(Hittable::RotateY(short1), n));
            crate::hittable::lemma_wf_bbox(Hittable::RotateY(short1));
        }
        let short = Translate::new(Vec3::new(8519680, 0, 4259840),
            Box::new(Hittable::RotateY(short1)));
        proof {
            assert(hittable_wf(Hittable::Translate(short)));
            assert(mats_below(Hittable::Translate(short), n));
        }
        let short_fog = ConstantVolume::new(Box::new(Hittable::Translate(short)), 655, haze, rng);
        proof {
            assert(hittable_wf(Hittable::Volume(short_fog)));
            assert(mats_below(Hittable::Volume(short_fog), n));
        }
        push_surface(&mut objects, Hittable::Volume(short_fog), Ghost(n));
        let bvh = Bvh::new(objects, rng);
        world.set_bvh(bvh);
        world
    }
}

} // verus!
