//! The classic moving-spheres field: a checkered ground, a grid of random
//! small spheres, and three large ones.

use vstd::prelude::*;
use crate::fixed::{lemma_smul_unit, SCALE, SMAX};
use crate::bvh::Bvh;
use crate::hittable::{hittable_wf, Hittable};
use crate::material::{Dialectric, Lambertian, Material, MaterialRef, Metal};
use crate::rng::Rng;
use crate::scene::{settings_wf, Scene, Settings};
use crate::sphere::Sphere;
use crate::texture::{CheckerTexture, Texture};
use crate::vec3::{bounded, Vec3};
use crate::world::{lemma_mats_mono, mats_below, push_surface, world_wf, World};

verus! {

pub struct BouncingSpheresScene;

impl Scene for BouncingSpheresScene {
    fn default_settings(&self) -> (r: Settings)
        ensures
            settings_wf(r),
    {
        Settings {
            camera_eye: Vec3::new(851968, 131072, 196608),
            camera_target: Vec3::new(0, 0, -65536),
            width: 1280,
            height: 720,
            fov: 1310720,
            focus_distance: 655360,
            defocus_angle: 39321,
            samples: 100,
            max_bounces: 50,
            background_color: None,
        }
    }

    #[verifier::rlimit(100)]
    fn world(&self, rng: &mut Rng) -> (r: World)
        ensures
            world_wf(r),
            r.bvh is Some,
    {
        let mut world = World::new();
        let checker = CheckerTexture::from_colors(20971,
            Vec3::new(13107, 19660, 6553), Vec3::new(58982, 58982, 58982));
        let ground = world.register_material(Material::Lambertian(
            Lambertian::new(Texture::Checker(checker))));
        let mut objects: Vec<Hittable> = Vec::new();
        push_surface(&mut objects, Hittable::Sphere(Sphere::stationary(
            Vec3::new(0, -65536000, 0), 65536000, ground)),
            Ghost(world.materials@.len() as int));
        let mut a: i64 = -11;
        while a < 11
            invariant
                -11 <= a <= 11,
                world_wf(world),
                world.bvh is None,
                forall|i: int| 0 <= i < objects@.len()
                    ==> hittable_wf(#[trigger] objects@[i]),
                forall|i: int| 0 <= i < objects@.len()
                    ==> mats_below(#[trigger] objects@[i], world.materials@.len() as int),
            decreases 11 - a,
        {
            let mut b: i64 = -11;
            while b < 11
                invariant
                    -11 <= a < 11,
                    -11 <= b <= 11,
                    world_wf(world),
                    world.bvh is None,
                    forall|i: int| 0 <= i < objects@.len()
                        ==> hittable_wf(#[trigger] objects@[i]),
                    forall|i: int| 0 <= i < objects@.len()
                        ==> mats_below(#[trigger] objects@[i], world.materials@.len() as int),
                decreases 11 - b,
            {
                field_sphere(&mut world, &mut objects, rng, a, b);
                b = b + 1;
            }
            a = a + 1;
        }
        let glass = world.register_material(Material::Dialectric(Dialectric::new(98304)));
        let brown = world.register_material(Material::Lambertian(
            Lambertian::from_color(Vec3::new(26214, 13107, 6553))));
        let steel = world.register_material(Material::Metal(
            Metal::new(Vec3::new(45875, 39321, 32768), 0)));
        proof {
            assert forall|i: int| 0 <= i < objects@.len()
                implies mats_below(#[trigger] objects@[i],
                    world.materials@.len() as int) by {
                lemma_mats_mono(objects@[i], world.materials@.len() - 3,
                    world.materials@.len() as int);
            }
        }
        let ghost n = world.materials@.len() as int;
        push_surface(&mut objects, Hittable::Sphere(Sphere::stationary(
            Vec3::new(0, SCALE, 0), SCALE, glass)), Ghost(n));
        push_surface(&mut objects, Hittable::Sphere(Sphere::stationary(
            Vec3::new(-262144, SCALE, 0), SCALE, brown)), Ghost(n));
        push_surface(&mut objects, Hittable::Sphere(Sphere::stationary(
            Vec3::new(262144, SCALE, 0), SCALE, steel)), Ghost(n));
        let bvh = Bvh::new(objects, rng);
        world.set_bvh(bvh);
        world
    }
}

/// One cell of the random sphere field: maybe register a random material and
/// drop a small moving sphere into the cell.
#[verifier::rlimit(100)]
fn field_sphere(world: &mut World, objects: &mut Vec<Hittable>, rng: &mut Rng, a: i64, b: i64)
    requires
        -11 <= a < 11,
        -11 <= b < 11,
        world_wf(*old(world)),
        old(world).bvh is None,
        forall|i: int| 0 <= i < old(objects)@.len()
            ==> hittable_wf(#[trigger] old(objects)@[i]),
        forall|i: int| 0 <= i < old(objects)@.len()
            ==> mats_below(#[trigger] old(objects)@[i], old(world).materials@.len() as int),
    ensures
        world_wf(*final(world)),
        final(world).bvh is None,
        forall|i: int| 0 <= i < final(objects)@.len()
            ==> hittable_wf(#[trigger] final(objects)@[i]),
        forall|i: int| 0 <= i < final(objects)@.len()
            ==> mats_below(#[trigger] final(objects)@[i], final(world).materials@.len() as int),
{
    let choose_mat = rng.unit();
    let cx = a * SCALE + rng.range(0, 58982);
    let cz = b * SCALE + rng.range(0, 58982);
    let start_center = Vec3::new(cx, 13107, cz);
    let away = start_center.sub(Vec3::new(262144, 13107, 0));
    if away.length() > 58982 {
        let ghost pre = world.materials@.len() as int;
        let mat = random_field_material(world, rng, choose_mat);
        proof {
            assert forall|i: int| 0 <= i < objects@.len()
                implies mats_below(#[trigger] objects@[i],
                    world.materials@.len() as int) by {
                lemma_mats_mono(objects@[i], pre, world.materials@.len() as int);
            }
        }
        let end_center = start_center.add(Vec3::new(0, rng.range(0, 32768), 0));
        push_surface(objects, Hittable::Sphere(Sphere::moving(
            start_center, end_center, 13107, mat)),
            Ghost(world.materials@.len() as int));
    }
}

/// Pick one of the three random surface finishes for a field sphere.
#[verifier::rlimit(100)]
fn random_field_material(world: &mut World, rng: &mut Rng, choose_mat: i64)
    -> (r: MaterialRef)
    requires
        world_wf(*old(world)),
        old(world).bvh is None,
    ensures
        world_wf(*final(world)),
        final(world).bvh is None,
        old(world).materials@.len() <= final(world).materials@.len(),
        r.0 < final(world).materials@.len(),
{
    if choose_mat < 52428 {
        let c1 = rng.vec3(0, SCALE);
        let c2 = rng.vec3(0, SCALE);
        proof {
            lemma_smul_unit(c1.x as int, c2.x as int);
            lemma_smul_unit(c1.y as int, c2.y as int);
            lemma_smul_unit(c1.z as int, c2.z as int);
        }
        let albedo = c1.mul(c2);
        world.register_material(Material::Lambertian(
            Lambertian::from_color(albedo)))
    } else if choose_mat < 62259 {
        let albedo = rng.vec3(32768, SCALE);
        let fuzz = rng.range(0, 32768);
        world.register_material(Material::Metal(Metal::new(albedo, fuzz)))
    } else {
        world.register_material(Material::Dialectric(Dialectric::new(98304)))
    }
}

} // verus!
