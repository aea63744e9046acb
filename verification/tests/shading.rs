use raytracer::camera::{accumulate_average, Camera};
use raytracer::fixed::SCALE;
use raytracer::hittable::{HitRecord, Hittable};
use raytracer::material::{DiffuseLight, Lambertian, Material, MaterialRef};
use raytracer::bvh::Bvh;
use raytracer::ray::Ray;
use raytracer::rng::Rng;
use raytracer::sphere::Sphere;
use raytracer::texture::{CheckerTexture, ImageGrid, ImageTexture, TexCoord, Texture};
use raytracer::trig::neg_ln;
use raytracer::util::{gamma_to_linear, linear_to_gamma};
use raytracer::vec3::Vec3;
use raytracer::world::World;

#[test]
fn gamma_round_trip_on_exact_squares() {
    // Squaring then taking the square root restores exactly representable
    // intensities, and never overshoots elsewhere.
    for &c in &[0i64, 16384, 32768, 49152, 65536] {
        let v = Vec3::new(c, c, c);
        let back = linear_to_gamma(gamma_to_linear(v));
        assert_eq!(back, v);
    }
    let c = 10000i64;
    let back = linear_to_gamma(gamma_to_linear(Vec3::new(c, c, c)));
    assert!(back.x <= c);
    assert!(c * c < (back.x + 1) * (back.x + 1) + SCALE);
}

#[test]
fn checker_parity_matches_lattice_floors() {
    let checker = CheckerTexture::from_colors(
        SCALE,
        Vec3::new(SCALE, SCALE, SCALE),
        Vec3::new(0, 0, 0),
    );
    let tex = Texture::Checker(checker);
    let even = Vec3::new(SCALE, SCALE, SCALE);
    let odd = Vec3::new(0, 0, 0);
    // floor(0.5) + floor(0.5) + floor(0.5) = 0: even.
    assert_eq!(tex.sample(TexCoord::new(0, 0), Vec3::new(SCALE / 2, SCALE / 2, SCALE / 2)), even);
    // floor(1.5) = 1 makes the sum odd.
    assert_eq!(
        tex.sample(TexCoord::new(0, 0), Vec3::new(3 * SCALE / 2, SCALE / 2, SCALE / 2)),
        odd
    );
    // floor(-0.5) = -1: odd again (parity by sign-correct flooring).
    assert_eq!(
        tex.sample(TexCoord::new(0, 0), Vec3::new(-SCALE / 2, SCALE / 2, SCALE / 2)),
        odd
    );
}

#[test]
fn image_texture_nearest_lookup() {
    // A 2x1 bitmap: a pure red and a pure green pixel.
    let grid = ImageGrid::new(2, 1, vec![255, 0, 0, 0, 255, 0]).expect("valid grid");
    let tex = Texture::Image(ImageTexture::new(grid));
    let left = tex.sample(TexCoord::new(0, SCALE / 2), Vec3::new(0, 0, 0));
    assert_eq!(left, Vec3::new(SCALE, 0, 0));
    let right = tex.sample(TexCoord::new(SCALE, SCALE / 2), Vec3::new(0, 0, 0));
    assert_eq!(right, Vec3::new(0, SCALE, 0));
}

#[test]
fn progressive_batches_track_plain_average() {
    // Two samples averaging 150, then two samples summing 200: the
    // progressive update gives the exact four-sample average.
    let avg1 = Vec3::new(150, 150, 150);
    let batch = Vec3::new(200, 200, 200);
    let merged = accumulate_average(avg1, 2, batch, 2);
    assert_eq!(merged, Vec3::new(125, 125, 125));

    // When the first average truncates, the combined result stays within one
    // unit of the plain average of all samples.
    let s1 = 101i64;
    let avg = Vec3::new(s1 / 2, s1 / 2, s1 / 2);
    let merged = accumulate_average(avg, 2, Vec3::new(100, 100, 100), 2);
    let direct = (s1 + 100) / 4;
    assert!((merged.x - direct).abs() <= 1);
}

#[test]
fn diffuse_light_emits_and_never_scatters() {
    let light = Material::DiffuseLight(DiffuseLight::from_color(Vec3::new(SCALE, SCALE, 0)));
    let emitted = light.emit(TexCoord::new(0, 0), Vec3::new(0, 0, 0));
    assert_eq!(emitted, Vec3::new(SCALE, SCALE, 0));
    let rec = HitRecord {
        position: Vec3::new(0, 0, 0),
        normal: Vec3::new(0, 0, SCALE),
        t: SCALE,
        front_face: true,
        uv: TexCoord::new(0, 0),
        material: MaterialRef(0),
    };
    let ray = Ray::new(Vec3::new(0, 0, SCALE), Vec3::new(0, 0, -SCALE), 0);
    let mut rng = Rng::new(5);
    assert!(light.scatter(&mut rng, &ray, &rec).is_none());
}

#[test]
fn lambertian_attenuates_by_its_texture() {
    let mat = Material::Lambertian(Lambertian::from_color(Vec3::new(SCALE / 2, SCALE / 4, 0)));
    let rec = HitRecord {
        position: Vec3::new(0, 0, SCALE / 2),
        normal: Vec3::new(0, 0, SCALE),
        t: SCALE / 2,
        front_face: true,
        uv: TexCoord::new(0, 0),
        material: MaterialRef(0),
    };
    let ray = Ray::new(Vec3::new(0, 0, SCALE), Vec3::new(0, 0, -SCALE), 0);
    let mut rng = Rng::new(5);
    let sr = mat.scatter(&mut rng, &ray, &rec).expect("lambertian always scatters");
    assert_eq!(sr.attenuation, Vec3::new(SCALE / 2, SCALE / 4, 0));
    assert_eq!(sr.ray.origin, rec.position);
    assert_eq!(sr.ray.time, ray.time);
}

#[test]
fn free_flight_log_is_zero_at_one() {
    assert_eq!(neg_ln(SCALE), 0);
    assert!(neg_ln(1) > 0);
    assert!(neg_ln(SCALE / 2) > 0);
}

#[test]
fn camera_renders_expected_pixel_count() {
    let mut world = World::new();
    let mat = world.register_material(Material::Lambertian(Lambertian::from_color(
        Vec3::new(SCALE / 2, SCALE / 2, SCALE / 2),
    )));
    let mut rng = Rng::new(11);
    let sphere = Sphere::stationary(Vec3::new(0, 0, -3 * SCALE), SCALE, mat);
    let bvh = Bvh::new(vec![Hittable::Sphere(sphere)], &mut rng);
    world.set_bvh(bvh);
    let camera = Camera::new(
        4, 3,
        Vec3::new(0, 0, 0),
        Vec3::new(0, 0, -SCALE),
        Vec3::new(0, SCALE, 0),
        40 * SCALE,
        10 * SCALE,
        0,
        2,
        3,
        None,
    );
    let frame = camera.render(&world, &mut rng);
    assert_eq!(frame.len(), 12);
}

#[test]
fn image_grid_rejects_mismatched_data() {
    assert!(ImageGrid::new(2, 1, vec![255, 0, 0]).is_none());
    assert!(ImageGrid::new(0, 1, vec![]).is_none());
    assert!(ImageGrid::new(1, 1, vec![1, 2, 3]).is_some());
}

#[test]
fn dielectric_never_absorbs() {
    let glass = Material::Dialectric(raytracer::material::Dialectric::new(3 * SCALE / 2));
    let rec = HitRecord {
        position: Vec3::new(0, 0, 0),
        normal: Vec3::new(0, 0, SCALE),
        t: SCALE,
        front_face: true,
        uv: TexCoord::new(0, 0),
        material: MaterialRef(0),
    };
    let ray = Ray::new(Vec3::new(0, 0, SCALE), Vec3::new(0, 0, -SCALE), 0);
    let mut rng = Rng::new(9);
    let sr = glass.scatter(&mut rng, &ray, &rec).expect("dielectric always scatters");
    assert_eq!(sr.attenuation, Vec3::new(SCALE, SCALE, SCALE));
}

#[test]
fn polished_metal_reflects_exactly() {
    let mirror = Material::Metal(raytracer::material::Metal::new(
        Vec3::new(SCALE, SCALE, SCALE),
        0,
    ));
    let rec = HitRecord {
        position: Vec3::new(0, 0, 0),
        normal: Vec3::new(0, 0, SCALE),
        t: SCALE,
        front_face: true,
        uv: TexCoord::new(0, 0),
        material: MaterialRef(0),
    };
    let ray = Ray::new(Vec3::new(0, 0, SCALE), Vec3::new(0, 0, -SCALE), 0);
    let mut rng = Rng::new(3);
    let sr = mirror.scatter(&mut rng, &ray, &rec).expect("metal always scatters");
    assert_eq!(sr.ray.direction, Vec3::new(0, 0, SCALE));
}

#[test]
fn rendering_is_a_function_of_the_seed() {
    // The whole pipeline is exactly specified over the stream, so two
    // renders from equal seeds agree pixel for pixel.
    let mut world = World::new();
    let mat = world.register_material(Material::Lambertian(Lambertian::from_color(
        Vec3::new(SCALE / 2, SCALE / 4, SCALE / 8),
    )));
    let mut rng = Rng::new(2024);
    let sphere = Sphere::stationary(Vec3::new(0, 0, -3 * SCALE), SCALE, mat);
    let bvh = Bvh::new(vec![Hittable::Sphere(sphere)], &mut rng);
    world.set_bvh(bvh);
    let camera = Camera::new(
        3, 2,
        Vec3::new(0, 0, 0),
        Vec3::new(0, 0, -SCALE),
        Vec3::new(0, SCALE, 0),
        45 * SCALE,
        10 * SCALE,
        SCALE / 2,
        2,
        3,
        None,
    );
    let mut r1 = Rng::new(7);
    let mut r2 = Rng::new(7);
    let f1 = camera.render(&world, &mut r1);
    let f2 = camera.render(&world, &mut r2);
    assert_eq!(f1, f2);

    // A progressive pass from the same seed lands on the same buffer too.
    let mut d1 = vec![Vec3 { x: 0, y: 0, z: 0 }; 6];
    let mut d2 = vec![Vec3 { x: 0, y: 0, z: 0 }; 6];
    let mut r3 = Rng::new(9);
    let mut r4 = Rng::new(9);
    camera.render_x_samples(&mut d1, &world, &mut r3, 2, 0);
    camera.render_x_samples(&mut d2, &world, &mut r4, 2, 0);
    assert_eq!(d1, d2);
}
