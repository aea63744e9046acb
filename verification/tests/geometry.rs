use raytracer::aabb::Aabb;
use raytracer::fixed::{SCALE, TMAX};
use raytracer::hittable::{HitRecord, Hittable, HittableList};
use raytracer::material::MaterialRef;
use raytracer::ray::Ray;
use raytracer::sphere::Sphere;
use raytracer::texture::TexCoord;
use raytracer::util::Interval;
use raytracer::vec3::Vec3;

fn fxv(x: f64) -> i64 {
    (x * SCALE as f64).round() as i64
}

#[test]
fn get_uv_for_point() {
    assert_eq!(
        Sphere::get_uv_for_point(Vec3::new(SCALE, 0, 0)),
        TexCoord::new(fxv(0.5), fxv(0.5))
    );

    assert_eq!(
        Sphere::get_uv_for_point(Vec3::new(0, SCALE, 0)),
        TexCoord::new(fxv(0.5), fxv(1.0))
    );

    assert_eq!(
        Sphere::get_uv_for_point(Vec3::new(0, 0, SCALE)),
        TexCoord::new(fxv(0.25), fxv(0.5))
    );

    assert_eq!(
        Sphere::get_uv_for_point(Vec3::new(-SCALE, 0, 0)),
        TexCoord::new(fxv(0.0), fxv(0.5))
    );

    assert_eq!(
        Sphere::get_uv_for_point(Vec3::new(0, -SCALE, 0)),
        TexCoord::new(fxv(0.5), fxv(0.0))
    );

    assert_eq!(
        Sphere::get_uv_for_point(Vec3::new(0, 0, -SCALE)),
        TexCoord::new(fxv(0.75), fxv(0.5))
    );
}

#[test]
fn sphere_head_on_hit() {
    // A half-unit sphere at the origin, a ray from (0, 0, 1) looking down -z:
    // the hit must land at t = 0.5 on the near pole with an outward normal.
    let sphere = Sphere::stationary(Vec3::new(0, 0, 0), fxv(0.5), MaterialRef(0));
    let ray = Ray::new(Vec3::new(0, 0, SCALE), Vec3::new(0, 0, -SCALE), 0);
    let rec = sphere.hit(&ray, Interval(66, TMAX)).expect("must hit");
    assert_eq!(rec.t, fxv(0.5));
    assert_eq!(rec.position, Vec3::new(0, 0, fxv(0.5)));
    assert_eq!(rec.normal, Vec3::new(0, 0, SCALE));
    assert!(rec.front_face);
}

#[test]
fn nearer_sphere_wins() {
    // A huge ground sphere below and a small sphere at the origin: a ray from
    // above pointing down meets the small sphere first.
    let ground = Sphere::stationary(Vec3::new(0, -fxv(1000.0), 0), fxv(1000.0), MaterialRef(0));
    let small = Sphere::stationary(Vec3::new(0, 0, 0), fxv(0.5), MaterialRef(1));
    let list = HittableList::from_slice(vec![
        Hittable::Sphere(ground),
        Hittable::Sphere(small),
    ]);
    let ray = Ray::new(Vec3::new(0, fxv(2.0), 0), Vec3::new(0, -SCALE, 0), 0);
    let rec = Hittable::List(list).hit(&ray, Interval(66, TMAX)).expect("must hit");
    assert_eq!(rec.t, fxv(1.5));
    assert_eq!(rec.material, MaterialRef(1));
}

#[test]
fn combine_contains_both() {
    let a = Aabb::span_points(Vec3::new(0, 0, 0), Vec3::new(SCALE, SCALE, SCALE));
    let b = Aabb::span_points(
        Vec3::new(-2 * SCALE, -SCALE, 0),
        Vec3::new(-SCALE, SCALE / 2, SCALE / 4),
    );
    let c = Aabb::combine(a, b);
    assert!(c.x.0 <= a.x.0 && a.x.1 <= c.x.1);
    assert!(c.y.0 <= b.y.0 && b.y.1 <= c.y.1);
    assert!(c.z.0 <= a.z.0 && b.z.1 <= c.z.1);
    assert!(c.contains_point(Vec3::new(SCALE / 2, SCALE / 2, SCALE / 2)));
    assert!(c.contains_point(Vec3::new(-SCALE - SCALE / 2, 0, 0)));
}

#[test]
fn constructed_box_has_minimum_extent() {
    // A degenerate (flat) span still comes out with nonzero thickness.
    let flat = Aabb::span_points(Vec3::new(0, 0, 0), Vec3::new(SCALE, 0, SCALE));
    assert!(flat.y.1 - flat.y.0 >= 7);
    assert!(flat.x.1 - flat.x.0 >= 7);
}

#[test]
fn front_face_follows_incoming_direction() {
    let ray = Ray::new(Vec3::new(0, 0, 0), Vec3::new(0, 0, -SCALE), 0);
    let outward = Vec3::new(0, 0, SCALE);
    let rec = HitRecord::with_face_normal(
        ray, SCALE, Vec3::new(0, 0, -SCALE), TexCoord::new(0, 0), outward, MaterialRef(0));
    assert!(rec.front_face);
    assert_eq!(rec.normal, outward);

    let grazing = Ray::new(Vec3::new(0, 0, 0), Vec3::new(0, 0, SCALE), 0);
    let rec2 = HitRecord::with_face_normal(
        grazing, SCALE, Vec3::new(0, 0, SCALE), TexCoord::new(0, 0), outward, MaterialRef(0));
    assert!(!rec2.front_face);
    assert_eq!(rec2.normal, Vec3::new(0, 0, -SCALE));
}

#[test]
fn interval_operations() {
    let i = Interval(10, 20);
    assert!(i.contains(10) && i.contains(20) && !i.contains(21));
    assert!(i.surrounds(11) && !i.surrounds(10));
    assert_eq!(i.clamp(5), 10);
    assert_eq!(i.clamp(25), 20);
    assert_eq!(i.clamp(15), 15);
}

#[test]
fn translate_shifts_hit_positions() {
    let sphere = Sphere::stationary(Vec3::new(0, 0, 0), fxv(0.5), MaterialRef(0));
    let moved = raytracer::transform::Translate::new(
        Vec3::new(2 * SCALE, 0, 0),
        Box::new(Hittable::Sphere(sphere)),
    );
    let ray = Ray::new(Vec3::new(2 * SCALE, 0, SCALE), Vec3::new(0, 0, -SCALE), 0);
    let rec = Hittable::Translate(moved).hit(&ray, Interval(66, TMAX)).expect("must hit");
    assert_eq!(rec.t, fxv(0.5));
    assert_eq!(rec.position, Vec3::new(2 * SCALE, 0, fxv(0.5)));
}

#[test]
fn volume_hit_stays_between_entrance_and_exit() {
    let boundary = Sphere::stationary(Vec3::new(0, 0, 0), SCALE, MaterialRef(0));
    let mut rng = raytracer::Rng::new(77);
    let fog = raytracer::constant_volume::ConstantVolume::new(
        Box::new(Hittable::Sphere(boundary)),
        100 * SCALE,
        MaterialRef(1),
        &mut rng,
    );
    let ray = Ray::new(Vec3::new(0, 0, 3 * SCALE), Vec3::new(0, 0, -SCALE), 0);
    if let Some(rec) = Hittable::Volume(fog).hit(&ray, Interval(66, TMAX)) {
        // The boundary runs from t = 2 to t = 4 along this ray.
        assert!(rec.t >= 2 * SCALE - 8);
        assert!(rec.t <= 4 * SCALE + 8);
        assert_eq!(rec.material, MaterialRef(1));
    }
}
