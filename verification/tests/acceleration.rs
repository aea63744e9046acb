use raytracer::bvh::Bvh;
use raytracer::fixed::{SCALE, TMAX};
use raytracer::hittable::{Hittable, HittableList};
use raytracer::material::MaterialRef;
use raytracer::ray::Ray;
use raytracer::rng::Rng;
use raytracer::sphere::Sphere;
use raytracer::util::Interval;
use raytracer::vec3::Vec3;

fn spheres() -> Vec<Hittable> {
    let mut v = Vec::new();
    let centers = [
        (0i64, 0i64, -3i64),
        (1, 0, -5),
        (-1, 1, -8),
        (0, -1, -2),
        (2, 2, -6),
        (-2, 0, -4),
        (0, 2, -7),
    ];
    for (i, (x, y, z)) in centers.iter().enumerate() {
        v.push(Hittable::Sphere(Sphere::stationary(
            Vec3::new(x * SCALE, y * SCALE, z * SCALE),
            SCALE / 2,
            MaterialRef(i),
        )));
    }
    v
}

/// The hierarchy must agree with a brute-force linear scan over the same
/// surfaces, ray by ray.
#[test]
fn bvh_matches_linear_scan() {
    let mut rng = Rng::new(12345);
    let bvh = Bvh::new(spheres(), &mut rng);
    let list = Hittable::List(HittableList::from_slice(spheres()));

    let mut probe = Rng::new(999);
    for _ in 0..200 {
        let ox = probe.range(-3 * SCALE, 3 * SCALE);
        let oy = probe.range(-3 * SCALE, 3 * SCALE);
        let dx = probe.range(-SCALE / 2, SCALE / 2);
        let dy = probe.range(-SCALE / 2, SCALE / 2);
        let ray = Ray::new(Vec3::new(ox, oy, 0), Vec3::new(dx, dy, -SCALE), 0);
        let from_bvh = bvh.hit(&ray, Interval(66, TMAX));
        let from_scan = list.hit(&ray, Interval(66, TMAX));
        match (from_bvh, from_scan) {
            (None, None) => {}
            (Some(a), Some(b)) => {
                assert_eq!(a.t, b.t);
                assert_eq!(a.position, b.position);
            }
            _ => panic!("hierarchy and linear scan disagree"),
        }
    }
}

#[test]
fn bvh_miss_is_linear_miss() {
    let mut rng = Rng::new(7);
    let bvh = Bvh::new(spheres(), &mut rng);
    let away = Ray::new(Vec3::new(0, 0, 0), Vec3::new(0, 0, SCALE), 0);
    assert!(bvh.hit(&away, Interval(66, TMAX)).is_none());
}

#[test]
fn stream_is_deterministic() {
    let mut a = Rng::new(42);
    let mut b = Rng::new(42);
    for _ in 0..32 {
        assert_eq!(a.unit(), b.unit());
    }
    let mut c = Rng::new(43);
    let mut saw_difference = false;
    let mut a2 = Rng::new(42);
    for _ in 0..32 {
        if a2.unit() != c.unit() {
            saw_difference = true;
        }
    }
    assert!(saw_difference);
}
