//! A progressive Monte Carlo path tracer over exact fixed-point arithmetic.
//!
//! Scene geometry, the bounding volume hierarchy, materials, textures and the
//! camera's integrator all compute with scaled 64-bit integers, so every step
//! has an exact mathematical description and is verified against it.

pub mod aabb;
pub mod bvh;
pub mod camera;
pub mod constant_volume;
pub mod cube;
pub mod fixed;
pub mod hittable;
pub mod material;
pub mod quad;
pub mod ray;
pub mod rng;
pub mod scene;
pub mod scenes;
pub mod sphere;
pub mod texture;
pub mod transform;
pub mod trig;
pub mod util;
pub mod vec3;
pub mod world;

pub use aabb::Aabb;
pub use fixed::SCALE;
pub use ray::Ray;
pub use rng::Rng;
pub use util::Interval;
pub use vec3::{Color, Vec3};
