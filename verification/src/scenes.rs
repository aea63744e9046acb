//! The bundled example scenes.

pub mod bouncing_spheres;
pub mod checkered_spheres;
pub mod cornell_box;
pub mod cornell_smoke;
pub mod earth;
pub mod empty_cornell_box;
pub mod everything;
pub mod quads;
pub mod simple_light;
