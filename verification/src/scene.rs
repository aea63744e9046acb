//! Scene parameters and the scene-supplier protocol.

use vstd::prelude::*;
use crate::fixed::{CMAX, SMAX};
use crate::rng::Rng;
use crate::vec3::{bounded, Color, Vec3};
use crate::world::{world_wf, World};

verus! {

/// Everything the renderer needs besides the world itself.
pub struct Settings {
    /// Position of the camera.
    pub camera_eye: Vec3,
    /// Target position for the camera.
    pub camera_target: Vec3,
    /// Width of the output image.
    pub width: u32,
    /// Height of the output image.
    pub height: u32,
    /// Vertical field of view, in degrees.
    pub fov: i64,
    /// Distance of the focal point from the camera.
    pub focus_distance: i64,
    /// Strength of the depth of field effect, in degrees of lens aperture.
    pub defocus_angle: i64,
    /// Number of samples (rays) per pixel.
    pub samples: u32,
    /// Bounce limit for a single ray.
    pub max_bounces: u32,
    /// Fixed background color, or none for the procedural sky.
    pub background_color: Option<Color>,
}

/// Settings a camera can be built from directly.
pub open spec fn settings_wf(s: Settings) -> bool {
    &&& bounded(s.camera_eye, SMAX as int)
    &&& bounded(s.camera_target, SMAX as int)
    &&& 1 <= s.width <= 16384
    &&& 1 <= s.height <= 16384
    &&& 0 <= s.fov <= CMAX
    &&& 0 < s.focus_distance <= SMAX
    &&& 0 <= s.defocus_angle <= CMAX
    &&& 1 <= s.samples <= 65536
    &&& match s.background_color {
        Some(b) => bounded(b, CMAX as int),
        None => true,
    }
}

/// A scene supplies camera parameters and a fully built world.
pub trait Scene {
    fn default_settings(&self) -> (r: Settings)
        ensures
            settings_wf(r),
    ;

    fn world(&self, rng: &mut Rng) -> (r: World)
        ensures
            world_wf(r),
            r.bvh is Some,
    ;
}

} // verus!
