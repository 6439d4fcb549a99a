//! The scene: everything a render reads.

use crate::color::Color;
use crate::scalar::Scalar;
use crate::structs::Canvas;
use crate::structs::Light;
use crate::structs::Sphere;
use crate::vector::Vector;
use vstd::prelude::*;

verus! {

/// An immutable description of what to render and how to project it.
pub struct Scene {
    /// The spheres, in the order in which rays are tested against them.
    pub spheres: Vec<Sphere>,
    /// The lights, in the order in which their contributions are summed.
    pub lights: Vec<Light>,
    pub camera_position: Vector,
    /// The colour of a ray that meets no sphere.
    pub background_color: Color,
    /// Width and height of the viewport in scene units.
    pub viewport_size: Scalar,
    /// Distance from the camera to the projection plane.
    pub projection_plane_z: Scalar,
    pub canvas: Canvas,
}

} // verus!
