//! A recursive ray tracer for scenes of spheres and lights.
//!
//! For every pixel of a canvas the tracer sends a ray from the camera,
//! finds the nearest sphere that the ray meets, lights the point with
//! ambient, diffuse and specular light, tests each light for shadow, and
//! follows the mirrored ray up to a given depth.
//!
//! All quantities are fixed-point numbers with six decimal places
//! ([`scalar::Scalar`]). Every operation rounds down and saturates, so each
//! function is defined on all inputs and its result is stated exactly.

pub mod color;
pub mod raster;
pub mod render;
pub mod roots;
pub mod scalar;
pub mod scene;
pub mod structs;
pub mod tracer;
pub mod vector;

pub use crate::color::Color;
pub use crate::raster::Raster;
pub use crate::render::canvas_to_viewport;
pub use crate::render::render;
pub use crate::scalar::Scalar;
pub use crate::scene::Scene;
pub use crate::structs::Canvas;
pub use crate::structs::Light;
pub use crate::structs::LightType;
pub use crate::structs::Sphere;
pub use crate::tracer::closest_intersection;
pub use crate::tracer::compute_lighting;
pub use crate::tracer::intersect_ray_sphere;
pub use crate::tracer::reflect_ray;
pub use crate::tracer::trace_ray;
pub use crate::vector::dot;
pub use crate::vector::Vector;
