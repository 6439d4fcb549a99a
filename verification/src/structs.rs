//! The objects a scene is made of.

use crate::color::Color;
use crate::scalar::Scalar;
use crate::vector::Vector;
use vstd::prelude::*;

verus! {

/// Specular exponent that switches the specular highlight off.
pub const NO_SPECULAR: i32 = -1;

/// The size of the output image in pixels.
#[derive(Clone, Copy, Debug, PartialEq, Eq, Structural)]
pub struct Canvas {
    pub height: u32,
    pub width: u32,
}

/// The kind of a light source.
#[derive(Clone, Copy, Debug, PartialEq, Eq, Structural)]
pub enum LightType {
    Ambient,
    Directional,
    Point,
}

/// A light source. Each kind carries exactly the data it needs, so a
/// positional light can never lack its position.
#[derive(Clone, Copy, Debug, PartialEq, Eq, Structural)]
pub enum Light {
    /// Light that reaches every surface point equally.
    Ambient { intensity: Scalar },
    /// Light that radiates from a position.
    Point { intensity: Scalar, position: Vector },
    /// Light that arrives everywhere along the same direction; the vector
    /// points from a surface towards the light.
    Directional { intensity: Scalar, direction: Vector },
}

/// A sphere and the look of its surface.
#[derive(Clone, Copy, Debug, PartialEq, Eq, Structural)]
pub struct Sphere {
    pub center: Vector,
    pub radius: Scalar,
    pub color: Color,
    /// Shininess exponent of the highlight, or `NO_SPECULAR`.
    pub specular: i32,
    /// Share of the final colour that comes from the mirrored ray, from
    /// zero (matte) to one (mirror).
    pub reflective: Scalar,
}

impl Light {
    /// The kind of the light.
    pub open spec fn spec_light_type(self) -> LightType {
        match self {
            Light::Ambient { .. } => LightType::Ambient,
            Light::Point { .. } => LightType::Point,
            Light::Directional { .. } => LightType::Directional,
        }
    }

    /// The brightness of the light.
    pub open spec fn spec_intensity(self) -> Scalar {
        match self {
            Light::Ambient { intensity } => intensity,
            Light::Point { intensity, .. } => intensity,
            Light::Directional { intensity, .. } => intensity,
        }
    }

    /// The kind of the light.
    pub fn light_type(&self) -> (kind: LightType)
        ensures
            kind == self.spec_light_type(),
    {
        match self {
            Light::Ambient { .. } => LightType::Ambient,
            Light::Point { .. } => LightType::Point,
            Light::Directional { .. } => LightType::Directional,
        }
    }

    /// The brightness of the light.
    pub fn intensity(&self) -> (i: Scalar)
        ensures
            i == self.spec_intensity(),
    {
        match self {
            Light::Ambient { intensity } => *intensity,
            Light::Point { intensity, .. } => *intensity,
            Light::Directional { intensity, .. } => *intensity,
        }
    }
}

} // verus!
