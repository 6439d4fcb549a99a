//! Light intensity in three channels.

use crate::scalar::Scalar;
use crate::scalar::SCALE;
use vstd::prelude::*;

verus! {

/// An unclamped amount of red, green and blue light, conventionally
/// between 0 and 255 per channel.
#[derive(Clone, Copy, Debug, PartialEq, Eq, Structural)]
pub struct Color {
    pub r: Scalar,
    pub g: Scalar,
    pub b: Scalar,
}

/// The display value of a channel: its whole part, clamped to `0..=255`.
pub open spec fn spec_channel(c: Scalar) -> u8 {
    if c.raw < 0 {
        0u8
    } else if c.raw >= 255 * SCALE {
        255u8
    } else {
        (c.raw / SCALE) as u8
    }
}

/// Rounds a channel down to a whole display value and clamps it to
/// `0..=255`.
pub fn channel(c: Scalar) -> (v: u8)
    ensures
        v == spec_channel(c),
{
    if c.raw < 0 {
        0
    } else if c.raw >= 255_000_000 {
        255
    } else {
        (c.raw / 1_000_000) as u8
    }
}

impl Color {
    /// The channel-wise sum.
    pub open spec fn spec_add(self, rhs: Color) -> Color {
        Color { r: self.r.spec_add(rhs.r), g: self.g.spec_add(rhs.g), b: self.b.spec_add(rhs.b) }
    }

    /// Every channel multiplied by `k`.
    pub open spec fn spec_mul(self, k: Scalar) -> Color {
        Color { r: self.r.spec_mul(k), g: self.g.spec_mul(k), b: self.b.spec_mul(k) }
    }

    /// The three display values of the colour.
    pub open spec fn spec_to_rgb(self) -> (u8, u8, u8) {
        (spec_channel(self.r), spec_channel(self.g), spec_channel(self.b))
    }

    /// Makes a colour from its three channels.
    pub fn new(r: Scalar, g: Scalar, b: Scalar) -> (c: Color)
        ensures
            c == (Color { r, g, b }),
    {
        Color { r, g, b }
    }

    /// Adds two colours channel by channel.
    pub fn add(self, rhs: Color) -> (c: Color)
        ensures
            c == self.spec_add(rhs),
    {
        Color { r: self.r.add(rhs.r), g: self.g.add(rhs.g), b: self.b.add(rhs.b) }
    }

    /// Multiplies every channel by `k`.
    pub fn mul(self, k: Scalar) -> (c: Color)
        ensures
            c == self.spec_mul(k),
    {
        Color { r: self.r.mul(k), g: self.g.mul(k), b: self.b.mul(k) }
    }

    /// Converts the colour to display values, each channel on its own.
    pub fn to_rgb(self) -> (rgb: (u8, u8, u8))
        ensures
            rgb == self.spec_to_rgb(),
    {
        (channel(self.r), channel(self.g), channel(self.b))
    }
}

} // verus!
