//! Points and directions in three dimensions.

use crate::scalar::lemma_sqrt_nonnegative;
use crate::scalar::Scalar;
use vstd::prelude::*;

verus! {

/// A point or a direction, given by its three coordinates.
#[derive(Clone, Copy, Debug, PartialEq, Eq, Structural)]
pub struct Vector {
    pub x: Scalar,
    pub y: Scalar,
    pub z: Scalar,
}

/// The dot product: the three coordinate products, summed from left to
/// right.
pub open spec fn spec_dot(a: Vector, b: Vector) -> Scalar {
    a.x.spec_mul(b.x).spec_add(a.y.spec_mul(b.y)).spec_add(a.z.spec_mul(b.z))
}

/// Computes the dot product.
pub fn dot(a: Vector, b: Vector) -> (r: Scalar)
    ensures
        r == spec_dot(a, b),
{
    a.x.mul(b.x).add(a.y.mul(b.y)).add(a.z.mul(b.z))
}

impl Vector {
    /// The coordinate-wise sum.
    pub open spec fn spec_add(self, rhs: Vector) -> Vector {
        Vector { x: self.x.spec_add(rhs.x), y: self.y.spec_add(rhs.y), z: self.z.spec_add(rhs.z) }
    }

    /// The coordinate-wise difference.
    pub open spec fn spec_sub(self, rhs: Vector) -> Vector {
        Vector { x: self.x.spec_sub(rhs.x), y: self.y.spec_sub(rhs.y), z: self.z.spec_sub(rhs.z) }
    }

    /// The opposite vector.
    pub open spec fn spec_neg(self) -> Vector {
        Vector { x: self.x.spec_neg(), y: self.y.spec_neg(), z: self.z.spec_neg() }
    }

    /// Every coordinate multiplied by `k`.
    pub open spec fn spec_scale(self, k: Scalar) -> Vector {
        Vector { x: self.x.spec_mul(k), y: self.y.spec_mul(k), z: self.z.spec_mul(k) }
    }

    /// Every coordinate divided by `k`.
    pub open spec fn spec_div(self, k: Scalar) -> Vector {
        Vector { x: self.x.spec_div(k), y: self.y.spec_div(k), z: self.z.spec_div(k) }
    }

    /// The Euclidean norm: the square root of the vector's dot product
    /// with itself.
    pub open spec fn spec_length(self) -> Scalar {
        spec_dot(self, self).spec_sqrt()
    }

    /// Makes a vector from its three coordinates.
    pub fn new(x: Scalar, y: Scalar, z: Scalar) -> (r: Vector)
        ensures
            r == (Vector { x, y, z }),
    {
        Vector { x, y, z }
    }

    /// Adds two vectors.
    pub fn add(self, rhs: Vector) -> (r: Vector)
        ensures
            r == self.spec_add(rhs),
    {
        Vector { x: self.x.add(rhs.x), y: self.y.add(rhs.y), z: self.z.add(rhs.z) }
    }

    /// Subtracts `rhs` from the vector.
    pub fn sub(self, rhs: Vector) -> (r: Vector)
        ensures
            r == self.spec_sub(rhs),
    {
        Vector { x: self.x.sub(rhs.x), y: self.y.sub(rhs.y), z: self.z.sub(rhs.z) }
    }

    /// Reverses the vector.
    pub fn neg(self) -> (r: Vector)
        ensures
            r == self.spec_neg(),
    {
        Vector { x: self.x.neg(), y: self.y.neg(), z: self.z.neg() }
    }

    /// Multiplies every coordinate by `k`.
    pub fn scale(self, k: Scalar) -> (r: Vector)
        ensures
            r == self.spec_scale(k),
    {
        Vector { x: self.x.mul(k), y: self.y.mul(k), z: self.z.mul(k) }
    }

    /// Divides every coordinate by `k`.
    pub fn div(self, k: Scalar) -> (r: Vector)
        ensures
            r == self.spec_div(k),
    {
        Vector { x: self.x.div(k), y: self.y.div(k), z: self.z.div(k) }
    }

    /// Computes the Euclidean norm.
    pub fn length(self) -> (r: Scalar)
        ensures
            r == self.spec_length(),
    {
        dot(self, self).sqrt()
    }
}

/// The length of a vector is never negative.
pub proof fn lemma_length_nonnegative(v: Vector)
    ensures
        v.spec_length().raw >= 0,
{
    lemma_sqrt_nonnegative(spec_dot(v, v));
}

} // verus!
