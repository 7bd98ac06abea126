//! Rays: a point of origin and a direction.
use vstd::prelude::*;
use crate::geometry::scalar::Scalar;
use crate::geometry::vector::Vector;

verus! {

/// A half-line from `origin` along `direction`. The direction need not have
/// unit length; distances along the ray count in multiples of it.
#[derive(Clone, Copy, PartialEq, Eq, Structural, Debug)]
pub struct Ray {
    pub origin: Vector,
    pub direction: Vector,
}

impl Ray {
    /// The point `origin + direction * distance`.
    pub open spec fn spec_at(self, distance: Scalar) -> Vector {
        self.origin.spec_add(self.direction.spec_mul(distance))
    }

    /// The ray from `origin` along `direction`.
    pub fn new(origin: Vector, direction: Vector) -> (r: Ray)
        ensures
            r == (Ray { origin, direction }),
    {
        Ray { origin, direction }
    }

    /// The point at `distance` along the ray.
    pub fn at(&self, distance: Scalar) -> (r: Vector)
        ensures
            r == self.spec_at(distance),
    {
        self.origin.add(self.direction.mul(distance))
    }
}

} // verus!
