//! Rays: half-lines given by an origin and a direction.

use crate::fixed::Fixed;
use crate::vec3::Point3;
use crate::vec3::Vec3;
use vstd::prelude::*;

verus! {

/// The points `origin + t direction`. The direction need not have length one.
#[derive(Clone, Copy, Debug, PartialEq, Eq, Structural)]
pub struct Ray {
    pub origin: Point3,
    pub direction: Vec3,
}

impl Ray {
    /// The ray from `origin` along `direction`.
    pub fn new(origin: Point3, direction: Vec3) -> (r: Ray)
        ensures
            r == (Ray { origin, direction }),
    {
        Ray { origin, direction }
    }

    /// The point of the ray at parameter `t`: `origin + t direction`.
    pub open spec fn at_spec(self, t: Fixed) -> Vec3 {
        self.origin.plus(self.direction.scaled(t))
    }

    /// The point of the ray at parameter `t`.
    pub fn at(&self, t: Fixed) -> (r: Vec3)
        ensures
            r == self.at_spec(t),
    {
        self.origin + t * self.direction
    }
}

} // verus!
