//! Half-lines along which light is followed.
use crate::point3::Point3;
use crate::scalar::Fixed;
use crate::vec3::Vec3;
use vstd::prelude::*;

verus! {

/// The points `origin + t * direction`.
#[derive(Clone, Copy, Debug, PartialEq, Eq, Structural)]
pub struct Ray {
    pub origin: Point3,
    pub direction: Vec3,
}

impl Ray {
    /// The ray that starts at the origin and has no direction yet.
    pub open spec fn spec_new() -> Ray {
        Ray { origin: Point3::spec_zero(), direction: Vec3::spec_zero() }
    }

    /// The point at parameter `t`.
    pub open spec fn spec_at(self, t: Fixed) -> Point3 {
        self.origin.spec_add(self.direction.spec_scale(t))
    }

    /// The ray that starts at the origin and has no direction yet.
    pub fn new() -> (r: Ray)
        ensures
            r == Ray::spec_new(),
    {
        Ray { origin: Point3::zero(), direction: Vec3::zero() }
    }

    /// The point at parameter `t`.
    pub fn at(&self, t: Fixed) -> (r: Point3)
        ensures
            r == self.spec_at(t),
    {
        self.origin + t * self.direction
    }
}

impl Default for Ray {
    fn default() -> (r: Ray)
        ensures
            r == Ray::spec_new(),
    {
        Ray::new()
    }
}

} // verus!
