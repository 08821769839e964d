//! Positions in space.
use crate::scalar::Fixed;
use crate::vec3::Vec3;
use vstd::prelude::*;

verus! {

/// A position. It has the same coordinates as a [`Vec3`] but is kept apart
/// from it, so that a position is never taken for a direction.
#[derive(Clone, Copy, Debug, PartialEq, Eq, Structural)]
pub struct Point3 {
    pub x: Fixed,
    pub y: Fixed,
    pub z: Fixed,
}

impl Point3 {
    /// The origin of the coordinates.
    pub open spec fn spec_zero() -> Point3 {
        Point3 { x: Fixed { raw: 0 }, y: Fixed { raw: 0 }, z: Fixed { raw: 0 } }
    }

    /// The point reached by the displacement `rhs`.
    pub open spec fn spec_add(self, rhs: Vec3) -> Point3 {
        Point3 {
            x: self.x.spec_add(rhs.x),
            y: self.y.spec_add(rhs.y),
            z: self.z.spec_add(rhs.z),
        }
    }

    /// The point from which the displacement `rhs` leads here.
    pub open spec fn spec_sub_vec(self, rhs: Vec3) -> Point3 {
        Point3 {
            x: self.x.spec_sub(rhs.x),
            y: self.y.spec_sub(rhs.y),
            z: self.z.spec_sub(rhs.z),
        }
    }

    /// The displacement that leads from `rhs` here.
    pub open spec fn spec_sub(self, rhs: Point3) -> Vec3 {
        Vec3 {
            x: self.x.spec_sub(rhs.x),
            y: self.y.spec_sub(rhs.y),
            z: self.z.spec_sub(rhs.z),
        }
    }

    /// Every coordinate divided by `k`.
    pub open spec fn spec_div(self, k: Fixed) -> Point3 {
        Point3 { x: self.x.spec_div(k), y: self.y.spec_div(k), z: self.z.spec_div(k) }
    }

    /// The point with the given coordinates.
    pub fn new(x: Fixed, y: Fixed, z: Fixed) -> (r: Point3)
        ensures
            r == (Point3 { x, y, z }),
    {
        Point3 { x, y, z }
    }

    /// The origin of the coordinates.
    pub fn zero() -> (r: Point3)
        ensures
            r == Point3::spec_zero(),
    {
        Point3 { x: Fixed { raw: 0 }, y: Fixed { raw: 0 }, z: Fixed { raw: 0 } }
    }
}

impl Default for Point3 {
    fn default() -> (r: Point3)
        ensures
            r == Point3::spec_zero(),
    {
        Point3::zero()
    }
}

impl core::ops::Add<Vec3> for Point3 {
    type Output = Point3;

    fn add(self, rhs: Vec3) -> (r: Point3)
        ensures
            r == self.spec_add(rhs),
    {
        Point3 { x: self.x + rhs.x, y: self.y + rhs.y, z: self.z + rhs.z }
    }
}

impl vstd::std_specs::ops::AddSpecImpl<Vec3> for Point3 {
    open spec fn obeys_add_spec() -> bool {
        true
    }

    open spec fn add_req(self, rhs: Vec3) -> bool {
        true
    }

    open spec fn add_spec(self, rhs: Vec3) -> Point3 {
        self.spec_add(rhs)
    }
}

impl core::ops::Sub for Point3 {
    type Output = Vec3;

    fn sub(self, rhs: Point3) -> (r: Vec3)
        ensures
            r == self.spec_sub(rhs),
    {
        Vec3 { x: self.x - rhs.x, y: self.y - rhs.y, z: self.z - rhs.z }
    }
}

impl vstd::std_specs::ops::SubSpecImpl for Point3 {
    open spec fn obeys_sub_spec() -> bool {
        true
    }

    open spec fn sub_req(self, rhs: Point3) -> bool {
        true
    }

    open spec fn sub_spec(self, rhs: Point3) -> Vec3 {
        self.spec_sub(rhs)
    }
}

impl core::ops::Sub<Vec3> for Point3 {
    type Output = Point3;

    fn sub(self, rhs: Vec3) -> (r: Point3)
        ensures
            r == self.spec_sub_vec(rhs),
    {
        Point3 { x: self.x - rhs.x, y: self.y - rhs.y, z: self.z - rhs.z }
    }
}

impl vstd::std_specs::ops::SubSpecImpl<Vec3> for Point3 {
    open spec fn obeys_sub_spec() -> bool {
        true
    }

    open spec fn sub_req(self, rhs: Vec3) -> bool {
        true
    }

    open spec fn sub_spec(self, rhs: Vec3) -> Point3 {
        self.spec_sub_vec(rhs)
    }
}

impl core::ops::Div<Fixed> for Point3 {
    type Output = Point3;

    fn div(self, rhs: Fixed) -> (r: Point3)
        ensures
            r == self.spec_div(rhs),
    {
        Point3 { x: self.x / rhs, y: self.y / rhs, z: self.z / rhs }
    }
}

impl vstd::std_specs::ops::DivSpecImpl<Fixed> for Point3 {
    open spec fn obeys_div_spec() -> bool {
        true
    }

    open spec fn div_req(self, rhs: Fixed) -> bool {
        true
    }

    open spec fn div_spec(self, rhs: Fixed) -> Point3 {
        self.spec_div(rhs)
    }
}

} // verus!
