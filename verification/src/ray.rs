//! Rays: an origin and a direction.

use crate::fixed::Fixed;
use crate::vec3::Vec3;
use vstd::prelude::*;

verus! {

/// Farthest, in raw units, that a component of a ray's origin may lie from
/// zero for the ray to be tested against surfaces: 20,000 units.
pub const ORIGIN_REACH: i64 = 20_000_000_000_000;

/// The half-line `origin + t * direction`. The direction need not have unit
/// length.
#[derive(Clone, Copy, Debug, PartialEq, Eq, Structural)]
pub struct Ray {
    pub origin: Vec3,
    pub direction: Vec3,
}

impl Ray {
    /// Whether the ray is within the reach of the intersection test: its
    /// origin within `ORIGIN_REACH`. For such a ray, whatever its
    /// direction, and a well-formed sphere no quantity of the test leaves
    /// the range of the arithmetic.
    pub open spec fn in_reach(self) -> bool {
        self.origin.within(ORIGIN_REACH as int)
    }

    /// The direction at unit length; the zero vector for a ray without
    /// direction.
    pub open spec fn heading(self) -> Vec3 {
        self.direction.unit_or_zero()
    }

    /// The point at parameter `t`.
    pub open spec fn at_spec(self, t: Fixed) -> Vec3 {
        self.origin.sum(self.direction.scaled(t))
    }

    /// The ray from `origin` along `direction`.
    pub fn new(origin: Vec3, direction: Vec3) -> (r: Ray)
        ensures
            r == (Ray { origin, direction }),
    {
        Ray { origin, direction }
    }

    /// Whether the ray is within the reach of the intersection test.
    pub fn is_in_reach(&self) -> (b: bool)
        ensures
            b == self.in_reach(),
    {
        self.origin.is_within(ORIGIN_REACH)
    }

    /// The point at parameter `t`, which may be negative.
    pub fn at(&self, t: Fixed) -> (p: Vec3)
        ensures
            p == self.at_spec(t),
    {
        self.origin + t * self.direction
    }
}

impl Default for Ray {
    fn default() -> (r: Ray)
        ensures
            r == (Ray { origin: Vec3::zero_spec(), direction: Vec3::zero_spec() }),
    {
        Ray { origin: Vec3::default(), direction: Vec3::default() }
    }
}

} // verus!
