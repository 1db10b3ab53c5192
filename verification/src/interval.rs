//! Ranges of ray parameters.

use crate::fixed::Fixed;
use vstd::prelude::*;

verus! {

/// The range from `min` to `max`. Nothing forces `min <= max`: a range with
/// `min > max` holds no number.
#[derive(Clone, Copy, Debug, PartialEq, Eq, Structural)]
pub struct Interval {
    pub min: Fixed,
    pub max: Fixed,
}

impl Interval {
    /// Whether `x` lies in the closed range.
    pub open spec fn contains_spec(self, x: Fixed) -> bool {
        self.min@ <= x@ <= self.max@
    }

    /// Whether `x` lies strictly between the bounds.
    pub open spec fn surrounds_spec(self, x: Fixed) -> bool {
        self.min@ < x@ < self.max@
    }

    /// The range from `min` to `max`.
    pub fn new(min: Fixed, max: Fixed) -> (r: Interval)
        ensures
            r == (Interval { min, max }),
    {
        Interval { min, max }
    }

    /// Whether `x` lies in the closed range.
    pub fn contains(&self, x: Fixed) -> (b: bool)
        ensures
            b == self.contains_spec(x),
    {
        self.min.le(x) && x.le(self.max)
    }

    /// Whether `x` lies strictly between the bounds.
    pub fn surrounds(&self, x: Fixed) -> (b: bool)
        ensures
            b == self.surrounds_spec(x),
    {
        self.min.lt(x) && x.lt(self.max)
    }
}

} // verus!
