//! Vectors of three fixed-point components, used as points, directions and
//! colours alike.

use crate::fixed::{isqrt, isqrt_wide, lemma_isqrt_unique, magnitude, quot, Fixed, LIMIT, SCALE};
use crate::ray::Ray;
use crate::sampler::Sampler;
use vstd::prelude::*;

verus! {

/// Magnitude, in raw units, below which a component counts as zero.
pub const NEAR_ZERO: i64 = 10;

/// Units of the finer scale, at which short vectors are measured, in one
/// raw unit.
pub const FINE: u128 = 1_000_000_000;

/// Raw units times units of the finer scale in one whole.
pub const FINE_SCALE: u128 = 1_000_000_000_000_000_000;

/// Squared length, in squares of raw units, below which a vector is
/// measured at the finer scale: that of a vector about 17 units long.
pub const SHORT: u128 = 300_000_000_000_000_000_000;

/// Draws that rejection sampling makes before it gives up and returns the
/// zero vector.
pub const SAMPLE_ATTEMPTS: u32 = 64;

/// The point of `[min, max)` that the fraction `unit` picks.
pub open spec fn ranged_spec(min: Fixed, max: Fixed, unit: Fixed) -> Fixed {
    min.sum(max.difference(min).product(unit))
}

/// Whether some fraction in `[0, 1)` picks `r` from `[min, max)`.
pub open spec fn is_ranged(min: Fixed, max: Fixed, r: Fixed) -> bool {
    exists|unit: Fixed| 0 <= unit@ < SCALE && r == #[trigger] ranged_spec(min, max, unit)
}

/// The point of `[min, max)` that the fraction `unit` picks.
pub fn ranged(min: Fixed, max: Fixed, unit: Fixed) -> (r: Fixed)
    ensures
        r == ranged_spec(min, max, unit),
{
    min + (max - min) * unit
}

/// Draws a number uniformly from `[min, max)`.
pub fn random_ranged(min: Fixed, max: Fixed, sampler: &mut Sampler) -> (r: Fixed)
    ensures
        is_ranged(min, max, r),
        min@ <= max@ ==> min@ <= r@ <= max@,
        min@ < max@ ==> r@ < max@,
        final(sampler).pinned() == old(sampler).pinned(),
        old(sampler).pinned() matches Some(c) ==> r == ranged_spec(min, max, c),
{
    let unit: Fixed = sampler.next_unit();
    proof {
        if min@ <= max@ {
            lemma_ranged_within(min, max, unit);
        }
    }
    ranged(min, max, unit)
}

/// A vector of three components.
#[derive(Clone, Copy, Debug, PartialEq, Eq, Structural)]
pub struct Vec3 {
    pub x: Fixed,
    pub y: Fixed,
    pub z: Fixed,
}

impl Vec3 {
    /// The zero vector.
    pub open spec fn zero_spec() -> Vec3 {
        Vec3 { x: Fixed::of(0), y: Fixed::of(0), z: Fixed::of(0) }
    }

    /// The component-wise sum.
    pub open spec fn sum(self, r: Vec3) -> Vec3 {
        Vec3 { x: self.x.sum(r.x), y: self.y.sum(r.y), z: self.z.sum(r.z) }
    }

    /// The component-wise difference.
    pub open spec fn difference(self, r: Vec3) -> Vec3 {
        Vec3 { x: self.x.difference(r.x), y: self.y.difference(r.y), z: self.z.difference(r.z) }
    }

    /// The component-wise product.
    pub open spec fn product(self, r: Vec3) -> Vec3 {
        Vec3 { x: self.x.product(r.x), y: self.y.product(r.y), z: self.z.product(r.z) }
    }

    /// Every component times `k`.
    pub open spec fn scaled(self, k: Fixed) -> Vec3 {
        Vec3 { x: self.x.product(k), y: self.y.product(k), z: self.z.product(k) }
    }

    /// Every component over `k`.
    pub open spec fn quotient(self, k: Fixed) -> Vec3
        recommends
            k@ != 0,
    {
        Vec3 { x: self.x.quotient(k), y: self.y.quotient(k), z: self.z.quotient(k) }
    }

    /// Every component negated.
    pub open spec fn negation(self) -> Vec3 {
        Vec3 { x: self.x.negation(), y: self.y.negation(), z: self.z.negation() }
    }

    /// The dot product: the sum of the products of the components, added
    /// from `x` to `z`.
    pub open spec fn dot_spec(self, r: Vec3) -> Fixed {
        self.x.product(r.x).sum(self.y.product(r.y)).sum(self.z.product(r.z))
    }

    /// The cross product.
    pub open spec fn cross_spec(self, r: Vec3) -> Vec3 {
        Vec3 {
            x: self.y.product(r.z).difference(self.z.product(r.y)),
            y: self.z.product(r.x).difference(self.x.product(r.z)),
            z: self.x.product(r.y).difference(self.y.product(r.x)),
        }
    }

    /// Whether no component is more than `bound` raw units from zero.
    pub open spec fn within(self, bound: int) -> bool {
        &&& -bound <= self.x@ <= bound
        &&& -bound <= self.y@ <= bound
        &&& -bound <= self.z@ <= bound
    }

    /// The squared length exactly, in squares of raw units.
    #[verifier::opaque]
    pub open spec fn norm_squared(self) -> int {
        self.x@ * self.x@ + self.y@ * self.y@ + self.z@ * self.z@
    }

    /// The squared length, rounded down to a raw unit once; the limit of
    /// the range where the squared length is beyond it.
    pub open spec fn length_squared_spec(self) -> Fixed {
        Fixed::of(self.norm_squared() / (SCALE as int))
    }

    /// The length, rounded down to a raw unit once; the limit of the range
    /// where the length is beyond it.
    pub open spec fn length_spec(self) -> Fixed {
        Fixed::of(isqrt(self.norm_squared()))
    }

    /// How the vector is measured for a division by its length: the
    /// divisor and the factor. For a long vector they are the length in raw
    /// units and `SCALE`; for a short one both are finer by `FINE`, so that
    /// the rounding of the length does not tell.
    pub open spec fn measure(self) -> (int, int) {
        if self.norm_squared() < SHORT {
            (isqrt(self.norm_squared() * FINE * FINE), FINE_SCALE as int)
        } else {
            (isqrt(self.norm_squared()), SCALE as int)
        }
    }

    /// The vector over its length: each component times the factor over
    /// the divisor of the measure, rounded toward zero once.
    pub open spec fn unit_spec(self) -> Vec3
        recommends
            self.length_spec()@ > 0,
    {
        let (divisor, factor) = self.measure();
        Vec3 {
            x: Fixed::of(quot(self.x@ * factor, divisor)),
            y: Fixed::of(quot(self.y@ * factor, divisor)),
            z: Fixed::of(quot(self.z@ * factor, divisor)),
        }
    }

    /// Whether every component is within `NEAR_ZERO` raw units of zero.
    pub open spec fn near_zero_spec(self) -> bool {
        &&& -NEAR_ZERO < self.x@ < NEAR_ZERO
        &&& -NEAR_ZERO < self.y@ < NEAR_ZERO
        &&& -NEAR_ZERO < self.z@ < NEAR_ZERO
    }

    /// The vector whose three components are `k`.
    pub open spec fn splat(k: Fixed) -> Vec3 {
        Vec3 { x: k, y: k, z: k }
    }

    /// This vector divided by its length, or the zero vector for the zero
    /// vector.
    pub open spec fn unit_or_zero(self) -> Vec3 {
        if self.length_spec()@ > 0 {
            self.unit_spec()
        } else {
            Vec3::zero_spec()
        }
    }

    /// Whether `v` can be drawn as a direction: it is a point of the unit
    /// sphere's inside divided by its length, or the zero vector.
    pub open spec fn is_drawn_unit(v: Vec3) -> bool {
        exists|p: Vec3| p.length_squared_spec()@ < SCALE && v == #[trigger] p.unit_or_zero()
    }

    /// Whether fractions in `[0, 1)` pick the components of `p` from
    /// `[-1, 1)`.
    pub open spec fn is_in_cube(p: Vec3) -> bool {
        let low = Fixed::of(-SCALE);
        let high = Fixed::of(SCALE as int);
        is_ranged(low, high, p.x) && is_ranged(low, high, p.y) && is_ranged(low, high, p.z)
    }

    /// Whether `p` lies in the plane `z = 0` and fractions in `[0, 1)` pick
    /// its other components from `[-1, 1)`.
    pub open spec fn is_in_square(p: Vec3) -> bool {
        let low = Fixed::of(-SCALE);
        let high = Fixed::of(SCALE as int);
        is_ranged(low, high, p.x) && is_ranged(low, high, p.y) && p.z == Fixed::of(0)
    }

    /// Whether `p` lies inside the unit disk of the plane `z = 0`.
    pub open spec fn is_in_unit_disk(p: Vec3) -> bool {
        p.z@ == 0 && p.length_squared_spec()@ < SCALE
    }

    /// This vector, turned to the side of `normal` if it points away from it.
    pub open spec fn toward(self, normal: Vec3) -> Vec3 {
        if self.dot_spec(normal)@ > 0 {
            self
        } else {
            self.negation()
        }
    }

    /// What rejection sampling in the unit sphere returns when every draw
    /// is `c`.
    pub open spec fn pinned_in_unit_sphere(c: Fixed) -> Vec3 {
        let p = Vec3::splat(ranged_spec(Fixed::of(-SCALE), Fixed::of(SCALE as int), c));
        if p.length_squared_spec()@ < SCALE {
            p
        } else {
            Vec3::zero_spec()
        }
    }

    /// What rejection sampling in the unit disk returns when every draw is
    /// `c`.
    pub open spec fn pinned_in_unit_disk(c: Fixed) -> Vec3 {
        let k = ranged_spec(Fixed::of(-SCALE), Fixed::of(SCALE as int), c);
        let p = Vec3 { x: k, y: k, z: Fixed::of(0) };
        if p.length_squared_spec()@ < SCALE {
            p
        } else {
            Vec3::zero_spec()
        }
    }

    /// The vector `(x, y, z)`.
    pub fn new(x: Fixed, y: Fixed, z: Fixed) -> (v: Vec3)
        ensures
            v == (Vec3 { x, y, z }),
    {
        Vec3 { x, y, z }
    }

    /// The ray that starts at this point and runs along `direction`.
    pub fn with_direction(&self, direction: Vec3) -> (r: Ray)
        ensures
            r == (Ray { origin: *self, direction }),
    {
        Ray { origin: *self, direction }
    }

    /// The vector with every component negated.
    pub fn inverse(&self) -> (v: Vec3)
        ensures
            v == self.negation(),
    {
        Vec3 { x: self.x.neg(), y: self.y.neg(), z: self.z.neg() }
    }

    /// Whether every component is within `NEAR_ZERO` raw units of zero, on
    /// either side of it.
    pub fn near_zero(&self) -> (b: bool)
        ensures
            b == self.near_zero_spec(),
    {
        let bound: Fixed = Fixed::from_raw(NEAR_ZERO);
        let low: Fixed = bound.neg();
        low.lt(self.x) && self.x.lt(bound) && low.lt(self.y) && self.y.lt(bound) && low.lt(self.z)
            && self.z.lt(bound)
    }

    /// The dot product.
    pub fn dot(&self, r: &Vec3) -> (d: Fixed)
        ensures
            d == self.dot_spec(*r),
    {
        self.x * r.x + self.y * r.y + self.z * r.z
    }

    /// The cross product.
    pub fn cross(&self, r: &Vec3) -> (v: Vec3)
        ensures
            v == self.cross_spec(*r),
    {
        Vec3 {
            x: self.y * r.z - self.z * r.y,
            y: self.z * r.x - self.x * r.z,
            z: self.x * r.y - self.y * r.x,
        }
    }

    /// Whether no component is more than `bound` raw units from zero.
    pub fn is_within(&self, bound: i64) -> (b: bool)
        requires
            0 <= bound,
        ensures
            b == self.within(bound as int),
    {
        let x: i64 = self.x.to_raw();
        let y: i64 = self.y.to_raw();
        let z: i64 = self.z.to_raw();
        -bound <= x && x <= bound && -bound <= y && y <= bound && -bound <= z && z <= bound
    }

    /// The squared length exactly, in squares of raw units.
    fn norm_squared_wide(&self) -> (n: u128)
        ensures
            n == self.norm_squared(),
    {
        let mx: u128 = self.x.magnitude_of();
        let my: u128 = self.y.magnitude_of();
        let mz: u128 = self.z.magnitude_of();
        proof {
            reveal(Vec3::norm_squared);
            lemma_square_of_magnitude(self.x@);
            lemma_square_of_magnitude(self.y@);
            lemma_square_of_magnitude(self.z@);
        }
        mx * mx + my * my + mz * mz
    }

    /// The measure of the vector: the divisor and the factor.
    pub(crate) fn measure_wide(&self) -> (m: (u128, u128))
        ensures
            m.0 == self.measure().0,
            m.1 == self.measure().1,
            1 <= m.1 <= FINE_SCALE,
            (m.0 > 0) == (self.length_spec()@ > 0),
    {
        let n: u128 = self.norm_squared_wide();
        proof {
            lemma_measure(*self);
        }
        if n < SHORT {
            proof {
                assert(n * FINE_SCALE < 300_000_000_000_000_000_000_000_000_000_000_000_000)
                    by (nonlinear_arith)
                    requires
                        0 <= n < SHORT,
                ;
                assert(n * FINE * FINE == n * FINE_SCALE) by (nonlinear_arith);
            }
            (isqrt_wide(n * FINE_SCALE), FINE_SCALE)
        } else {
            (isqrt_wide(n), SCALE as u128)
        }
    }

    /// The squared length.
    pub fn length_squared(&self) -> (d: Fixed)
        ensures
            d == self.length_squared_spec(),
            d@ >= 0,
    {
        let n: u128 = self.norm_squared_wide();
        Fixed::from_magnitude(n / (SCALE as u128), false)
    }

    /// The length.
    pub fn length(&self) -> (d: Fixed)
        ensures
            d == self.length_spec(),
            d@ >= 0,
    {
        let n: u128 = self.norm_squared_wide();
        Fixed::from_magnitude(isqrt_wide(n), false)
    }

    /// This vector divided by its length. The vector must not be the zero
    /// vector. The result has unit length, but for the rounding of its
    /// components.
    pub fn unit_vector(&self) -> (v: Vec3)
        requires
            self.length_spec()@ > 0,
        ensures
            v == self.unit_spec(),
            v.within(SCALE as int),
            SCALE * SCALE - 6 * SCALE <= v.norm_squared() <= SCALE * SCALE + 2 * SCALE + 1,
    {
        proof {
            lemma_unit_vector_has_unit_length(*self);
        }
        let (divisor, factor) = self.measure_wide();
        Vec3 {
            x: self.x.scaled_over(factor, divisor),
            y: self.y.scaled_over(factor, divisor),
            z: self.z.scaled_over(factor, divisor),
        }
    }
}

impl Vec3 {
    /// Draws each component uniformly from `[0, 1)`.
    pub fn random(sampler: &mut Sampler) -> (v: Vec3)
        ensures
            0 <= v.x@ < SCALE,
            0 <= v.y@ < SCALE,
            0 <= v.z@ < SCALE,
            final(sampler).pinned() == old(sampler).pinned(),
            old(sampler).pinned() matches Some(c) ==> v == Vec3::splat(c),
    {
        let x: Fixed = sampler.next_unit();
        let y: Fixed = sampler.next_unit();
        let z: Fixed = sampler.next_unit();
        Vec3 { x, y, z }
    }

    /// Draws each component uniformly from `[min, max)`.
    pub fn random_ranged(min: Fixed, max: Fixed, sampler: &mut Sampler) -> (v: Vec3)
        ensures
            is_ranged(min, max, v.x),
            is_ranged(min, max, v.y),
            is_ranged(min, max, v.z),
            final(sampler).pinned() == old(sampler).pinned(),
            old(sampler).pinned() matches Some(c) ==> v == Vec3::splat(ranged_spec(min, max, c)),
    {
        let x: Fixed = random_ranged(min, max, sampler);
        let y: Fixed = random_ranged(min, max, sampler);
        let z: Fixed = random_ranged(min, max, sampler);
        Vec3 { x, y, z }
    }

    /// Draws a point inside the unit sphere by rejection: points of the cube
    /// `[-1, 1)^3` are drawn until one has squared length below one. After
    /// `SAMPLE_ATTEMPTS` rejected draws the centre is returned.
    pub fn random_in_unit_sphere(sampler: &mut Sampler) -> (v: Vec3)
        ensures
            v.length_squared_spec()@ < SCALE,
            v == Vec3::zero_spec() || Vec3::is_in_cube(v),
            final(sampler).pinned() == old(sampler).pinned(),
            old(sampler).pinned() matches Some(c) ==> v == Vec3::pinned_in_unit_sphere(c),
    {
        let ghost pin = sampler.pinned();
        let low: Fixed = Fixed::from_int(-1);
        let high: Fixed = Fixed::one();
        let mut attempt: u32 = 0;
        while attempt < SAMPLE_ATTEMPTS
            invariant
                sampler.pinned() == pin,
                pin == old(sampler).pinned(),
                low == Fixed::of(-SCALE),
                high == Fixed::of(SCALE as int),
                pin matches Some(c) ==> attempt > 0 ==> !(Vec3::splat(
                    ranged_spec(low, high, c),
                ).length_squared_spec()@ < SCALE),
            decreases SAMPLE_ATTEMPTS - attempt,
        {
            let p: Vec3 = Vec3::random_ranged(low, high, sampler);
            if p.length_squared().lt(high) {
                return p;
            }
            attempt = attempt + 1;
        }
        proof {
            lemma_zero_length();
        }
        Vec3::default()
    }

    /// Draws a direction: a point of the unit sphere's inside, divided by
    /// its length. Where that length rounds to zero, and where no point was
    /// accepted, the zero vector is returned.
    pub fn random_unit_vector(sampler: &mut Sampler) -> (v: Vec3)
        ensures
            Vec3::is_drawn_unit(v),
            final(sampler).pinned() == old(sampler).pinned(),
            old(sampler).pinned() matches Some(c) ==> v == Vec3::pinned_in_unit_sphere(
                c,
            ).unit_or_zero(),
    {
        let p: Vec3 = Vec3::random_in_unit_sphere(sampler);
        let v: Vec3 = p.normalized_or_zero();
        assert(p.length_squared_spec()@ < SCALE && v == p.unit_or_zero());
        v
    }

    /// This vector divided by its length, or the zero vector where the
    /// length rounds to zero.
    pub fn normalized_or_zero(&self) -> (v: Vec3)
        ensures
            v == self.unit_or_zero(),
            v.within(SCALE as int),
            self.length_spec()@ > 0 ==> SCALE * SCALE - 6 * SCALE <= v.norm_squared() <= SCALE
                * SCALE + 2 * SCALE + 1,
    {
        if self.length().gt(Fixed::zero()) {
            self.unit_vector()
        } else {
            Vec3::default()
        }
    }

    /// Draws a direction on the side of `normal`.
    pub fn random_on_hemisphere(normal: &Vec3, sampler: &mut Sampler) -> (v: Vec3)
        ensures
            v.dot_spec(*normal)@ >= 0,
            exists|unit: Vec3| Vec3::is_drawn_unit(unit) && v == #[trigger] unit.toward(*normal),
            final(sampler).pinned() == old(sampler).pinned(),
            old(sampler).pinned() matches Some(c) ==> v == Vec3::pinned_in_unit_sphere(
                c,
            ).unit_or_zero().toward(*normal),
    {
        let on_unit_sphere: Vec3 = Vec3::random_unit_vector(sampler);
        let v: Vec3 = if on_unit_sphere.dot(normal).gt(Fixed::zero()) {
            on_unit_sphere
        } else {
            on_unit_sphere.inverse()
        };
        proof {
            lemma_dot_negation(*normal, on_unit_sphere);
            lemma_dot_symmetric(*normal, on_unit_sphere);
            lemma_dot_symmetric(*normal, on_unit_sphere.negation());
            assert(Vec3::is_drawn_unit(on_unit_sphere) && v == on_unit_sphere.toward(*normal));
        }
        v
    }

    /// Draws a point inside the unit disk of the plane `z = 0` by
    /// rejection, as `random_in_unit_sphere` does in space.
    pub fn random_in_unit_disk(sampler: &mut Sampler) -> (v: Vec3)
        ensures
            Vec3::is_in_unit_disk(v),
            v == Vec3::zero_spec() || Vec3::is_in_square(v),
            final(sampler).pinned() == old(sampler).pinned(),
            old(sampler).pinned() matches Some(c) ==> v == Vec3::pinned_in_unit_disk(c),
    {
        let ghost pin = sampler.pinned();
        let low: Fixed = Fixed::from_int(-1);
        let high: Fixed = Fixed::one();
        let mut attempt: u32 = 0;
        while attempt < SAMPLE_ATTEMPTS
            invariant
                sampler.pinned() == pin,
                pin == old(sampler).pinned(),
                low == Fixed::of(-SCALE),
                high == Fixed::of(SCALE as int),
                pin matches Some(c) ==> attempt > 0 ==> !((Vec3 {
                    x: ranged_spec(low, high, c),
                    y: ranged_spec(low, high, c),
                    z: Fixed::of(0),
                }).length_squared_spec()@ < SCALE),
            decreases SAMPLE_ATTEMPTS - attempt,
        {
            let x: Fixed = random_ranged(low, high, sampler);
            let y: Fixed = random_ranged(low, high, sampler);
            let p: Vec3 = Vec3::new(x, y, Fixed::zero());
            if p.length_squared().lt(high) {
                return p;
            }
            attempt = attempt + 1;
        }
        proof {
            lemma_zero_length();
        }
        Vec3::default()
    }
}

impl core::ops::Add<Vec3> for Vec3 {
    type Output = Vec3;

    /// The component-wise sum.
    fn add(self, rhs: Vec3) -> (v: Vec3) {
        Vec3 { x: self.x + rhs.x, y: self.y + rhs.y, z: self.z + rhs.z }
    }
}

impl vstd::std_specs::ops::AddSpecImpl<Vec3> for Vec3 {
    open spec fn obeys_add_spec() -> bool {
        true
    }

    open spec fn add_req(self, rhs: Vec3) -> bool {
        true
    }

    open spec fn add_spec(self, rhs: Vec3) -> Vec3 {
        self.sum(rhs)
    }
}

impl core::ops::Sub<Vec3> for Vec3 {
    type Output = Vec3;

    /// The component-wise difference.
    fn sub(self, rhs: Vec3) -> (v: Vec3) {
        Vec3 { x: self.x - rhs.x, y: self.y - rhs.y, z: self.z - rhs.z }
    }
}

impl vstd::std_specs::ops::SubSpecImpl<Vec3> for Vec3 {
    open spec fn obeys_sub_spec() -> bool {
        true
    }

    open spec fn sub_req(self, rhs: Vec3) -> bool {
        true
    }

    open spec fn sub_spec(self, rhs: Vec3) -> Vec3 {
        self.difference(rhs)
    }
}

impl core::ops::Mul<Vec3> for Vec3 {
    type Output = Vec3;

    /// The component-wise product.
    fn mul(self, rhs: Vec3) -> (v: Vec3) {
        Vec3 { x: self.x * rhs.x, y: self.y * rhs.y, z: self.z * rhs.z }
    }
}

impl vstd::std_specs::ops::MulSpecImpl<Vec3> for Vec3 {
    open spec fn obeys_mul_spec() -> bool {
        true
    }

    open spec fn mul_req(self, rhs: Vec3) -> bool {
        true
    }

    open spec fn mul_spec(self, rhs: Vec3) -> Vec3 {
        self.product(rhs)
    }
}

impl core::ops::Mul<Fixed> for Vec3 {
    type Output = Vec3;

    /// Every component times `rhs`.
    fn mul(self, rhs: Fixed) -> (v: Vec3) {
        Vec3 { x: self.x * rhs, y: self.y * rhs, z: self.z * rhs }
    }
}

impl vstd::std_specs::ops::MulSpecImpl<Fixed> for Vec3 {
    open spec fn obeys_mul_spec() -> bool {
        true
    }

    open spec fn mul_req(self, rhs: Fixed) -> bool {
        true
    }

    open spec fn mul_spec(self, rhs: Fixed) -> Vec3 {
        self.scaled(rhs)
    }
}

impl core::ops::Mul<Vec3> for Fixed {
    type Output = Vec3;

    /// Every component of `rhs` times this number.
    fn mul(self, rhs: Vec3) -> (v: Vec3) {
        Vec3 { x: rhs.x * self, y: rhs.y * self, z: rhs.z * self }
    }
}

impl vstd::std_specs::ops::MulSpecImpl<Vec3> for Fixed {
    open spec fn obeys_mul_spec() -> bool {
        true
    }

    open spec fn mul_req(self, rhs: Vec3) -> bool {
        true
    }

    open spec fn mul_spec(self, rhs: Vec3) -> Vec3 {
        rhs.scaled(self)
    }
}

impl core::ops::Div<Fixed> for Vec3 {
    type Output = Vec3;

    /// Every component over `rhs`, which must not be zero.
    fn div(self, rhs: Fixed) -> (v: Vec3) {
        Vec3 { x: self.x / rhs, y: self.y / rhs, z: self.z / rhs }
    }
}

impl vstd::std_specs::ops::DivSpecImpl<Fixed> for Vec3 {
    open spec fn obeys_div_spec() -> bool {
        true
    }

    open spec fn div_req(self, rhs: Fixed) -> bool {
        rhs@ != 0
    }

    open spec fn div_spec(self, rhs: Fixed) -> Vec3 {
        self.quotient(rhs)
    }
}

impl Default for Vec3 {
    fn default() -> (v: Vec3)
        ensures
            v == Vec3::zero_spec(),
    {
        Vec3 { x: Fixed::zero(), y: Fixed::zero(), z: Fixed::zero() }
    }
}

/// The square of a magnitude is the square of the number, and fits the
/// widest machine number three times over.
pub proof fn lemma_square_of_magnitude(a: int)
    requires
        -LIMIT <= a <= LIMIT,
    ensures
        magnitude(a) * magnitude(a) == a * a,
        0 <= a * a <= 0x3FFF_FFFF_FFFF_FFFF_0000_0000_0000_0001,
{
    let m = magnitude(a);
    assert(m * m == a * a && 0 <= m * m && m * m <= LIMIT * LIMIT) by (nonlinear_arith)
        requires
            m == magnitude(a),
            0 <= m <= LIMIT,
    ;
    assert(LIMIT * LIMIT == 0x3FFF_FFFF_FFFF_FFFF_0000_0000_0000_0001) by (nonlinear_arith);
}

/// The squared length of a vector whose components are within a bound is
/// at most three squares of the bound.
pub proof fn lemma_norm_squared_bounded(v: Vec3, bound: int)
    requires
        v.within(bound),
    ensures
        0 <= v.norm_squared() <= 3 * (bound * bound),
{
    reveal(Vec3::norm_squared);
    assert(0 <= v.x@ * v.x@ <= bound * bound) by (nonlinear_arith)
        requires
            -bound <= v.x@ <= bound,
    ;
    assert(0 <= v.y@ * v.y@ <= bound * bound) by (nonlinear_arith)
        requires
            -bound <= v.y@ <= bound,
    ;
    assert(0 <= v.z@ * v.z@ <= bound * bound) by (nonlinear_arith)
        requires
            -bound <= v.z@ <= bound,
    ;
}

/// One component of a unit vector: for `x` within a positive length, the
/// magnitude `q` of `x / length` lies in `[0, 1]`, and `q * length` is the
/// largest multiple of the length that is at most `|x|` in raw units.
pub proof fn lemma_unit_component(x: int, length: int) -> (q: int)
    requires
        length > 0,
        -length <= x <= length,
    ensures
        q == magnitude(quot(x * SCALE, length)),
        quot(x * SCALE, length) * quot(x * SCALE, length) == q * q,
        -SCALE <= quot(x * SCALE, length) <= SCALE,
        0 <= q <= SCALE,
        q * length <= magnitude(x) * SCALE < (q + 1) * length,
{
    let a = magnitude(x) * SCALE;
    assert(0 <= a <= length * SCALE && magnitude(x * SCALE) == a && ((x * SCALE < 0) == (x < 0)))
        by (nonlinear_arith)
        requires
            a == magnitude(x) * SCALE,
            0 <= magnitude(x) <= length,
    ;
    let q = a / length;
    assert(q * length <= a < (q + 1) * length && 0 <= q) by (nonlinear_arith)
        requires
            q == a / length,
            length > 0,
            a >= 0,
    ;
    assert(q <= SCALE) by (nonlinear_arith)
        requires
            q * length <= a,
            a <= length * SCALE,
            length > 0,
    ;
    let t = quot(x * SCALE, length);
    assert(t == q || t == -q);
    assert(t * t == q * q) by (nonlinear_arith)
        requires
            t == q || t == -q,
    ;
    q
}

/// For `a - length < p <= a` with none of them negative, the square of `p`
/// lies between `a^2 - 2 a length` and `a^2`.
pub proof fn lemma_square_between(p: int, a: int, length: int)
    requires
        0 <= p <= a,
        a < p + length,
        length > 0,
    ensures
        a * a - 2 * a * length <= p * p <= a * a,
{
    assert(p * p <= a * a) by (nonlinear_arith)
        requires
            0 <= p <= a,
    ;
    if a >= length {
        assert(p * p >= (a - length) * (a - length)) by (nonlinear_arith)
            requires
                p >= a - length,
                a - length >= 0,
        ;
        assert((a - length) * (a - length) >= a * a - 2 * a * length) by (nonlinear_arith);
    } else {
        assert(a * a - 2 * a * length <= 0) by (nonlinear_arith)
            requires
                0 <= a < length,
        ;
        assert(p * p >= 0) by (nonlinear_arith);
    }
}

/// Three numbers over the root of the sum of their squares: where the root
/// `len` is at least one whole, none of the quotients exceeds one, and the
/// sum `total` of their squares differs from one by less than seven raw
/// units.
pub proof fn lemma_unit_length(x: int, y: int, z: int, len: int) -> (total: int)
    requires
        crate::fixed::is_isqrt(x * x + y * y + z * z, len),
        len >= SCALE,
    ensures
        total == quot(x * SCALE, len) * quot(x * SCALE, len) + quot(y * SCALE, len) * quot(
            y * SCALE,
            len,
        ) + quot(z * SCALE, len) * quot(z * SCALE, len),
        -SCALE <= quot(x * SCALE, len) <= SCALE,
        -SCALE <= quot(y * SCALE, len) <= SCALE,
        -SCALE <= quot(z * SCALE, len) <= SCALE,
        SCALE * SCALE - 6 * SCALE <= total <= SCALE * SCALE + 2 * SCALE + 1,
{
    let s = SCALE as int;
    let n = x * x + y * y + z * z;
    let (mx, my, mz) = (magnitude(x), magnitude(y), magnitude(z));
    assert(mx * mx == x * x && my * my == y * y && mz * mz == z * z) by (nonlinear_arith)
        requires
            mx == magnitude(x),
            my == magnitude(y),
            mz == magnitude(z),
    ;
    assert(mx * mx >= 0 && my * my >= 0 && mz * mz >= 0) by (nonlinear_arith);
    assert(mx <= len) by (nonlinear_arith)
        requires
            mx * mx <= n,
            n < (len + 1) * (len + 1),
            mx >= 0,
            len >= 0,
    ;
    assert(my <= len) by (nonlinear_arith)
        requires
            my * my <= n,
            n < (len + 1) * (len + 1),
            my >= 0,
            len >= 0,
    ;
    assert(mz <= len) by (nonlinear_arith)
        requires
            mz * mz <= n,
            n < (len + 1) * (len + 1),
            mz >= 0,
            len >= 0,
    ;
    let qx = lemma_unit_component(x, len);
    let qy = lemma_unit_component(y, len);
    let qz = lemma_unit_component(z, len);
    let total = qx * qx + qy * qy + qz * qz;
    let (px, py, pz) = (qx * len, qy * len, qz * len);
    let (ax, ay, az) = (mx * s, my * s, mz * s);
    assert((qx + 1) * len == px + len && (qy + 1) * len == py + len && (qz + 1) * len == pz + len)
        by (nonlinear_arith)
        requires
            px == qx * len,
            py == qy * len,
            pz == qz * len,
    ;
    lemma_square_between(px, ax, len);
    lemma_square_between(py, ay, len);
    lemma_square_between(pz, az, len);
    let scaled = px * px + py * py + pz * pz;
    let ll = len * len;
    let (sx, sy, sz) = (qx * qx, qy * qy, qz * qz);
    assert(px * px == ll * sx) by (nonlinear_arith)
        requires
            px == qx * len,
            ll == len * len,
            sx == qx * qx,
    ;
    assert(py * py == ll * sy) by (nonlinear_arith)
        requires
            py == qy * len,
            ll == len * len,
            sy == qy * qy,
    ;
    assert(pz * pz == ll * sz) by (nonlinear_arith)
        requires
            pz == qz * len,
            ll == len * len,
            sz == qz * qz,
    ;
    assert(ll * sx + ll * sy + ll * sz == ll * total) by (nonlinear_arith)
        requires
            total == sx + sy + sz,
    ;
    assert(scaled == len * len * total);
    let squares = ax * ax + ay * ay + az * az;
    let ss = s * s;
    let (nx, ny, nz) = (mx * mx, my * my, mz * mz);
    assert(ax * ax == ss * nx) by (nonlinear_arith)
        requires
            ax == mx * s,
            ss == s * s,
            nx == mx * mx,
    ;
    assert(ay * ay == ss * ny) by (nonlinear_arith)
        requires
            ay == my * s,
            ss == s * s,
            ny == my * my,
    ;
    assert(az * az == ss * nz) by (nonlinear_arith)
        requires
            az == mz * s,
            ss == s * s,
            nz == mz * mz,
    ;
    assert(ss * nx + ss * ny + ss * nz == ss * n) by (nonlinear_arith)
        requires
            n == nx + ny + nz,
    ;
    assert(squares == s * s * n);
    assert(total <= s * s + 2 * s + 1) by (nonlinear_arith)
        requires
            len * len * total <= s * s * n,
            n < (len + 1) * (len + 1),
            len >= s,
            s > 0,
            total >= 0,
    ;
    let sum = ax + ay + az;
    assert(sum <= 3 * (len * s)) by (nonlinear_arith)
        requires
            sum == mx * s + my * s + mz * s,
            mx <= len,
            my <= len,
            mz <= len,
            s > 0,
    ;
    assert(2 * len * sum == 2 * ax * len + 2 * ay * len + 2 * az * len) by (nonlinear_arith)
        requires
            sum == ax + ay + az,
    ;
    assert(len * len * total >= s * s * n - 2 * len * sum);
    assert(total >= s * s - 6 * s) by (nonlinear_arith)
        requires
            len * len * total >= s * s * n - 2 * len * sum,
            sum <= 3 * (len * s),
            n >= len * len,
            len > 0,
            s > 0,
    ;
    total
}

/// The measure of a vector: its divisor is the root of the squared length
/// at the scale of its factor; it is positive for every vector but the
/// zero vector, and at least one whole for each such vector.
pub proof fn lemma_measure(v: Vec3)
    ensures
        v.norm_squared() >= 0,
        (v.measure().0 > 0) == (v.length_spec()@ > 0),
        (v.length_spec()@ > 0) == (v.norm_squared() > 0),
        v.norm_squared() > 0 ==> v.measure().0 >= SCALE,
        v.norm_squared() < SHORT ==> crate::fixed::is_isqrt(
            v.norm_squared() * FINE * FINE,
            v.measure().0,
        ),
        v.norm_squared() >= SHORT ==> crate::fixed::is_isqrt(v.norm_squared(), v.measure().0),
{
    reveal(Vec3::norm_squared);
    lemma_square_of_magnitude(v.x@);
    lemma_square_of_magnitude(v.y@);
    lemma_square_of_magnitude(v.z@);
    let n = v.norm_squared();
    let s = SCALE as int;
    crate::fixed::lemma_isqrt_exists(n);
    let len = isqrt(n);
    assert((len > 0) == (n > 0)) by (nonlinear_arith)
        requires
            len >= 0,
            len * len <= n,
            n < (len + 1) * (len + 1),
    ;
    if n < SHORT {
        let wide = n * FINE * FINE;
        assert(wide >= 0 && (n > 0 ==> wide >= s * s) && (n == 0 ==> wide == 0)) by (nonlinear_arith)
            requires
                wide == n * FINE * FINE,
                FINE == s,
                n >= 0,
                s > 0,
        ;
        crate::fixed::lemma_isqrt_exists(wide);
        let fine = isqrt(wide);
        assert((fine > 0) == (n > 0) && (n > 0 ==> fine >= s)) by (nonlinear_arith)
            requires
                fine >= 0,
                fine * fine <= wide,
                wide < (fine + 1) * (fine + 1),
                n > 0 ==> wide >= s * s,
                n == 0 ==> wide == 0,
                n >= 0,
                s > 0,
        ;
    } else {
        assert(len >= s) by (nonlinear_arith)
            requires
                n >= 300_000_000_000_000_000_000,
                n < (len + 1) * (len + 1),
                len >= 0,
                s == 1_000_000_000,
        ;
    }
}

/// No component of a unit vector exceeds one.
pub proof fn lemma_unit_or_zero_within(v: Vec3)
    ensures
        v.unit_or_zero().within(SCALE as int),
{
    lemma_measure(v);
    if v.length_spec()@ > 0 {
        lemma_unit_vector_has_unit_length(v);
    }
}

/// A unit vector has unit length: for any vector but the zero vector, no
/// component of its unit vector exceeds one, and the squared length of the
/// unit vector differs from one by less than seven raw units.
pub proof fn lemma_unit_vector_has_unit_length(v: Vec3)
    requires
        v.length_spec()@ > 0,
    ensures
        v.unit_spec().within(SCALE as int),
        SCALE * SCALE - 6 * SCALE <= v.unit_spec().norm_squared() <= SCALE * SCALE + 2 * SCALE + 1,
{
    lemma_measure(v);
    reveal(Vec3::norm_squared);
    let s = SCALE as int;
    let n = v.norm_squared();
    let (x, y, z) = (v.x@, v.y@, v.z@);
    let (divisor, factor) = v.measure();
    if n < SHORT {
        let (fx, fy, fz) = (x * s, y * s, z * s);
        assert(fx * fx + fy * fy + fz * fz == n * FINE * FINE && fx * s == x * factor && fy * s == y
            * factor && fz * s == z * factor) by (nonlinear_arith)
            requires
                fx == x * s,
                fy == y * s,
                fz == z * s,
                n == x * x + y * y + z * z,
                FINE == s,
                factor == s * s,
        ;
        let total = lemma_unit_length(fx, fy, fz, divisor);
        assert(v.unit_spec().norm_squared() == total);
    } else {
        let total = lemma_unit_length(x, y, z, divisor);
        assert(v.unit_spec().norm_squared() == total);
    }
}

/// For `min <= max`, what a fraction in `[0, 1)` picks lies in `[min, max]`,
/// and below `max` where the range is not empty.
pub proof fn lemma_ranged_within(min: Fixed, max: Fixed, unit: Fixed)
    requires
        min@ <= max@,
        0 <= unit@ < SCALE,
    ensures
        min@ <= ranged_spec(min, max, unit)@ <= max@,
        min@ < max@ ==> ranged_spec(min, max, unit)@ < max@,
{
    let width = max.difference(min);
    crate::fixed::lemma_product_with_fraction(width, unit);
    if min@ < max@ {
        crate::fixed::lemma_product_with_proper_fraction(width, unit);
    }
}

/// No component of a vector of squared length below one reaches one.
pub proof fn lemma_short_vector_within(p: Vec3)
    requires
        p.length_squared_spec()@ < SCALE,
    ensures
        p.within(SCALE as int),
{
    reveal(Vec3::norm_squared);
    lemma_square_of_magnitude(p.x@);
    lemma_square_of_magnitude(p.y@);
    lemma_square_of_magnitude(p.z@);
    let n = p.norm_squared();
    let s = SCALE as int;
    assert(n < s * s) by (nonlinear_arith)
        requires
            n >= 0,
            n / s < s,
            s > 0,
    ;
    let (mx, my, mz) = (magnitude(p.x@), magnitude(p.y@), magnitude(p.z@));
    assert(mx < s && my < s && mz < s) by (nonlinear_arith)
        requires
            mx * mx + my * my + mz * mz < s * s,
            mx >= 0,
            my >= 0,
            mz >= 0,
            s > 0,
    ;
}

/// The zero vector has length zero.
pub proof fn lemma_zero_length()
    ensures
        Vec3::zero_spec().norm_squared() == 0,
        Vec3::zero_spec().length_squared_spec()@ == 0,
        Vec3::zero_spec().length_spec()@ == 0,
{
    reveal(Vec3::norm_squared);
    let z = Fixed::of(0);
    assert(z@ == 0);
    assert(z@ * z@ == 0);
    assert(crate::fixed::is_isqrt(0, 0));
    lemma_isqrt_unique(0, 0);
}

/// The zero vector can be drawn as a direction.
pub proof fn lemma_zero_is_drawn_unit()
    ensures
        Vec3::is_drawn_unit(Vec3::zero_spec()),
        Vec3::is_in_unit_disk(Vec3::zero_spec()),
{
    lemma_zero_length();
    let z = Vec3::zero_spec();
    assert(z.length_squared_spec()@ < SCALE && z == z.unit_or_zero());
}

/// The dot product does not depend on the order of its arguments.
pub proof fn lemma_dot_symmetric(a: Vec3, b: Vec3)
    ensures
        a.dot_spec(b) == b.dot_spec(a),
{
    reveal(Fixed::product);
    assert(a.x@ * b.x@ == b.x@ * a.x@) by (nonlinear_arith);
    assert(a.y@ * b.y@ == b.y@ * a.y@) by (nonlinear_arith);
    assert(a.z@ * b.z@ == b.z@ * a.z@) by (nonlinear_arith);
}

/// The dot product with a negated vector is the negated dot product.
pub proof fn lemma_dot_negation(a: Vec3, b: Vec3)
    ensures
        a.dot_spec(b.negation()) == a.dot_spec(b).negation(),
        a.dot_spec(b.negation())@ == -a.dot_spec(b)@,
{
    crate::fixed::lemma_product_negation(a.x, b.x);
    crate::fixed::lemma_product_negation(a.y, b.y);
    crate::fixed::lemma_product_negation(a.z, b.z);
}

} // verus!
