//! Spheres, and where rays meet them.

use crate::fixed::{lemma_scaled_over_monotonic, lemma_square_nonnegative, quot, Fixed, SCALE};
use crate::hittable::{lemma_faced_opposes_ray, narrowed, Hittable, Intersection};
use crate::interval::Interval;
use crate::material::Material;
use crate::ray::{Ray, ORIGIN_REACH};
use crate::vec3::{lemma_measure, lemma_norm_squared_bounded, lemma_unit_or_zero_within, Vec3};
use vstd::prelude::*;

verus! {

/// Farthest, in raw units, that a component of a sphere's centre may lie
/// from zero, and largest magnitude of its radius: 10,000 units.
pub const SPHERE_REACH: i64 = 10_000_000_000_000;

/// A sphere. A well-formed one has a radius other than zero, lies within
/// `SPHERE_REACH`, and has a well-formed material.
#[derive(Clone, Copy, Debug, PartialEq, Eq, Structural)]
pub struct Sphere {
    pub center: Vec3,
    pub radius: Fixed,
    pub material: Material,
}

impl Sphere {
    /// Whether a sphere of this centre and radius lies within reach.
    pub open spec fn fits(center: Vec3, radius: Fixed) -> bool {
        radius@ != 0 && -SPHERE_REACH <= radius@ <= SPHERE_REACH && center.within(
            SPHERE_REACH as int,
        )
    }

    /// Whether a sphere of this centre and radius lies within reach.
    pub fn is_fit(center: &Vec3, radius: Fixed) -> (b: bool)
        ensures
            b == Sphere::fits(*center, radius),
    {
        let r: i64 = radius.to_raw();
        r != 0 && -SPHERE_REACH <= r && r <= SPHERE_REACH && center.is_within(SPHERE_REACH)
    }

    /// A sphere. It must lie within reach, with a radius other than zero.
    pub fn new(center: Vec3, radius: Fixed, material: Material) -> (s: Sphere)
        requires
            Sphere::fits(center, radius),
            material.wf(),
        ensures
            s == (Sphere { center, radius, material }),
            s.wf(),
    {
        Sphere { center, radius, material }
    }

    /// The vector from the centre to the origin of the ray.
    pub open spec fn offset(self, ray: Ray) -> Vec3 {
        ray.origin.difference(self.center)
    }

    /// Half the linear coefficient of the quadratic
    /// `s^2 + 2 half_b s + c = 0`, whose roots are the distances along the
    /// ray at which it meets the sphere: the offset times the direction at
    /// unit length. It is positive where the ray leaves the centre behind.
    pub open spec fn half_b_spec(self, ray: Ray) -> Fixed {
        self.offset(ray).dot_spec(ray.heading())
    }

    /// The constant coefficient: positive where the origin of the ray lies
    /// outside the sphere.
    pub open spec fn c_spec(self, ray: Ray) -> Fixed {
        self.offset(ray).length_squared_spec().difference(self.radius.product(self.radius))
    }

    /// The discriminant of the quadratic, over four: negative where the
    /// line of the ray passes the sphere by.
    pub open spec fn discriminant_spec(self, ray: Ray) -> Fixed {
        self.half_b_spec(ray).product(self.half_b_spec(ray)).difference(self.c_spec(ray))
    }

    /// The smaller root of the quadratic: the distance to the nearer
    /// meeting point.
    pub open spec fn near_distance(self, ray: Ray) -> Fixed {
        self.half_b_spec(ray).negation().difference(self.discriminant_spec(ray).root())
    }

    /// The larger root of the quadratic: the distance to the farther
    /// meeting point.
    pub open spec fn far_distance(self, ray: Ray) -> Fixed {
        self.half_b_spec(ray).negation().sum(self.discriminant_spec(ray).root())
    }

    /// The parameter at which the ray has gone a distance: the distance
    /// over the length of the direction, by the measure of the direction.
    pub open spec fn parameter_at(ray: Ray, distance: Fixed) -> Fixed
        recommends
            ray.direction.length_spec()@ > 0,
    {
        let (divisor, factor) = ray.direction.measure();
        Fixed::of(quot(distance@ * factor, divisor))
    }

    /// The parameter of the nearer meeting point.
    pub open spec fn near_root(self, ray: Ray) -> Fixed {
        Sphere::parameter_at(ray, self.near_distance(ray))
    }

    /// The parameter of the farther meeting point.
    pub open spec fn far_root(self, ray: Ray) -> Fixed {
        Sphere::parameter_at(ray, self.far_distance(ray))
    }

    /// Whether the ray meets the sphere at all: it has a direction, and the
    /// quadratic has roots.
    pub open spec fn meets(self, ray: Ray) -> bool {
        self.discriminant_spec(ray)@ >= 0 && ray.direction.length_spec()@ > 0
    }

    /// The record of the intersection at parameter `root`.
    pub open spec fn record(self, ray: Ray, root: Fixed) -> Intersection {
        let point = ray.at_spec(root);
        let outward_normal = point.difference(self.center).quotient(self.radius);
        (Intersection {
            point,
            normal: outward_normal,
            material: self.material,
            t: root,
            front_face: false,
        }).faced(ray, outward_normal)
    }
}

impl Hittable for Sphere {
    open spec fn wf(&self) -> bool {
        Sphere::fits(self.center, self.radius) && self.material.wf()
    }

    /// The intersection at the smaller root if it lies strictly inside the
    /// range, else at the larger root if that one does.
    open spec fn hit_spec(&self, ray: Ray, ray_t: Interval) -> Option<Intersection> {
        if !self.meets(ray) {
            None
        } else if ray_t.surrounds_spec(self.near_root(ray)) {
            Some(self.record(ray, self.near_root(ray)))
        } else if ray_t.surrounds_spec(self.far_root(ray)) {
            Some(self.record(ray, self.far_root(ray)))
        } else {
            None
        }
    }

    fn hit(&self, ray: &Ray, ray_t: Interval, record: &mut Intersection) -> (hit: bool) {
        let (divisor, factor) = ray.direction.measure_wide();
        if divisor == 0 {
            return false;
        }
        let oc: Vec3 = ray.origin - self.center;
        let half_b: Fixed = oc.dot(&ray.direction.unit_vector());
        let c: Fixed = oc.length_squared() - self.radius * self.radius;

        let discriminant: Fixed = half_b * half_b - c;
        if discriminant.lt(Fixed::zero()) {
            return false;
        }
        let sqrtd: Fixed = discriminant.sqrt();

        let mut root: Fixed = (half_b.neg() - sqrtd).scaled_over(factor, divisor);
        if !ray_t.surrounds(root) {
            root = (half_b.neg() + sqrtd).scaled_over(factor, divisor);
            if !ray_t.surrounds(root) {
                return false;
            }
        }
        record.t = root;
        record.point = ray.at(record.t);
        record.normal = (record.point - self.center) / self.radius;
        record.material = self.material;
        record.front_face = false;

        let outward_normal: Vec3 = (record.point - self.center) / self.radius;
        record.set_face_normal(ray, &outward_normal);

        true
    }

    proof fn lemma_hit_inside(&self, ray: Ray, ray_t: Interval) {
        let near = self.near_root(ray);
        let far = self.far_root(ray);
        lemma_faced_opposes_ray(
            Intersection {
                point: ray.at_spec(near),
                normal: ray.at_spec(near).difference(self.center).quotient(self.radius),
                material: self.material,
                t: near,
                front_face: false,
            },
            ray,
            ray.at_spec(near).difference(self.center).quotient(self.radius),
        );
        lemma_faced_opposes_ray(
            Intersection {
                point: ray.at_spec(far),
                normal: ray.at_spec(far).difference(self.center).quotient(self.radius),
                material: self.material,
                t: far,
                front_face: false,
            },
            ray,
            ray.at_spec(far).difference(self.center).quotient(self.radius),
        );
    }

    proof fn lemma_hit_narrowed(&self, ray: Ray, ray_t: Interval, closest: Fixed) {
        if self.meets(ray) {
            lemma_roots_ordered(*self, ray);
        }
    }
}

/// Within reach nothing saturates: for a well-formed sphere and a ray
/// within reach, every quantity of the quadratic stays below the limit of
/// the range, so each is the exact value rounded and no more.
pub proof fn lemma_quadratic_in_range(sphere: Sphere, ray: Ray)
    requires
        sphere.wf(),
        ray.in_reach(),
    ensures
        sphere.offset(ray).within(ORIGIN_REACH + SPHERE_REACH),
        ray.heading().within(SCALE as int),
        -90_000_000_000_000 <= sphere.half_b_spec(ray)@ <= 90_000_000_000_000,
        -100_000_000_000_000_000 <= sphere.c_spec(ray)@ <= 2_700_000_000_000_000_000,
        0 <= sphere.half_b_spec(ray).product(sphere.half_b_spec(ray))@ <= 8_100_000_000_000_000_000,
        -2_700_000_000_000_000_000 <= sphere.discriminant_spec(ray)@ <= 8_200_000_000_000_000_000,
{
    let oc = sphere.offset(ray);
    let heading = ray.heading();
    let half_b = sphere.half_b_spec(ray);
    lemma_unit_or_zero_within(ray.direction);
    lemma_norm_squared_bounded(oc, ORIGIN_REACH + SPHERE_REACH);
    assert(oc.norm_squared() / (SCALE as int) <= 2_700_000_000_000_000_000);
    crate::fixed::lemma_product_bounded(oc.x, heading.x, 30_000_000_000_000, 1_000_000_000);
    crate::fixed::lemma_product_bounded(oc.y, heading.y, 30_000_000_000_000, 1_000_000_000);
    crate::fixed::lemma_product_bounded(oc.z, heading.z, 30_000_000_000_000, 1_000_000_000);
    crate::fixed::lemma_product_bounded(
        sphere.radius,
        sphere.radius,
        10_000_000_000_000,
        10_000_000_000_000,
    );
    lemma_square_nonnegative(sphere.radius);
    crate::fixed::lemma_product_bounded(half_b, half_b, 90_000_000_000_000, 90_000_000_000_000);
    lemma_square_nonnegative(half_b);
}

/// The nearer meeting point is not beyond the farther one.
pub proof fn lemma_roots_ordered(sphere: Sphere, ray: Ray)
    requires
        sphere.meets(ray),
    ensures
        sphere.near_root(ray)@ <= sphere.far_root(ray)@,
{
    crate::fixed::lemma_root_nonnegative(sphere.discriminant_spec(ray));
    lemma_measure(ray.direction);
    let (divisor, factor) = ray.direction.measure();
    lemma_scaled_over_monotonic(
        sphere.near_distance(ray),
        sphere.far_distance(ray),
        factor,
        divisor,
    );
}

/// A ray that starts outside a sphere and does not approach its centre
/// meets the sphere nowhere ahead: no range of non-negative parameters
/// holds an intersection.
pub proof fn lemma_pointing_away_misses(sphere: Sphere, ray: Ray, ray_t: Interval)
    requires
        sphere.c_spec(ray)@ > 0,
        sphere.half_b_spec(ray)@ >= 0,
        ray_t.min@ >= 0,
    ensures
        sphere.hit_spec(ray, ray_t) is None,
{
    if sphere.meets(ray) {
        let half_b = sphere.half_b_spec(ray);
        let disc = sphere.discriminant_spec(ray);
        lemma_square_nonnegative(half_b);
        crate::fixed::lemma_root_of_square(half_b, disc);
        crate::fixed::lemma_root_nonnegative(disc);
        let near = sphere.near_distance(ray);
        let far = sphere.far_distance(ray);
        assert(near@ <= far@ <= 0);
        lemma_measure(ray.direction);
        let (divisor, factor) = ray.direction.measure();
        lemma_scaled_over_monotonic(near, far, factor, divisor);
        lemma_scaled_over_monotonic(near, near, factor, divisor);
    }
}

} // verus!
