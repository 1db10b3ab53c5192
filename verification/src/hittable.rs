//! What a ray can hit, and the record of a hit.

use crate::fixed::Fixed;
use crate::interval::Interval;
use crate::material::Material;
use crate::ray::Ray;
use crate::vec3::{lemma_dot_negation, Vec3};
use vstd::prelude::*;

verus! {

/// Where a ray met a surface.
#[derive(Clone, Copy, Debug, PartialEq, Eq, Structural)]
pub struct Intersection {
    pub point: Vec3,
    /// The surface normal at `point`, turned against the ray.
    pub normal: Vec3,
    pub material: Material,
    /// The ray parameter of `point`.
    pub t: Fixed,
    /// Whether the ray came from outside the surface.
    pub front_face: bool,
}

impl Intersection {
    /// The record before any hit: at the origin, at parameter zero, with
    /// the default material.
    pub open spec fn default_spec() -> Intersection {
        Intersection {
            point: Vec3::zero_spec(),
            normal: Vec3::zero_spec(),
            material: Material::default_spec(),
            t: Fixed::of(0),
            front_face: false,
        }
    }

    /// This record with its normal set from the outward normal of the
    /// surface: kept where the ray runs against it, negated otherwise.
    pub open spec fn faced(self, ray: Ray, outward_normal: Vec3) -> Intersection {
        let front_face = ray.direction.dot_spec(outward_normal)@ < 0;
        Intersection {
            front_face,
            normal: if front_face {
                outward_normal
            } else {
                outward_normal.negation()
            },
            ..self
        }
    }

    /// Sets `front_face` and `normal` from the outward normal of the
    /// surface. Afterwards the normal never points along the ray.
    pub fn set_face_normal(&mut self, ray: &Ray, outward_normal: &Vec3)
        ensures
            *final(self) == old(self).faced(*ray, *outward_normal),
            ray.direction.dot_spec(final(self).normal)@ <= 0,
    {
        self.front_face = ray.direction.dot(outward_normal).lt(Fixed::zero());
        self.normal = if self.front_face {
            *outward_normal
        } else {
            outward_normal.inverse()
        };
        proof {
            lemma_dot_negation(ray.direction, *outward_normal);
        }
    }
}

impl Default for Intersection {
    fn default() -> (r: Intersection)
        ensures
            r == Intersection::default_spec(),
    {
        Intersection {
            point: Vec3::default(),
            normal: Vec3::default(),
            material: Material::default(),
            t: Fixed::zero(),
            front_face: false,
        }
    }
}

/// A normal set by `faced` never points along the ray.
pub proof fn lemma_faced_opposes_ray(record: Intersection, ray: Ray, outward_normal: Vec3)
    ensures
        ray.direction.dot_spec(record.faced(ray, outward_normal).normal)@ <= 0,
{
    lemma_dot_negation(ray.direction, outward_normal);
}

/// The protocol's answer for a narrowed range: the answer for the whole
/// range where its parameter is below the new upper bound, none otherwise.
pub open spec fn narrowed(whole: Option<Intersection>, closest: Fixed) -> Option<Intersection> {
    match whole {
        Some(i) => if i.t@ < closest@ {
            Some(i)
        } else {
            None
        },
        None => None,
    }
}

/// A surface that rays can hit.
pub trait Hittable {
    /// Whether the surface is well formed.
    spec fn wf(&self) -> bool;

    /// The nearest intersection of `ray` with the surface whose parameter
    /// lies strictly inside `ray_t`, if there is one.
    spec fn hit_spec(&self, ray: Ray, ray_t: Interval) -> Option<Intersection>;

    /// Looks for the nearest intersection strictly inside `ray_t`, of a ray
    /// within the reach of the test. Returns
    /// whether there is one; if so it is written to `intersection`, which is
    /// left alone otherwise.
    fn hit(&self, ray: &Ray, ray_t: Interval, intersection: &mut Intersection) -> (hit: bool)
        requires
            self.wf(),
            ray.in_reach(),
        ensures
            hit == self.hit_spec(*ray, ray_t).is_some(),
            hit ==> *final(intersection) == self.hit_spec(*ray, ray_t).unwrap(),
            !hit ==> *final(intersection) == *old(intersection),
    ;

    /// An intersection lies strictly inside the range asked for, its
    /// normal does not point along the ray, and its material is well formed.
    proof fn lemma_hit_inside(&self, ray: Ray, ray_t: Interval)
        requires
            self.wf(),
        ensures
            self.hit_spec(ray, ray_t) matches Some(i) ==> ray_t.surrounds_spec(i.t)
                && ray.direction.dot_spec(i.normal)@ <= 0 && i.material.wf(),
    ;

    /// Lowering the upper bound of the range keeps the intersection where
    /// it is still inside, and loses it otherwise.
    proof fn lemma_hit_narrowed(&self, ray: Ray, ray_t: Interval, closest: Fixed)
        requires
            self.wf(),
            closest@ <= ray_t.max@,
        ensures
            self.hit_spec(ray, Interval { min: ray_t.min, max: closest }) == narrowed(
                self.hit_spec(ray, ray_t),
                closest,
            ),
    ;
}

/// A boxed surface is hit as the surface in the box is.
impl<H: Hittable> Hittable for Box<H> {
    open spec fn wf(&self) -> bool {
        (**self).wf()
    }

    open spec fn hit_spec(&self, ray: Ray, ray_t: Interval) -> Option<Intersection> {
        (**self).hit_spec(ray, ray_t)
    }

    fn hit(&self, ray: &Ray, ray_t: Interval, intersection: &mut Intersection) -> (hit: bool) {
        (**self).hit(ray, ray_t, intersection)
    }

    proof fn lemma_hit_inside(&self, ray: Ray, ray_t: Interval) {
        (**self).lemma_hit_inside(ray, ray_t);
    }

    proof fn lemma_hit_narrowed(&self, ray: Ray, ray_t: Interval, closest: Fixed) {
        (**self).lemma_hit_narrowed(ray, ray_t, closest);
    }
}

} // verus!
