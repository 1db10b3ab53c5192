//! How surfaces answer light: the materials and their scattering.

use crate::fixed::{Fixed, SCALE};
use crate::hittable::Intersection;
use crate::ray::Ray;
use crate::sampler::Sampler;
use crate::vec3::Vec3;
use vstd::prelude::*;

verus! {

/// What a surface is made of.
#[derive(Clone, Copy, Debug, PartialEq, Eq, Structural)]
pub enum Material {
    /// A diffuse surface.
    Lambertian { albedo: Vec3 },
    /// A mirror, blurred by `fuzz >= 0`.
    Metal { albedo: Vec3, fuzz: Fixed },
    /// A transparent body with refractive index `ir > 0`.
    Glass { albedo: Vec3, ir: Fixed },
    /// Lets rays through unbent and colours them by their direction.
    Something {},
}

impl Material {
    /// The default material: diffuse, half grey.
    pub open spec fn default_spec() -> Material {
        Material::Lambertian { albedo: Vec3::splat(Fixed::of(SCALE / 2)) }
    }

    /// Whether the parameters are in their ranges.
    pub open spec fn wf(self) -> bool {
        match self {
            Material::Metal { albedo, fuzz } => fuzz@ >= 0,
            Material::Glass { albedo, ir } => ir@ > 0,
            _ => true,
        }
    }

    /// Whether the parameters are in their ranges.
    pub fn is_wf(&self) -> (b: bool)
        ensures
            b == self.wf(),
    {
        match self {
            Material::Metal { albedo: _, fuzz } => fuzz.to_raw() >= 0,
            Material::Glass { albedo: _, ir } => ir.to_raw() > 0,
            _ => true,
        }
    }
}

impl Default for Material {
    fn default() -> (m: Material)
        ensures
            m == Material::default_spec(),
    {
        let half: Fixed = Fixed::from_raw(SCALE / 2);
        Material::Lambertian { albedo: Vec3::new(half, half, half) }
    }
}

/// The mirror image of `v` at a surface with normal `n`.
pub open spec fn reflect_spec(v: Vec3, n: Vec3) -> Vec3 {
    v.difference(n.scaled(Fixed::of(2 * SCALE).product(v.dot_spec(n))))
}

/// The direction of `uv` after it crosses a surface with normal `n` into a
/// medium whose refractive index is `1 / etai_over_etat` times that of the
/// medium it leaves.
pub open spec fn refract_spec(uv: Vec3, n: Vec3, etai_over_etat: Fixed) -> Vec3 {
    let cos_theta = uv.negation().dot_spec(n).smaller(Fixed::of(SCALE as int));
    let r_out_perp = uv.sum(n.scaled(cos_theta)).scaled(etai_over_etat);
    let r_out_parallel = n.scaled(
        Fixed::of(SCALE as int).difference(r_out_perp.length_squared_spec()).root_or_zero().negation(),
    );
    r_out_perp.sum(r_out_parallel)
}

/// The fifth power.
pub open spec fn fifth_power(x: Fixed) -> Fixed {
    x.product(x).product(x.product(x)).product(x)
}

/// Schlick's approximation of the share of light that a transparent
/// surface reflects.
pub open spec fn reflectance_spec(cos: Fixed, ir: Fixed) -> Fixed
    recommends
        ir@ != -SCALE,
{
    let one = Fixed::of(SCALE as int);
    let r = one.difference(ir).quotient(one.sum(ir));
    let r0 = r.product(r);
    r0.sum(one.difference(r0).product(fifth_power(one.difference(cos))))
}

/// What a diffuse surface does with a ray, given the direction drawn.
pub open spec fn lambertian_spec(intersection: Intersection, albedo: Vec3, unit: Vec3) -> (
    bool,
    Vec3,
    Ray,
) {
    let drawn = intersection.normal.sum(unit);
    let direction = if drawn.near_zero_spec() {
        intersection.normal
    } else {
        drawn
    };
    (true, albedo, Ray { origin: intersection.point, direction })
}

/// What a mirror does with a ray, given the direction drawn.
pub open spec fn metal_spec(
    ray: Ray,
    intersection: Intersection,
    albedo: Vec3,
    fuzz: Fixed,
    unit: Vec3,
) -> (bool, Vec3, Ray) {
    let reflected = reflect_spec(ray.direction.unit_or_zero(), intersection.normal);
    let direction = reflected.sum(unit.scaled(fuzz));
    (
        direction.dot_spec(intersection.normal)@ > 0,
        albedo,
        Ray { origin: intersection.point, direction },
    )
}

/// What a transparent body does with a ray, given the fraction drawn.
pub open spec fn glass_spec(
    ray: Ray,
    intersection: Intersection,
    albedo: Vec3,
    ir: Fixed,
    chance: Fixed,
) -> (bool, Vec3, Ray)
    recommends
        ir@ > 0,
{
    let one = Fixed::of(SCALE as int);
    let refraction_ratio = if intersection.front_face {
        one.quotient(ir)
    } else {
        ir
    };
    let unit_direction = ray.direction.unit_or_zero();
    let cos_theta = unit_direction.negation().dot_spec(intersection.normal).smaller(one);
    let sin_theta = one.difference(cos_theta.product(cos_theta)).root_or_zero();
    let cannot_refract = refraction_ratio.product(sin_theta)@ > SCALE;
    let direction = if cannot_refract || reflectance_spec(cos_theta, refraction_ratio)@ > chance@ {
        reflect_spec(unit_direction, intersection.normal)
    } else {
        refract_spec(unit_direction, intersection.normal, refraction_ratio)
    };
    (true, albedo, Ray { origin: intersection.point, direction })
}

/// What the pass-through material does with a ray.
pub open spec fn something_spec(ray: Ray, intersection: Intersection) -> (bool, Vec3, Ray) {
    (true, ray.direction, Ray { origin: intersection.point, direction: ray.direction })
}

/// What a material does with a ray, given the direction and the fraction
/// drawn: whether it scatters, the attenuation, and the scattered ray.
pub open spec fn scatter_spec(
    material: Material,
    ray: Ray,
    intersection: Intersection,
    unit: Vec3,
    chance: Fixed,
) -> (bool, Vec3, Ray)
    recommends
        material.wf(),
{
    match material {
        Material::Lambertian { albedo } => lambertian_spec(intersection, albedo, unit),
        Material::Metal { albedo, fuzz } => metal_spec(ray, intersection, albedo, fuzz, unit),
        Material::Glass { albedo, ir } => glass_spec(ray, intersection, albedo, ir, chance),
        Material::Something {  } => something_spec(ray, intersection),
    }
}

/// Whether a material can do `outcome` with a ray: whether some direction
/// that can be drawn and some fraction in `[0, 1)` give it.
pub open spec fn scatters_to(
    material: Material,
    ray: Ray,
    intersection: Intersection,
    outcome: (bool, Vec3, Ray),
) -> bool {
    exists|unit: Vec3, chance: Fixed|
        Vec3::is_drawn_unit(unit) && 0 <= chance@ < SCALE && outcome == #[trigger] scatter_spec(
            material,
            ray,
            intersection,
            unit,
            chance,
        )
}

/// The mirror image of `v` at a surface with normal `n`.
pub fn reflect(v: &Vec3, n: &Vec3) -> (r: Vec3)
    ensures
        r == reflect_spec(*v, *n),
{
    *v - Fixed::from_int(2) * v.dot(n) * *n
}

/// The direction of `uv` after refraction at a surface with normal `n`.
pub fn refract(uv: &Vec3, n: &Vec3, etai_over_etat: Fixed) -> (r: Vec3)
    ensures
        r == refract_spec(*uv, *n, etai_over_etat),
{
    let cos_theta: Fixed = uv.inverse().dot(n).min(Fixed::one());
    let r_out_perp: Vec3 = etai_over_etat * (*uv + cos_theta * *n);
    let r_out_parallel: Vec3 = (Fixed::one() - r_out_perp.length_squared()).sqrt_or_zero().neg()
        * *n;
    r_out_perp + r_out_parallel
}

/// Schlick's approximation of the share of light that a transparent
/// surface reflects.
pub fn reflectance(cos: Fixed, ir: Fixed) -> (r: Fixed)
    requires
        ir@ != -SCALE,
    ensures
        r == reflectance_spec(cos, ir),
{
    let one: Fixed = Fixed::one();
    let r: Fixed = (one - ir) / (one + ir);
    let r0: Fixed = r * r;
    let x: Fixed = one - cos;
    let x2: Fixed = x * x;
    r0 + (one - r0) * (x2 * x2 * x)
}

/// Scatters a ray off a diffuse surface along the normal plus `unit`, or
/// along the normal alone where the two cancel. Always scatters.
pub fn lambertian(
    intersection: &Intersection,
    attenuation: &mut Vec3,
    scattered: &mut Ray,
    albedo: Vec3,
    unit: Vec3,
) -> (b: bool)
    ensures
        b,
        (b, *final(attenuation), *final(scattered)) == lambertian_spec(*intersection, albedo, unit),
{
    let mut scatter_direction: Vec3 = intersection.normal + unit;
    if scatter_direction.near_zero() {
        scatter_direction = intersection.normal;
    }
    *scattered = intersection.point.with_direction(scatter_direction);
    *attenuation = albedo;
    true
}

/// Reflects a ray off a mirror and pushes the reflection by `fuzz * unit`.
/// Scatters only where the result leaves the surface.
pub fn metal(
    ray: &Ray,
    intersection: &Intersection,
    attenuation: &mut Vec3,
    scattered: &mut Ray,
    albedo: Vec3,
    fuzz: Fixed,
    unit: Vec3,
) -> (b: bool)
    ensures
        b == (final(scattered).direction.dot_spec(intersection.normal)@ > 0),
        (b, *final(attenuation), *final(scattered)) == metal_spec(
            *ray,
            *intersection,
            albedo,
            fuzz,
            unit,
        ),
{
    let reflected: Vec3 = reflect(&ray.direction.normalized_or_zero(), &intersection.normal);
    *scattered = intersection.point.with_direction(reflected + fuzz * unit);
    *attenuation = albedo;
    scattered.direction.dot(&intersection.normal).gt(Fixed::zero())
}

/// Sends a ray through a transparent body or reflects it: reflects where
/// refraction is impossible or where the reflectance exceeds `chance`.
/// Always scatters.
pub fn glass(
    ray: &Ray,
    intersection: &Intersection,
    attenuation: &mut Vec3,
    scattered: &mut Ray,
    albedo: Vec3,
    ir: Fixed,
    chance: Fixed,
) -> (b: bool)
    requires
        ir@ > 0,
    ensures
        b,
        (b, *final(attenuation), *final(scattered)) == glass_spec(
            *ray,
            *intersection,
            albedo,
            ir,
            chance,
        ),
{
    let one: Fixed = Fixed::one();
    let refraction_ratio: Fixed = if intersection.front_face {
        one / ir
    } else {
        ir
    };
    proof {
        crate::fixed::lemma_quotient_nonnegative(one, ir);
    }
    let unit_direction: Vec3 = ray.direction.normalized_or_zero();
    let cos_theta: Fixed = unit_direction.inverse().dot(&intersection.normal).min(one);
    let sin_theta: Fixed = (one - cos_theta * cos_theta).sqrt_or_zero();
    let cannot_refract: bool = (refraction_ratio * sin_theta).gt(one);
    if cannot_refract || reflectance(cos_theta, refraction_ratio).gt(chance) {
        *scattered = intersection.point.with_direction(
            reflect(&unit_direction, &intersection.normal),
        );
    } else {
        *scattered = intersection.point.with_direction(
            refract(&unit_direction, &intersection.normal, refraction_ratio),
        );
    }
    *attenuation = albedo;
    true
}

/// Lets a ray through unbent from the point of intersection; the
/// attenuation is the ray's direction read as a colour. Always scatters.
pub fn something(
    ray: &Ray,
    intersection: &Intersection,
    attenuation: &mut Vec3,
    scattered: &mut Ray,
) -> (b: bool)
    ensures
        b,
        (b, *final(attenuation), *final(scattered)) == something_spec(*ray, *intersection),
{
    *attenuation = ray.direction;
    *scattered = intersection.point.with_direction(ray.direction);
    true
}

/// The reflectance is a share: for the cosine of an angle of incidence,
/// between zero and one, and a positive refractive index it lies between
/// zero and one.
pub proof fn lemma_reflectance_is_a_share(cos: Fixed, ir: Fixed)
    requires
        0 <= cos@ <= SCALE,
        ir@ > 0,
    ensures
        0 <= reflectance_spec(cos, ir)@ <= SCALE,
{
    let one = Fixed::of(SCALE as int);
    let r = one.difference(ir).quotient(one.sum(ir));
    crate::fixed::lemma_quotient_within_one(one.difference(ir), one.sum(ir));
    let r0 = r.product(r);
    crate::fixed::lemma_square_within_one(r);
    let x = one.difference(cos);
    let x2 = x.product(x);
    crate::fixed::lemma_product_with_fraction(x, x);
    let x4 = x2.product(x2);
    crate::fixed::lemma_product_with_fraction(x2, x2);
    let x5 = x4.product(x);
    crate::fixed::lemma_product_with_fraction(x4, x);
    crate::fixed::lemma_product_with_fraction(one.difference(r0), x5);
}

/// Only a mirror ever declines to scatter, and it declines exactly where
/// the direction that it would scatter along does not leave the surface;
/// every material scatters from the point of intersection.
pub proof fn lemma_only_a_mirror_declines(
    material: Material,
    ray: Ray,
    intersection: Intersection,
    unit: Vec3,
    chance: Fixed,
)
    ensures
        ({
            let outcome = scatter_spec(material, ray, intersection, unit, chance);
            &&& !(material is Metal) ==> outcome.0
            &&& material is Metal ==> outcome.0 == (outcome.2.direction.dot_spec(
                intersection.normal,
            )@ > 0)
            &&& outcome.2.origin == intersection.point
        }),
{
}

/// The direction that scattering uses when every draw is `c`.
pub open spec fn pinned_unit(c: Fixed) -> Vec3 {
    Vec3::pinned_in_unit_sphere(c).unit_or_zero()
}

/// Scatters a ray off the material of an intersection. Returns whether the
/// ray goes on; if so `attenuation` and `scattered` say how.
///
/// A diffuse surface, a transparent body and the pass-through material
/// always scatter. A mirror scatters exactly where the scattered direction
/// leaves the surface.
pub fn scatter(
    material: Material,
    ray: &Ray,
    intersection: &Intersection,
    attenuation: &mut Vec3,
    scattered: &mut Ray,
    sampler: &mut Sampler,
) -> (b: bool)
    requires
        material.wf(),
    ensures
        final(sampler).pinned() == old(sampler).pinned(),
        scatters_to(material, *ray, *intersection, (b, *final(attenuation), *final(scattered))),
        old(sampler).pinned() matches Some(c) ==> (b, *final(attenuation), *final(scattered))
            == scatter_spec(material, *ray, *intersection, pinned_unit(c), c),
        material is Metal ==> b == (final(scattered).direction.dot_spec(intersection.normal)@ > 0),
        !(material is Metal) ==> b,
        final(scattered).origin == intersection.point,
{
    proof {
        crate::vec3::lemma_zero_is_drawn_unit();
    }
    match material {
        Material::Lambertian { albedo } => {
            let unit: Vec3 = Vec3::random_unit_vector(sampler);
            let b: bool = lambertian(intersection, attenuation, scattered, albedo, unit);
            assert((b, *attenuation, *scattered) == scatter_spec(
                material,
                *ray,
                *intersection,
                unit,
                Fixed::of(0),
            ));
            b
        },
        Material::Metal { albedo, fuzz } => {
            let unit: Vec3 = Vec3::random_unit_vector(sampler);
            let b: bool = metal(ray, intersection, attenuation, scattered, albedo, fuzz, unit);
            assert((b, *attenuation, *scattered) == scatter_spec(
                material,
                *ray,
                *intersection,
                unit,
                Fixed::of(0),
            ));
            b
        },
        Material::Glass { albedo, ir } => {
            let chance: Fixed = sampler.next_unit();
            let b: bool = glass(ray, intersection, attenuation, scattered, albedo, ir, chance);
            assert((b, *attenuation, *scattered) == scatter_spec(
                material,
                *ray,
                *intersection,
                Vec3::zero_spec(),
                chance,
            ));
            b
        },
        Material::Something {  } => {
            let b: bool = something(ray, intersection, attenuation, scattered);
            assert((b, *attenuation, *scattered) == scatter_spec(
                material,
                *ray,
                *intersection,
                Vec3::zero_spec(),
                Fixed::of(0),
            ));
            b
        },
    }
}

} // verus!
