//! Shorthands that build boxed spheres of each material. Each sphere must
//! lie within reach, with a radius other than zero.

use crate::fixed::Fixed;
use crate::hittable::Hittable;
use crate::material::Material;
use crate::sphere::Sphere;
use crate::vec3::Vec3;
use vstd::prelude::*;

verus! {

/// A diffuse sphere around `(x, y, z)` with the colour `(r, g, b)`.
pub fn lambertian_sphere(
    x: Fixed,
    y: Fixed,
    z: Fixed,
    radius: Fixed,
    r: Fixed,
    g: Fixed,
    b: Fixed,
) -> (s: Box<Sphere>)
    requires
        Sphere::fits(Vec3 { x, y, z }, radius),
    ensures
        *s == (Sphere {
            center: Vec3 { x, y, z },
            radius,
            material: Material::Lambertian { albedo: Vec3 { x: r, y: g, z: b } },
        }),
        s.wf(),
{
    Box::new(
        Sphere::new(Vec3::new(x, y, z), radius, Material::Lambertian { albedo: Vec3::new(r, g, b) }),
    )
}

/// A mirror sphere around `(x, y, z)` with the colour `(r, g, b)`.
pub fn metal_sphere(
    x: Fixed,
    y: Fixed,
    z: Fixed,
    radius: Fixed,
    r: Fixed,
    g: Fixed,
    b: Fixed,
    fuzz: Fixed,
) -> (s: Box<Sphere>)
    requires
        Sphere::fits(Vec3 { x, y, z }, radius),
        fuzz@ >= 0,
    ensures
        *s == (Sphere {
            center: Vec3 { x, y, z },
            radius,
            material: Material::Metal { albedo: Vec3 { x: r, y: g, z: b }, fuzz },
        }),
        s.wf(),
{
    Box::new(
        Sphere::new(Vec3::new(x, y, z), radius, Material::Metal { albedo: Vec3::new(r, g, b), fuzz }),
    )
}

/// A transparent sphere around `(x, y, z)` tinted `(r, g, b)`.
pub fn glass_sphere(
    x: Fixed,
    y: Fixed,
    z: Fixed,
    radius: Fixed,
    r: Fixed,
    g: Fixed,
    b: Fixed,
    ir: Fixed,
) -> (s: Box<Sphere>)
    requires
        Sphere::fits(Vec3 { x, y, z }, radius),
        ir@ > 0,
    ensures
        *s == (Sphere {
            center: Vec3 { x, y, z },
            radius,
            material: Material::Glass { albedo: Vec3 { x: r, y: g, z: b }, ir },
        }),
        s.wf(),
{
    Box::new(
        Sphere::new(Vec3::new(x, y, z), radius, Material::Glass { albedo: Vec3::new(r, g, b), ir }),
    )
}

/// A sphere of the pass-through material around `(x, y, z)`.
pub fn something_sphere(x: Fixed, y: Fixed, z: Fixed, radius: Fixed) -> (s: Box<Sphere>)
    requires
        Sphere::fits(Vec3 { x, y, z }, radius),
    ensures
        *s == (Sphere { center: Vec3 { x, y, z }, radius, material: Material::Something {  } }),
        s.wf(),
{
    Box::new(Sphere::new(Vec3::new(x, y, z), radius, Material::Something {  }))
}

} // verus!
