//! A path tracer for scenes of spheres, computed in saturating decimal
//! fixed-point arithmetic.
//!
//! Every quantity that a renderer usually keeps in floating point is held as
//! a [`fixed::Fixed`]: a signed count of billionths. All arithmetic on it is
//! exact integer arithmetic followed by rounding toward zero and saturation,
//! so each operation has a precise mathematical meaning that the contracts in
//! this crate are stated over.

pub mod angle;
pub mod fixed;
pub mod hittable;
pub mod interval;
pub mod material;
pub mod ray;
pub mod renderer;
pub mod sampler;
pub mod scene;
pub mod sphere;
pub mod utils;
pub mod vec3;
