//! An offline Monte Carlo path tracer over analytic spheres, written in Q.16
//! fixed-point arithmetic so that every stage — intersection, scattering,
//! recursive light transport, camera sampling and pixel finalization — has an
//! exact, machine-checked functional specification.

pub mod camera;
pub mod fixed;
pub mod vec3;
pub mod rng;
pub mod helpers;
pub mod hittable;
pub mod material;
pub mod ray;
pub mod render;
pub mod sphere;
