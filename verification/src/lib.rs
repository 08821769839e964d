//! A Monte Carlo path tracer for scenes of spheres.
//!
//! For each pixel the renderer sends rays from a [`camera::Camera`] into a
//! scene ([`hit::HittableObjects`]), follows each ray from surface to surface
//! as the materials ([`material`]) scatter it, and averages the light that
//! the rays gather ([`render`]).
//!
//! All arithmetic is exact and repeatable: numbers are decimal fixed-point
//! values ([`scalar::Fixed`]) whose operations saturate and round toward
//! zero, so that every function is total and every result is determined by
//! its arguments and by the random numbers drawn ([`random`]).
pub mod angle;
pub mod camera;
pub mod color;
pub mod error;
pub mod hit;
pub mod material;
pub mod point3;
pub mod random;
pub mod ray;
pub mod render;
pub mod scalar;
pub mod scene;
pub mod sphere;
pub mod vec3;
mod wide;
