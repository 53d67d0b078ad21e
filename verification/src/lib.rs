//! A small verified ray tracer.
//!
//! Spheres lit by a sky gradient are rendered by stochastic diffuse path
//! tracing.  All geometry and color arithmetic is carried out in a saturating
//! fixed-point scalar type (`fixed`), so every function of the renderer has an
//! exact contract: each public operation is proved equal to a spec-level
//! function of its inputs, and the aggregate intersection search is proved to
//! return the nearest hit.

pub mod camera;
pub mod fixed;
pub mod laws;
pub mod list;
pub mod render;
pub mod ray;
pub mod rng;
pub mod sphere;
pub mod vec3;
