//! A verified core for a stochastic ray tracer: axis-aligned bounding
//! boxes, sphere intersection, a bounding-volume hierarchy with a proved
//! traversal/linear-scan agreement law, material scattering, and the
//! recursive color integrator with its depth cutoff.
//!
//! All geometry is carried by a saturating fixed-point scalar type, so
//! that every arithmetic step has an exact mathematical meaning that the
//! verifier can reason about. Division by zero yields a saturated value
//! of the dividend's sign, standing in for the signed infinities that the
//! slab test relies on.

pub mod aabb;
pub mod bvh;
pub mod hitable;
pub mod material;
pub mod noises;
pub mod ray;
pub mod rng;
pub mod scene;
pub mod texture;
pub mod scalar;
pub mod vec3;

pub use scalar::Scalar;
