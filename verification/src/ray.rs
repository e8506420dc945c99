//! Rays: an origin, an unnormalized direction, and a time sample for
//! motion blur. The intersection math accounts for the unnormalized
//! direction, so `t` is scale-dependent.

use vstd::prelude::*;

use crate::vec3::{v3_add, v3_scale, Vec3};
use crate::scalar::Scalar;

verus! {

/// A ray `origin + t * direction`, tagged with the time it samples.
#[derive(Clone, Copy, Debug, PartialEq, Eq, Structural)]
pub struct Ray {
    pub origin: Vec3,
    pub direction: Vec3,
    pub time: Scalar,
}

/// The point the ray reaches at parameter `t` (a raw scalar value).
pub open spec fn ray_at(r: Ray, t: int) -> Vec3 {
    v3_add(r.origin, v3_scale(r.direction, t))
}

impl Ray {
    /// The point at parameter `t` along the ray.
    pub fn point_at_parameter(&self, t: Scalar) -> (p: Vec3)
        ensures
            p == ray_at(*self, t@),
    {
        self.origin.add(self.direction.scale(t))
    }
}

} // verus!
