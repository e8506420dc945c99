//! Three-component vectors over fixed-point scalars, used for points,
//! directions and colors. Every operation mirrors a spec-level
//! counterpart exactly, so contracts elsewhere can speak of vector
//! arithmetic as a mathematical function of the raw representations.

use vstd::prelude::*;

use crate::scalar::{sat_add, sat_div, sat_mul, sat_neg, sat_sqrt, sat_sub, Scalar};

verus! {

/// A vector of three fixed-point scalars.
#[derive(Clone, Copy, Debug, PartialEq, Eq, Structural)]
pub struct Vec3 {
    pub x: Scalar,
    pub y: Scalar,
    pub z: Scalar,
}

/// A scalar from an unbounded integer known to be in raw range.
pub open spec fn sv(r: int) -> Scalar {
    Scalar { v: r as i64 }
}

/// A vector from three raw values.
pub open spec fn v3(x: int, y: int, z: int) -> Vec3 {
    Vec3 { x: sv(x), y: sv(y), z: sv(z) }
}

/// Component-wise saturating sum.
pub open spec fn v3_add(a: Vec3, b: Vec3) -> Vec3 {
    v3(sat_add(a.x@, b.x@), sat_add(a.y@, b.y@), sat_add(a.z@, b.z@))
}

/// Component-wise saturating difference.
pub open spec fn v3_sub(a: Vec3, b: Vec3) -> Vec3 {
    v3(sat_sub(a.x@, b.x@), sat_sub(a.y@, b.y@), sat_sub(a.z@, b.z@))
}

/// Component-wise saturating product.
pub open spec fn v3_mul(a: Vec3, b: Vec3) -> Vec3 {
    v3(sat_mul(a.x@, b.x@), sat_mul(a.y@, b.y@), sat_mul(a.z@, b.z@))
}

/// Component-wise saturating quotient.
pub open spec fn v3_div(a: Vec3, b: Vec3) -> Vec3 {
    v3(sat_div(a.x@, b.x@), sat_div(a.y@, b.y@), sat_div(a.z@, b.z@))
}

/// Product with a scalar.
pub open spec fn v3_scale(a: Vec3, s: int) -> Vec3 {
    v3(sat_mul(a.x@, s), sat_mul(a.y@, s), sat_mul(a.z@, s))
}

/// Quotient by a scalar.
pub open spec fn v3_div_s(a: Vec3, s: int) -> Vec3 {
    v3(sat_div(a.x@, s), sat_div(a.y@, s), sat_div(a.z@, s))
}

/// Component-wise negation.
pub open spec fn v3_neg(a: Vec3) -> Vec3 {
    v3(sat_neg(a.x@), sat_neg(a.y@), sat_neg(a.z@))
}

/// Dot product, summed left to right as the executable code does.
pub open spec fn v3_dot(a: Vec3, b: Vec3) -> int {
    sat_add(sat_add(sat_mul(a.x@, b.x@), sat_mul(a.y@, b.y@)), sat_mul(a.z@, b.z@))
}

/// Euclidean length: the square root of the dot product with itself.
pub open spec fn v3_len(a: Vec3) -> int {
    sat_sqrt(v3_dot(a, a))
}

/// Cross product, mirroring the executable component formulas.
pub open spec fn v3_cross(a: Vec3, b: Vec3) -> Vec3 {
    v3(
        sat_sub(sat_mul(a.y@, b.z@), sat_mul(a.z@, b.y@)),
        sat_neg(sat_sub(sat_mul(a.x@, b.z@), sat_mul(a.z@, b.x@))),
        sat_sub(sat_mul(a.x@, b.y@), sat_mul(a.y@, b.x@)),
    )
}

/// The vector scaled to unit length: each component divided by the length.
pub open spec fn v3_unit(a: Vec3) -> Vec3 {
    v3_div_s(a, v3_len(a))
}

/// Component-wise square root.
pub open spec fn v3_sqrt(a: Vec3) -> Vec3 {
    v3(sat_sqrt(a.x@), sat_sqrt(a.y@), sat_sqrt(a.z@))
}

/// A raw component selected by axis index: 0 is x, 1 is y, 2 is z.
pub open spec fn v3_axis(a: Vec3, i: int) -> int {
    if i == 0 {
        a.x@
    } else if i == 1 {
        a.y@
    } else {
        a.z@
    }
}

impl Vec3 {
    /// A vector from three scalars.
    pub fn new(x: Scalar, y: Scalar, z: Scalar) -> (r: Vec3)
        ensures
            r == (Vec3 { x, y, z }),
    {
        Vec3 { x, y, z }
    }

    /// A vector with all three components equal.
    pub fn fromf(v: Scalar) -> (r: Vec3)
        ensures
            r == (Vec3 { x: v, y: v, z: v }),
    {
        Vec3 { x: v, y: v, z: v }
    }

    /// The zero vector.
    pub fn zero() -> (r: Vec3)
        ensures
            r == v3(0, 0, 0),
    {
        Vec3 { x: Scalar::zero(), y: Scalar::zero(), z: Scalar::zero() }
    }

    /// The all-ones vector.
    pub fn one() -> (r: Vec3)
        ensures
            r == v3(
                crate::scalar::FRAC as int,
                crate::scalar::FRAC as int,
                crate::scalar::FRAC as int,
            ),
    {
        Vec3 { x: Scalar::one(), y: Scalar::one(), z: Scalar::one() }
    }

    /// The red channel, when the vector is read as a color.
    pub fn r(self) -> (r: Scalar)
        ensures
            r == self.x,
    {
        self.x
    }

    /// The green channel.
    pub fn g(self) -> (r: Scalar)
        ensures
            r == self.y,
    {
        self.y
    }

    /// The blue channel.
    pub fn b(self) -> (r: Scalar)
        ensures
            r == self.z,
    {
        self.z
    }

    /// Component-wise saturating sum.
    pub fn add(self, o: Vec3) -> (r: Vec3)
        ensures
            r == v3_add(self, o),
    {
        Vec3 { x: self.x.add(o.x), y: self.y.add(o.y), z: self.z.add(o.z) }
    }

    /// Component-wise saturating difference.
    pub fn sub(self, o: Vec3) -> (r: Vec3)
        ensures
            r == v3_sub(self, o),
    {
        Vec3 { x: self.x.sub(o.x), y: self.y.sub(o.y), z: self.z.sub(o.z) }
    }

    /// Component-wise saturating product.
    pub fn mul(self, o: Vec3) -> (r: Vec3)
        ensures
            r == v3_mul(self, o),
    {
        Vec3 { x: self.x.mul(o.x), y: self.y.mul(o.y), z: self.z.mul(o.z) }
    }

    /// Component-wise saturating quotient.
    pub fn div(self, o: Vec3) -> (r: Vec3)
        ensures
            r == v3_div(self, o),
    {
        Vec3 { x: self.x.div(o.x), y: self.y.div(o.y), z: self.z.div(o.z) }
    }

    /// Product with a scalar.
    pub fn scale(self, s: Scalar) -> (r: Vec3)
        ensures
            r == v3_scale(self, s@),
    {
        Vec3 { x: self.x.mul(s), y: self.y.mul(s), z: self.z.mul(s) }
    }

    /// Quotient by a scalar.
    pub fn div_s(self, s: Scalar) -> (r: Vec3)
        ensures
            r == v3_div_s(self, s@),
    {
        Vec3 { x: self.x.div(s), y: self.y.div(s), z: self.z.div(s) }
    }

    /// Component-wise negation.
    pub fn neg(self) -> (r: Vec3)
        ensures
            r == v3_neg(self),
    {
        Vec3 { x: self.x.neg(), y: self.y.neg(), z: self.z.neg() }
    }

    /// Dot product.
    pub fn dot(self, b: Vec3) -> (r: Scalar)
        ensures
            r@ == v3_dot(self, b),
    {
        self.x.mul(b.x).add(self.y.mul(b.y)).add(self.z.mul(b.z))
    }

    /// Cross product.
    pub fn cross(self, b: Vec3) -> (r: Vec3)
        ensures
            r == v3_cross(self, b),
    {
        Vec3 {
            x: self.y.mul(b.z).sub(self.z.mul(b.y)),
            y: self.x.mul(b.z).sub(self.z.mul(b.x)).neg(),
            z: self.x.mul(b.y).sub(self.y.mul(b.x)),
        }
    }

    /// Squared length: the dot product with itself.
    pub fn squared_length(self) -> (r: Scalar)
        ensures
            r@ == v3_dot(self, self),
    {
        self.dot(self)
    }

    /// Euclidean length.
    pub fn length(self) -> (r: Scalar)
        ensures
            r@ == v3_len(self),
    {
        self.squared_length().sqrt()
    }

    /// The vector scaled to unit length. With a zero-length input every
    /// component saturates by the division-by-zero rule, the fixed-point
    /// counterpart of the non-finite components float arithmetic would
    /// produce.
    pub fn unit_vector(self) -> (r: Vec3)
        ensures
            r == v3_unit(self),
    {
        let l = self.length();
        self.div_s(l)
    }

    /// Component-wise square root, used by gamma correction.
    pub fn sqrt(self) -> (r: Vec3)
        ensures
            r == v3_sqrt(self),
    {
        Vec3 { x: self.x.sqrt(), y: self.y.sqrt(), z: self.z.sqrt() }
    }

    /// The component on the given axis: 0 is x, 1 is y, 2 is z.
    pub fn axis(self, i: usize) -> (r: Scalar)
        requires
            i < 3,
        ensures
            r@ == v3_axis(self, i as int),
    {
        if i == 0 {
            self.x
        } else if i == 1 {
            self.y
        } else {
            self.z
        }
    }
}

} // verus!
