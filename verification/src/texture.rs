//! Textures: the color of a surface at a hit point. A constant color, a
//! checker pattern driven by a product of sines, and a marble-like
//! pattern driven by turbulent gradient noise. The sine is computed in
//! fixed point by a rational approximation with exact range reduction,
//! so every pattern is an exact function of the hit point and, for the
//! noise, of the tables it was built with.

use vstd::prelude::*;

use crate::noises::{perlin_wf, turb_spec, Perlin};
use crate::scalar::{sat_add, sat_div, sat_mul, sat_neg, sat_sub, Scalar, FRAC};
use crate::vec3::{v3, v3_scale, Vec3};

verus! {

/// Raw fixed-point value of pi.
pub const PI_RAW: i64 = 205887;

/// Raw fixed-point value of two pi.
pub const TWO_PI_RAW: i64 = 411775;

/// An angle folded into `[0, 2*pi)`, Euclidean-style.
pub open spec fn wrap_angle(v: int) -> int {
    let t = TWO_PI_RAW as int;
    if v >= 0 {
        v % t
    } else {
        let m = (-v) % t;
        if m == 0 {
            0
        } else {
            t - m
        }
    }
}

/// The rational sine approximation on `[0, pi]`:
/// `16 y (pi - y) / (5 pi^2 - 4 y (pi - y))`.
pub open spec fn sine_half_spec(y: int) -> int {
    let t = sat_mul(y, sat_sub(PI_RAW as int, y));
    let num = sat_mul(16 * (FRAC as int), t);
    let den = sat_sub(sat_mul(5 * (FRAC as int), sat_mul(PI_RAW as int, PI_RAW as int)), sat_mul(
        4 * (FRAC as int),
        t,
    ));
    sat_div(num, den)
}

/// Fixed-point sine: fold the angle into one period, use the rational
/// approximation on the first half and its negation on the second.
pub open spec fn sine_spec(x: int) -> int {
    let r = wrap_angle(x);
    if r <= PI_RAW as int {
        sine_half_spec(r)
    } else {
        sat_neg(sine_half_spec(r - (PI_RAW as int)))
    }
}

/// An angle folded into `[0, 2*pi)`.
fn wrap_angle_exec(v: Scalar) -> (r: Scalar)
    ensures
        r@ == wrap_angle(v@),
        0 <= r@ < TWO_PI_RAW as int,
{
    let raw = v.raw();
    if raw >= 0 {
        Scalar::from_raw(((raw as u64) % (TWO_PI_RAW as u64)) as i64)
    } else {
        let m = (((-(raw as i128)) as u128) % (TWO_PI_RAW as u128)) as u64;
        if m == 0 {
            Scalar::from_raw(0)
        } else {
            Scalar::from_raw(TWO_PI_RAW - (m as i64))
        }
    }
}

/// Fixed-point sine.
pub fn sine(x: Scalar) -> (r: Scalar)
    ensures
        r@ == sine_spec(x@),
{
    let rr = wrap_angle_exec(x);
    let pi = Scalar::from_raw(PI_RAW);
    if rr.le(pi) {
        sine_half(rr)
    } else {
        sine_half(rr.sub(pi)).neg()
    }
}

/// The rational sine approximation on `[0, pi]`.
fn sine_half(y: Scalar) -> (r: Scalar)
    ensures
        r@ == sine_half_spec(y@),
{
    let pi = Scalar::from_raw(PI_RAW);
    let t = y.mul(pi.sub(y));
    let num = Scalar::from_raw(16 * FRAC).mul(t);
    let den = Scalar::from_raw(5 * FRAC).mul(pi.mul(pi)).sub(Scalar::from_raw(4 * FRAC).mul(t));
    num.div(den)
}

/// A texture of one color everywhere.
#[derive(Clone, Copy, Debug, PartialEq, Eq, Structural)]
pub struct ConstantTexture {
    pub color: Vec3,
}

impl ConstantTexture {
    /// A constant texture of the given color.
    pub fn new(color: Vec3) -> (t: ConstantTexture)
        ensures
            t == (ConstantTexture { color }),
    {
        ConstantTexture { color }
    }
}

/// A three-dimensional checker pattern alternating two constant colors
/// by the sign of a product of sines of the hit point's coordinates.
#[derive(Clone, Debug)]
pub struct CheckedTexture {
    pub even: Box<ConstantTexture>,
    pub odd: Box<ConstantTexture>,
}

impl CheckedTexture {
    /// A checker texture of the two given colors.
    pub fn new(even: Box<ConstantTexture>, odd: Box<ConstantTexture>) -> (t: CheckedTexture)
        ensures
            t.even == even,
            t.odd == odd,
    {
        CheckedTexture { even, odd }
    }
}

/// The sign driver of the checker pattern at a point:
/// `sin(10 x) * sin(10 y) + sin(10 z)`.
pub open spec fn checker_sines(p: Vec3) -> int {
    let ten = 10 * (FRAC as int);
    sat_add(
        sat_mul(sine_spec(sat_mul(ten, p.x@)), sine_spec(sat_mul(ten, p.y@))),
        sine_spec(sat_mul(ten, p.z@)),
    )
}

/// A marble-like texture driven by turbulent gradient noise.
#[derive(Clone, Debug)]
pub struct NoiseTexture {
    pub noise: Perlin,
    pub scale: Scalar,
}

impl NoiseTexture {
    /// A noise texture of the given scale, its tables drawn from the
    /// generator.
    pub fn new(scale: Scalar, rng: &mut rand::rngs::StdRng) -> (t: NoiseTexture)
        ensures
            perlin_wf(t.noise),
            t.scale == scale,
    {
        NoiseTexture { noise: Perlin::new(rng), scale }
    }
}

/// The closed union of texture variants.
#[derive(Clone, Debug)]
pub enum Texture {
    Constant(ConstantTexture),
    Checked(CheckedTexture),
    Noise(NoiseTexture),
}

/// The texture's own tables are well-formed (trivial except for noise).
pub open spec fn texture_wf(t: Texture) -> bool {
    match t {
        Texture::Constant(_) => true,
        Texture::Checked(_) => true,
        Texture::Noise(n) => perlin_wf(n.noise),
    }
}

/// The color of a texture at surface coordinates `(u, v)` and point `p`.
pub open spec fn texture_value_spec(t: Texture, u: int, v: int, p: Vec3) -> Vec3 {
    match t {
        Texture::Constant(c) => c.color,
        Texture::Checked(c) => if checker_sines(p) < 0 {
            c.odd.color
        } else {
            c.even.color
        },
        Texture::Noise(n) => v3_scale(
            v3_scale(v3(FRAC as int, FRAC as int, FRAC as int), crate::scalar::HALF_RAW as int),
            sat_add(
                FRAC as int,
                sine_spec(
                    sat_add(
                        sat_mul(n.scale@, p.z@),
                        sat_mul(10 * (FRAC as int), turb_spec(n.noise, p)),
                    ),
                ),
            ),
        ),
    }
}

impl Texture {
    /// The color at surface coordinates `(u, v)` and point `p`.
    pub fn value(&self, u: Scalar, v: Scalar, p: Vec3) -> (r: Vec3)
        requires
            texture_wf(*self),
        ensures
            r == texture_value_spec(*self, u@, v@, p),
    {
        match self {
            Texture::Constant(c) => c.color,
            Texture::Checked(c) => {
                let ten = Scalar::from_raw(10 * FRAC);
                let sines = sine(ten.mul(p.x)).mul(sine(ten.mul(p.y))).add(sine(ten.mul(p.z)));
                if sines.lt(Scalar::zero()) {
                    c.odd.color
                } else {
                    c.even.color
                }
            },
            Texture::Noise(n) => {
                // A marble pattern: the sine of the scaled height plus
                // amplified turbulence.
                let ten = Scalar::from_raw(10 * FRAC);
                Vec3::fromf(Scalar::one()).scale(Scalar::from_raw(crate::scalar::HALF_RAW)).scale(
                    Scalar::one().add(
                        sine(n.scale.mul(p.z).add(ten.mul(n.noise.turb(p)))),
                    ),
                )
            },
        }
    }
}

} // verus!
