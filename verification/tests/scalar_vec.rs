use raytrace::scalar::{euclid_div_mod, ffmax, ffmin, Scalar, FRAC, HALF_RAW};
use raytrace::texture::sine;
use raytrace::vec3::Vec3;

fn s(x: f64) -> Scalar {
    Scalar::from_raw((x * FRAC as f64) as i64)
}

#[test]
fn scalar_add_sub_exact() {
    assert_eq!(s(1.5).add(s(2.25)).raw(), s(3.75).raw());
    assert_eq!(s(1.0).sub(s(2.5)).raw(), s(-1.5).raw());
    assert_eq!(s(0.0).neg().raw(), 0);
}

#[test]
fn scalar_add_saturates() {
    let max = Scalar::max_value();
    assert_eq!(max.add(max).raw(), i64::MAX);
    assert_eq!(max.neg().sub(max).raw(), -i64::MAX);
}

#[test]
fn scalar_mul_exact() {
    assert_eq!(s(2.0).mul(s(3.0)).raw(), s(6.0).raw());
    assert_eq!(s(0.5).mul(s(0.5)).raw(), s(0.25).raw());
    assert_eq!(s(-2.0).mul(s(3.0)).raw(), s(-6.0).raw());
    assert_eq!(s(-2.0).mul(s(-3.0)).raw(), s(6.0).raw());
    assert_eq!(s(7.25).mul(Scalar::zero()).raw(), 0);
}

#[test]
fn scalar_div_exact() {
    assert_eq!(s(6.0).div(s(3.0)).raw(), s(2.0).raw());
    assert_eq!(s(1.0).div(s(2.0)).raw(), HALF_RAW);
    assert_eq!(s(-6.0).div(s(3.0)).raw(), s(-2.0).raw());
}

#[test]
fn scalar_div_by_zero_saturates_with_sign() {
    assert_eq!(s(3.0).div(Scalar::zero()).raw(), i64::MAX);
    assert_eq!(s(-3.0).div(Scalar::zero()).raw(), -i64::MAX);
    assert_eq!(Scalar::zero().div(Scalar::zero()).raw(), 0);
}

#[test]
fn scalar_sqrt_exact_squares() {
    assert_eq!(s(4.0).sqrt().raw(), s(2.0).raw());
    assert_eq!(s(1.0).sqrt().raw(), s(1.0).raw());
    assert_eq!(s(0.25).sqrt().raw(), HALF_RAW);
    assert_eq!(Scalar::zero().sqrt().raw(), 0);
    assert_eq!(s(-4.0).sqrt().raw(), 0);
}

#[test]
fn scalar_comparisons() {
    assert!(s(1.0).lt(s(2.0)));
    assert!(!s(2.0).lt(s(2.0)));
    assert!(s(2.0).le(s(2.0)));
    assert!(s(3.0).gt(s(2.0)));
    assert_eq!(ffmin(s(1.0), s(2.0)).raw(), s(1.0).raw());
    assert_eq!(ffmax(s(1.0), s(2.0)).raw(), s(2.0).raw());
}

#[test]
fn euclid_division_on_negatives() {
    let (q, m) = euclid_div_mod(-1, FRAC);
    assert_eq!(q, -1);
    assert_eq!(m, FRAC - 1);
    let (q2, m2) = euclid_div_mod(-FRAC, FRAC);
    assert_eq!(q2, -1);
    assert_eq!(m2, 0);
    let (q3, m3) = euclid_div_mod(3 * FRAC + 7, FRAC);
    assert_eq!(q3, 3);
    assert_eq!(m3, 7);
}

#[test]
fn vec3_componentwise_ops() {
    let a = Vec3::new(s(1.0), s(2.0), s(3.0));
    let b = Vec3::new(s(4.0), s(5.0), s(6.0));
    assert_eq!(a.add(b), Vec3::new(s(5.0), s(7.0), s(9.0)));
    assert_eq!(b.sub(a), Vec3::new(s(3.0), s(3.0), s(3.0)));
    assert_eq!(a.mul(b), Vec3::new(s(4.0), s(10.0), s(18.0)));
    assert_eq!(b.div(a), Vec3::new(s(4.0), s(2.5), s(2.0)));
    assert_eq!(a.neg(), Vec3::new(s(-1.0), s(-2.0), s(-3.0)));
    assert_eq!(a.scale(s(2.0)), Vec3::new(s(2.0), s(4.0), s(6.0)));
}

#[test]
fn vec3_dot_cross_length() {
    let a = Vec3::new(s(1.0), s(2.0), s(3.0));
    let b = Vec3::new(s(4.0), s(5.0), s(6.0));
    assert_eq!(a.dot(b).raw(), s(32.0).raw());
    assert_eq!(a.cross(b), Vec3::new(s(-3.0), s(6.0), s(-3.0)));
    let c = Vec3::new(s(3.0), s(4.0), s(0.0));
    assert_eq!(c.length().raw(), s(5.0).raw());
    assert_eq!(c.squared_length().raw(), s(25.0).raw());
    assert_eq!(c.unit_vector(), Vec3::new(s(0.6), s(0.8), s(0.0)));
}

#[test]
fn vec3_channels_and_sqrt() {
    let a = Vec3::new(s(0.25), s(1.0), s(4.0));
    assert_eq!(a.r().raw(), s(0.25).raw());
    assert_eq!(a.g().raw(), s(1.0).raw());
    assert_eq!(a.b().raw(), s(4.0).raw());
    assert_eq!(a.sqrt(), Vec3::new(s(0.5), s(1.0), s(2.0)));
}

#[test]
fn sine_fixed_point_values() {
    assert_eq!(sine(Scalar::zero()).raw(), 0);
    // At pi/2 the rational approximation is exact up to rounding.
    let quarter = Scalar::from_raw(102944);
    let v = sine(quarter).raw();
    assert!(v > 64000 && v < FRAC + 100, "sine(pi/2) was {v}");
    // Near pi the sine is close to zero again.
    let near_pi = Scalar::from_raw(205887);
    assert!(sine(near_pi).raw().abs() < 700);
    // The second half of the period is negative.
    let three_quarters = Scalar::from_raw(308831);
    let w = sine(three_quarters).raw();
    assert!(w < -64000 && w > -FRAC - 100, "sine(3 pi/2) was {w}");
}
