//! Saturating fixed-point scalars.
//!
//! Geometry, colors and ray parameters are carried by [`Scalar`], a signed
//! fixed-point number with [`FRAC`] fractional digits (so the raw integer
//! `v` denotes the real number `v / FRAC`). All operations are total:
//! results are clipped to `[-i64::MAX, i64::MAX]`, and division by zero
//! yields the clipped value of the dividend's sign — the saturated values
//! play the role of signed infinities in the slab test of the bounding
//! boxes. The square root of a negative scalar is zero; every caller in
//! this crate guards the sign first.

use vstd::prelude::*;

verus! {

/// The denominator of the fixed-point representation: 2^16.
pub const FRAC: i64 = 65536;

/// Raw representation of 1/2, useful to callers building constants.
pub const HALF_RAW: i64 = 32768;

/// Clip an unbounded integer to the symmetric range `[-i64::MAX, i64::MAX]`.
pub open spec fn clip(x: int) -> int {
    if x > i64::MAX as int {
        i64::MAX as int
    } else if x < -(i64::MAX as int) {
        -(i64::MAX as int)
    } else {
        x
    }
}

/// Sign of an integer: -1, 0 or 1.
pub open spec fn sgn(x: int) -> int {
    if x > 0 {
        1
    } else if x < 0 {
        -1
    } else {
        0
    }
}

/// Magnitude of an integer.
pub open spec fn mag(x: int) -> int {
    if x < 0 {
        -x
    } else {
        x
    }
}

/// Saturating fixed-point addition of raw values.
pub open spec fn sat_add(a: int, b: int) -> int {
    clip(a + b)
}

/// Saturating fixed-point subtraction of raw values.
pub open spec fn sat_sub(a: int, b: int) -> int {
    clip(a - b)
}

/// Saturating fixed-point negation of a raw value.
pub open spec fn sat_neg(a: int) -> int {
    clip(-a)
}

/// Saturating fixed-point multiplication of raw values: the product of the
/// magnitudes is rescaled by `FRAC` (rounding toward zero) and given the
/// sign of the product.
pub open spec fn sat_mul(a: int, b: int) -> int {
    clip(sgn(a) * sgn(b) * ((mag(a) * mag(b)) / (FRAC as int)))
}

/// Saturating fixed-point division of raw values; division by zero yields
/// the saturated value of the dividend's sign (a stand-in for the signed
/// infinities of real arithmetic).
pub open spec fn sat_div(a: int, b: int) -> int {
    if b == 0 {
        if a > 0 {
            i64::MAX as int
        } else if a < 0 {
            -(i64::MAX as int)
        } else {
            0
        }
    } else {
        clip(sgn(a) * sgn(b) * ((mag(a) * (FRAC as int)) / mag(b)))
    }
}

/// Floor of the square root of a natural number.
pub open spec fn nat_sqrt(x: nat) -> nat
    decreases x,
{
    if x == 0 {
        0
    } else {
        let r = nat_sqrt((x - 1) as nat);
        if (r + 1) * (r + 1) <= x {
            r + 1
        } else {
            r
        }
    }
}

/// Fixed-point square root of a raw value: zero on non-positive input,
/// else the floor square root of the rescaled magnitude.
pub open spec fn sat_sqrt(a: int) -> int {
    if a <= 0 {
        0
    } else {
        nat_sqrt((a * (FRAC as int)) as nat) as int
    }
}

/// `nat_sqrt(x)` is the floor square root of `x`.
pub proof fn lemma_nat_sqrt(x: nat)
    ensures
        nat_sqrt(x) * nat_sqrt(x) <= x,
        x < (nat_sqrt(x) + 1) * (nat_sqrt(x) + 1),
    decreases x,
{
    if x == 0 {
        assert(nat_sqrt(0) == 0);
        assert((nat_sqrt(0) + 1) * (nat_sqrt(0) + 1) == 1) by (nonlinear_arith)
            requires
                nat_sqrt(0) == 0,
        ;
    } else {
        lemma_nat_sqrt((x - 1) as nat);
        let r = nat_sqrt((x - 1) as nat);
        let s = nat_sqrt(x);
        assert(s == if (r + 1) * (r + 1) <= x { r + 1 } else { r });
        if (r + 1) * (r + 1) <= x {
            assert(s == r + 1);
            assert(s * s <= x);
            assert(x < (s + 1) * (s + 1)) by (nonlinear_arith)
                requires
                    s == r + 1,
                    (x - 1) < (r + 1) * (r + 1),
            ;
        } else {
            assert(s == r);
            assert(s * s <= x);
            assert(x < (s + 1) * (s + 1));
        }
    }
}

/// The floor square root is unique: any `r` bracketing `x` equals `nat_sqrt(x)`.
pub proof fn lemma_nat_sqrt_unique(x: nat, r: nat)
    requires
        r * r <= x,
        x < (r + 1) * (r + 1),
    ensures
        r == nat_sqrt(x),
{
    lemma_nat_sqrt(x);
    let s = nat_sqrt(x);
    if r < s {
        assert(false) by (nonlinear_arith)
            requires
                r < s,
                s * s <= x,
                x < (r + 1) * (r + 1),
            ;
    }
    if s < r {
        assert(false) by (nonlinear_arith)
            requires
                s < r,
                r * r <= x,
                x < (s + 1) * (s + 1),
            ;
    }
}

/// Multiplying by zero yields zero.
pub proof fn lemma_sat_mul_zero(a: int)
    ensures
        sat_mul(a, 0) == 0,
        sat_mul(0, a) == 0,
{
    assert(mag(a) * mag(0) == 0 && mag(0) * mag(a) == 0) by (nonlinear_arith)
        requires
            mag(0) == 0,
    ;
    assert(0int / (FRAC as int) == 0);
    assert(sgn(a) * sgn(0) * 0 == 0 && sgn(0) * sgn(a) * 0 == 0) by (nonlinear_arith);
}

/// An upper bound on the fixed-point square root from a squared bound on
/// the rescaled input.
pub proof fn lemma_sat_sqrt_bound(a: int, b: int)
    requires
        0 < b,
        a * (FRAC as int) < b * b,
    ensures
        sat_sqrt(a) < b,
{
    if a <= 0 {
    } else {
        let x = (a * (FRAC as int)) as nat;
        lemma_nat_sqrt(x);
        let r = nat_sqrt(x);
        if r >= b {
            assert(false) by (nonlinear_arith)
                requires
                    r >= b,
                    b > 0,
                    r * r <= x,
                    x < b * b,
            ;
        }
    }
}

/// Division is monotone in the dividend: a non-negative divisor keeps
/// the order of the dividends, a negative one reverses it. This also
/// holds through the division-by-zero saturation.
pub proof fn lemma_sat_div_monotone(x: int, y: int, d: int)
    requires
        x <= y,
    ensures
        d >= 0 ==> sat_div(x, d) <= sat_div(y, d),
        d < 0 ==> sat_div(y, d) <= sat_div(x, d),
{
    if d != 0 {
        let f = FRAC as int;
        let qx = (mag(x) * f) / mag(d);
        let qy = (mag(y) * f) / mag(d);
        vstd::arithmetic::div_mod::lemma_div_of0(mag(d));
        vstd::arithmetic::div_mod::lemma_div_is_ordered(0, mag(x) * f, mag(d));
        vstd::arithmetic::div_mod::lemma_div_is_ordered(0, mag(y) * f, mag(d));
        assert(mag(x) * f >= 0 && mag(y) * f >= 0) by (nonlinear_arith)
            requires
                mag(x) >= 0 && mag(y) >= 0 && f > 0,
        ;
        if 0 <= x {
            assert(mag(x) * f <= mag(y) * f) by (nonlinear_arith)
                requires
                    0 <= mag(x) <= mag(y),
                    f > 0,
            ;
            vstd::arithmetic::div_mod::lemma_div_is_ordered(mag(x) * f, mag(y) * f, mag(d));
        } else if y <= 0 {
            assert(mag(y) * f <= mag(x) * f) by (nonlinear_arith)
                requires
                    0 <= mag(y) <= mag(x),
                    f > 0,
            ;
            vstd::arithmetic::div_mod::lemma_div_is_ordered(mag(y) * f, mag(x) * f, mag(d));
        }
        if x == 0 {
            assert(mag(x) * f == 0) by (nonlinear_arith)
                requires
                    mag(x) == 0,
            ;
            assert(qx == 0);
        }
        if y == 0 {
            assert(mag(y) * f == 0) by (nonlinear_arith)
                requires
                    mag(y) == 0,
            ;
            assert(qy == 0);
        }
        lemma_sign_cases(x, d, (x < 0) != (d < 0), qx, qx);
        lemma_sign_cases(y, d, (y < 0) != (d < 0), qy, qy);
        assert(sat_div(x, d) == clip(
            if (x < 0) != (d < 0) {
                -qx
            } else {
                qx
            },
        ));
        assert(sat_div(y, d) == clip(
            if (y < 0) != (d < 0) {
                -qy
            } else {
                qy
            },
        ));
    }
}
#[derive(Clone, Copy, Debug, PartialEq, Eq, Structural)]
pub struct Scalar {
    pub v: i64,
}

impl View for Scalar {
    type V = int;

    open spec fn view(&self) -> int {
        self.v as int
    }
}

/// Clip a wide intermediate result back into the raw range.
fn clip_i128(x: i128) -> (r: i64)
    ensures
        r as int == clip(x as int),
{
    if x > i64::MAX as i128 {
        i64::MAX
    } else if x < -(i64::MAX as i128) {
        -i64::MAX
    } else {
        x as i64
    }
}

/// Magnitude of a raw value, as an unsigned wide integer.
fn mag_u128(v: i64) -> (r: u128)
    ensures
        r as int == mag(v as int),
        r <= 0x8000_0000_0000_0000u128,
{
    if v < 0 {
        (-(v as i128)) as u128
    } else {
        v as u128
    }
}

/// Rebuild a scalar from a sign and a wide magnitude, clipping.
fn from_sign_mag(neg: bool, q: u128) -> (r: Scalar)
    ensures
        r@ == clip(if neg { -(q as int) } else { q as int }),
{
    if q > i64::MAX as u128 {
        if neg {
            Scalar { v: -i64::MAX }
        } else {
            Scalar { v: i64::MAX }
        }
    } else {
        if neg {
            Scalar { v: -(q as i64) }
        } else {
            Scalar { v: q as i64 }
        }
    }
}

impl Scalar {
    /// The scalar 0.
    pub fn zero() -> (r: Scalar)
        ensures
            r@ == 0,
    {
        Scalar { v: 0 }
    }

    /// The scalar 1.
    pub fn one() -> (r: Scalar)
        ensures
            r@ == FRAC as int,
    {
        Scalar { v: FRAC }
    }

    /// The largest representable scalar, standing in for +infinity.
    pub fn max_value() -> (r: Scalar)
        ensures
            r@ == i64::MAX as int,
    {
        Scalar { v: i64::MAX }
    }

    /// A scalar from its raw fixed-point representation.
    pub fn from_raw(v: i64) -> (r: Scalar)
        ensures
            r@ == v as int,
    {
        Scalar { v }
    }

    /// A scalar from an integer, saturating.
    pub fn from_int(n: i64) -> (r: Scalar)
        ensures
            r@ == clip(n * (FRAC as int)),
    {
        assert((n as i128) * (FRAC as i128) <= 0x8000_0000_0000_0000i128 * 65536
            && (n as i128) * (FRAC as i128) >= (-0x8000_0000_0000_0000i128) * 65536)
            by (nonlinear_arith)
            requires
                -0x8000_0000_0000_0000i128 <= n as i128 <= 0x8000_0000_0000_0000i128,
        ;
        Scalar { v: clip_i128((n as i128) * (FRAC as i128)) }
    }

    /// Raw fixed-point representation.
    pub fn raw(self) -> (r: i64)
        ensures
            r as int == self@,
    {
        self.v
    }

    /// Saturating addition.
    pub fn add(self, o: Scalar) -> (r: Scalar)
        ensures
            r@ == sat_add(self@, o@),
    {
        Scalar { v: clip_i128(self.v as i128 + o.v as i128) }
    }

    /// Saturating subtraction.
    pub fn sub(self, o: Scalar) -> (r: Scalar)
        ensures
            r@ == sat_sub(self@, o@),
    {
        Scalar { v: clip_i128(self.v as i128 - o.v as i128) }
    }

    /// Saturating negation.
    pub fn neg(self) -> (r: Scalar)
        ensures
            r@ == sat_neg(self@),
    {
        Scalar { v: clip_i128(-(self.v as i128)) }
    }

    /// Saturating fixed-point multiplication.
    pub fn mul(self, o: Scalar) -> (r: Scalar)
        ensures
            r@ == sat_mul(self@, o@),
    {
        let neg = (self.v < 0) != (o.v < 0);
        let ma = mag_u128(self.v);
        let mb = mag_u128(o.v);
        assert(ma * mb <= 0x8000_0000_0000_0000u128 * 0x8000_0000_0000_0000u128)
            by (nonlinear_arith)
            requires
                ma <= 0x8000_0000_0000_0000u128,
                mb <= 0x8000_0000_0000_0000u128,
        ;
        let q: u128 = (ma * mb) / (FRAC as u128);
        let r = from_sign_mag(neg, q);
        proof {
            lemma_signed_product(self@, o@, neg, q as int);
        }
        r
    }

    /// Saturating fixed-point division; division by zero saturates with
    /// the dividend's sign, and `0 / 0 == 0`.
    pub fn div(self, o: Scalar) -> (r: Scalar)
        ensures
            r@ == sat_div(self@, o@),
    {
        if o.v == 0 {
            if self.v > 0 {
                Scalar { v: i64::MAX }
            } else if self.v < 0 {
                Scalar { v: -i64::MAX }
            } else {
                Scalar { v: 0 }
            }
        } else {
            let neg = (self.v < 0) != (o.v < 0);
            let ma = mag_u128(self.v);
            let mb = mag_u128(o.v);
            assert(ma * (FRAC as u128) <= 0x8000_0000_0000_0000u128 * 65536u128)
                by (nonlinear_arith)
                requires
                    ma <= 0x8000_0000_0000_0000u128,
            ;
            let q: u128 = (ma * (FRAC as u128)) / mb;
            let r = from_sign_mag(neg, q);
            proof {
                lemma_signed_quotient(self@, o@, neg, q as int);
            }
            r
        }
    }

    /// Fixed-point square root: zero on non-positive input.
    pub fn sqrt(self) -> (r: Scalar)
        ensures
            r@ == sat_sqrt(self@),
    {
        if self.v <= 0 {
            Scalar { v: 0 }
        } else {
            let x: u128 = (self.v as u128) * (FRAC as u128);
            let root = isqrt_u128(x);
            proof {
                lemma_nat_sqrt_unique(x as nat, root as nat);
                assert(root * root <= x);
                assert(x < 0x1_0000_0000_0000_0000_0000u128);
                assert(root < 0x8000_0000_0000_0000u128) by (nonlinear_arith)
                    requires
                        root * root <= x,
                        x < 0x1_0000_0000_0000_0000_0000u128,
                ;
            }
            Scalar { v: root as i64 }
        }
    }

    /// Magnitude, clipped.
    pub fn abs(self) -> (r: Scalar)
        ensures
            r@ == clip(mag(self@)),
    {
        if self.v < 0 {
            self.neg()
        } else {
            self
        }
    }

    /// Strictly less than.
    pub fn lt(self, o: Scalar) -> (r: bool)
        ensures
            r == (self@ < o@),
    {
        self.v < o.v
    }

    /// Less than or equal.
    pub fn le(self, o: Scalar) -> (r: bool)
        ensures
            r == (self@ <= o@),
    {
        self.v <= o.v
    }

    /// Strictly greater than.
    pub fn gt(self, o: Scalar) -> (r: bool)
        ensures
            r == (self@ > o@),
    {
        self.v > o.v
    }
}

/// Euclidean division of a raw value by a positive divisor: the floor
/// quotient and a remainder in `[0, d)`.
pub fn euclid_div_mod(v: i64, d: i64) -> (r: (i64, i64))
    requires
        2 <= d,
    ensures
        r.0 as int == (v as int) / (d as int),
        r.1 as int == (v as int) % (d as int),
        -0x4000_0000_0000_0001i64 <= r.0 <= 0x4000_0000_0000_0000i64,
{
    if v >= 0 {
        let qq: u64 = (v as u64) / (d as u64);
        let mm: u64 = (v as u64) % (d as u64);
        proof {
            vstd::arithmetic::div_mod::lemma_fundamental_div_mod(v as int, d as int);
            assert(qq <= 0x4000_0000_0000_0000u64) by (nonlinear_arith)
                requires
                    v as int == (d as int) * (qq as int) + (mm as int),
                    d >= 2,
                    mm >= 0,
                    qq >= 0,
                    v <= 0x7fff_ffff_ffff_ffffi64,
            ;
        }
        (qq as i64, mm as i64)
    } else {
        let a: u128 = (-(v as i128)) as u128;
        let qq: u128 = a / (d as u128);
        let mm: u128 = a % (d as u128);
        proof {
            vstd::arithmetic::div_mod::lemma_fundamental_div_mod(a as int, d as int);
            assert(a as int == (d as int) * (qq as int) + (mm as int));
            assert(qq <= 0x4000_0000_0000_0000u128) by (nonlinear_arith)
                requires
                    a as int == (d as int) * (qq as int) + (mm as int),
                    d >= 2,
                    mm >= 0,
                    a <= 0x8000_0000_0000_0000u128,
            ;
        }
        let q = qq as i64;
        let m = mm as i64;
        if m == 0 {
            proof {
                assert(v as int == (-(q as int)) * (d as int) + 0) by (nonlinear_arith)
                    requires
                        a as int == (d as int) * (q as int) + (m as int),
                        m == 0,
                        v as int == -(a as int),
                ;
                vstd::arithmetic::div_mod::lemma_fundamental_div_mod_converse(
                    v as int,
                    d as int,
                    -(q as int),
                    0,
                );
            }
            (-q, 0)
        } else {
            proof {
                assert(v as int == (-(q as int) - 1) * (d as int) + ((d as int) - (m as int)))
                    by (nonlinear_arith)
                    requires
                        a as int == (d as int) * (q as int) + (m as int),
                        v as int == -(a as int),
                ;
                vstd::arithmetic::div_mod::lemma_fundamental_div_mod_converse(
                    v as int,
                    d as int,
                    -(q as int) - 1,
                    (d as int) - (m as int),
                );
            }
            (-q - 1, d - m)
        }
    }
}

/// The larger of two scalars, preferring the second on ties as the
/// float comparison idiom of the slab test does.
pub fn ffmax(a: Scalar, b: Scalar) -> (r: Scalar)
    ensures
        r@ == if a@ > b@ { a@ } else { b@ },
{
    if a.v > b.v {
        a
    } else {
        b
    }
}

/// The smaller of two scalars, preferring the second on ties.
pub fn ffmin(a: Scalar, b: Scalar) -> (r: Scalar)
    ensures
        r@ == if a@ < b@ { a@ } else { b@ },
{
    if a.v < b.v {
        a
    } else {
        b
    }
}

/// Relates the magnitude-and-sign computation to the signed spec product.
proof fn lemma_signed_product(a: int, b: int, neg: bool, q: int)
    requires
        q == (mag(a) * mag(b)) / (FRAC as int),
        neg == ((a < 0) != (b < 0)),
    ensures
        clip(if neg { -q } else { q }) == sat_mul(a, b),
{
    if a == 0 || b == 0 {
        assert(mag(a) * mag(b) == 0) by (nonlinear_arith)
            requires
                mag(a) == 0 || mag(b) == 0,
        ;
        assert(q == 0int / (FRAC as int));
    }
    lemma_sign_cases(a, b, neg, q, (mag(a) * mag(b)) / (FRAC as int));
}

/// Relates the magnitude-and-sign computation to the signed spec quotient.
proof fn lemma_signed_quotient(a: int, b: int, neg: bool, q: int)
    requires
        b != 0,
        q == (mag(a) * (FRAC as int)) / mag(b),
        neg == ((a < 0) != (b < 0)),
    ensures
        clip(if neg { -q } else { q }) == sat_div(a, b),
{
    if a == 0 {
        assert(mag(a) * (FRAC as int) == 0) by (nonlinear_arith)
            requires
                mag(a) == 0,
        ;
        assert(q == 0int / mag(b));
        vstd::arithmetic::div_mod::lemma_div_of0(mag(b));
    }
    lemma_sign_cases(a, b, neg, q, (mag(a) * (FRAC as int)) / mag(b));
}

/// Case split over the signs of `a` and `b`: applying the sign of the
/// product to a non-negative quotient `q` equals `sgn(a) * sgn(b) * q`.
proof fn lemma_sign_cases(a: int, b: int, neg: bool, q: int, q2: int)
    requires
        q == q2,
        q >= 0,
        a != 0 && b != 0 ==> neg == ((a < 0) != (b < 0)),
        a == 0 || b == 0 ==> q == 0,
    ensures
        (if neg { -q } else { q }) == sgn(a) * sgn(b) * q2,
{
    if a == 0 || b == 0 {
        assert(sgn(a) * sgn(b) * q2 == 0) by (nonlinear_arith)
            requires
                q2 == 0,
        ;
    } else if a > 0 && b > 0 {
        assert(sgn(a) == 1 && sgn(b) == 1);
        assert(1int * 1int * q2 == q2) by (nonlinear_arith);
    } else if a > 0 && b < 0 {
        assert(sgn(a) == 1 && sgn(b) == -1);
        assert(1int * (-1int) * q2 == -q2) by (nonlinear_arith);
    } else if a < 0 && b > 0 {
        assert(sgn(a) == -1 && sgn(b) == 1);
        assert((-1int) * 1int * q2 == -q2) by (nonlinear_arith);
    } else {
        assert(sgn(a) == -1 && sgn(b) == -1);
        assert((-1int) * (-1int) * q2 == q2) by (nonlinear_arith);
    }
}

/// Floor square root of a wide unsigned integer by bisection.
fn isqrt_u128(x: u128) -> (r: u128)
    requires
        x < 0x1_0000_0000_0000_0000_0000_0000u128,
    ensures
        r * r <= x,
        x < (r + 1) * (r + 1),
{
    let mut lo: u128 = 0;
    let mut hi: u128 = 0x1_0000_0000_0000u128;
    assert(hi * hi > x) by (nonlinear_arith)
        requires
            hi == 0x1_0000_0000_0000u128,
            x < 0x1_0000_0000_0000_0000_0000_0000u128,
    ;
    while lo + 1 < hi
        invariant
            lo < hi,
            hi <= 0x1_0000_0000_0000u128,
            lo * lo <= x,
            x < hi * hi,
        decreases hi - lo,
    {
        let mid = lo + (hi - lo) / 2;
        assert(mid * mid < 0x1_0000_0000_0000_0000_0000_0000_0000u128)
            by (nonlinear_arith)
            requires
                mid <= 0x1_0000_0000_0000u128,
        ;
        if mid * mid <= x {
            lo = mid;
        } else {
            hi = mid;
        }
    }
    lo
}

} // verus!
