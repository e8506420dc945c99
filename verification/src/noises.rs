//! Perlin-style gradient noise: three shuffled permutation tables, a
//! table of random unit gradients, and smooth trilinear interpolation of
//! gradient dot products. Given its tables, the noise is an exact
//! function of the query point; only the tables' construction draws
//! randomness.

use vstd::prelude::*;

use crate::rng::{rng_below, shuffle_u32};
use crate::scalar::{
    euclid_div_mod, sat_add, sat_mul, sat_sub, Scalar, FRAC, HALF_RAW,
};
use crate::vec3::{v3, v3_dot, v3_scale, Vec3};

verus! {

/// The ease curve `x * x * (3 - 2 x)` that smooths the interpolation.
pub open spec fn ease_spec(x: int) -> int {
    sat_mul(sat_mul(x, x), sat_sub(3 * (FRAC as int), sat_mul(2 * (FRAC as int), x)))
}

/// The ease curve, smoothing a fraction toward its nearer end.
pub fn ease_in_out(x: Scalar) -> (r: Scalar)
    ensures
        r@ == ease_spec(x@),
{
    x.mul(x).mul(Scalar::from_raw(3 * FRAC).sub(Scalar::from_raw(2 * FRAC).mul(x)))
}

/// One interpolation coefficient: `sel * e + (1 - sel) * (1 - e)`, with
/// `sel` either zero or one selecting a cell corner.
pub open spec fn interp_coeff(sel: int, e: int) -> int {
    sat_add(sat_mul(sel, e), sat_mul(sat_sub(FRAC as int, sel), sat_sub(FRAC as int, e)))
}

/// One interpolation coefficient.
fn coeff(sel: Scalar, e: Scalar) -> (r: Scalar)
    ensures
        r@ == interp_coeff(sel@, e@),
{
    sel.mul(e).add(Scalar::one().sub(sel).mul(Scalar::one().sub(e)))
}

/// One corner's contribution: the product of the three coefficients
/// times the gradient's dot product with the offset to the corner.
pub open spec fn interp_term(
    c: Vec3,
    si: int,
    sj: int,
    sk: int,
    uu: int,
    vv: int,
    ww: int,
    u: int,
    v: int,
    w: int,
) -> int {
    let weight = v3(sat_sub(u, si), sat_sub(v, sj), sat_sub(w, sk));
    sat_mul(
        sat_mul(sat_mul(interp_coeff(si, uu), interp_coeff(sj, vv)), interp_coeff(sk, ww)),
        v3_dot(c, weight),
    )
}

/// The trilinear interpolation over the eight corner gradients, the
/// corners accumulated in the order the corner indices count up.
pub open spec fn perlin_interp_spec(
    c000: Vec3,
    c001: Vec3,
    c010: Vec3,
    c011: Vec3,
    c100: Vec3,
    c101: Vec3,
    c110: Vec3,
    c111: Vec3,
    u: int,
    v: int,
    w: int,
) -> int {
    let f = FRAC as int;
    let uu = ease_spec(u);
    let vv = ease_spec(v);
    let ww = ease_spec(w);
    let a0 = sat_add(0, interp_term(c000, 0, 0, 0, uu, vv, ww, u, v, w));
    let a1 = sat_add(a0, interp_term(c001, 0, 0, f, uu, vv, ww, u, v, w));
    let a2 = sat_add(a1, interp_term(c010, 0, f, 0, uu, vv, ww, u, v, w));
    let a3 = sat_add(a2, interp_term(c011, 0, f, f, uu, vv, ww, u, v, w));
    let a4 = sat_add(a3, interp_term(c100, f, 0, 0, uu, vv, ww, u, v, w));
    let a5 = sat_add(a4, interp_term(c101, f, 0, f, uu, vv, ww, u, v, w));
    let a6 = sat_add(a5, interp_term(c110, f, f, 0, uu, vv, ww, u, v, w));
    sat_add(a6, interp_term(c111, f, f, f, uu, vv, ww, u, v, w))
}

/// One corner's contribution.
fn term(c: Vec3, si: Scalar, sj: Scalar, sk: Scalar, uu: Scalar, vv: Scalar, ww: Scalar,
    u: Scalar, v: Scalar, w: Scalar) -> (r: Scalar)
    ensures
        r@ == interp_term(c, si@, sj@, sk@, uu@, vv@, ww@, u@, v@, w@),
{
    let weight = Vec3::new(u.sub(si), v.sub(sj), w.sub(sk));
    coeff(si, uu).mul(coeff(sj, vv)).mul(coeff(sk, ww)).mul(c.dot(weight))
}

/// Interpolate the eight corner gradients of a cell.
pub fn perlin_interp(
    c000: Vec3,
    c001: Vec3,
    c010: Vec3,
    c011: Vec3,
    c100: Vec3,
    c101: Vec3,
    c110: Vec3,
    c111: Vec3,
    u: Scalar,
    v: Scalar,
    w: Scalar,
) -> (r: Scalar)
    ensures
        r@ == perlin_interp_spec(c000, c001, c010, c011, c100, c101, c110, c111, u@, v@, w@),
{
    let z = Scalar::zero();
    let f = Scalar::one();
    let uu = ease_in_out(u);
    let vv = ease_in_out(v);
    let ww = ease_in_out(w);
    let mut acc = Scalar::zero();
    acc = acc.add(term(c000, z, z, z, uu, vv, ww, u, v, w));
    acc = acc.add(term(c001, z, z, f, uu, vv, ww, u, v, w));
    acc = acc.add(term(c010, z, f, z, uu, vv, ww, u, v, w));
    acc = acc.add(term(c011, z, f, f, uu, vv, ww, u, v, w));
    acc = acc.add(term(c100, f, z, z, uu, vv, ww, u, v, w));
    acc = acc.add(term(c101, f, z, f, uu, vv, ww, u, v, w));
    acc = acc.add(term(c110, f, f, z, uu, vv, ww, u, v, w));
    acc = acc.add(term(c111, f, f, f, uu, vv, ww, u, v, w));
    acc
}

/// Gradient noise over three shuffled permutation tables and a table of
/// random unit gradients.
#[derive(Clone, Debug)]
pub struct Perlin {
    pub perm_x: Vec<u32>,
    pub perm_y: Vec<u32>,
    pub perm_z: Vec<u32>,
    pub ran_vec: Vec<Vec3>,
}

/// The tables have their fixed size and every permutation entry indexes
/// into the gradient table.
pub open spec fn perlin_wf(p: Perlin) -> bool {
    p.perm_x@.len() == 256 && p.perm_y@.len() == 256 && p.perm_z@.len() == 256
        && p.ran_vec@.len() == 256 && (forall|i: int| 0 <= i < 256 ==> p.perm_x@[i] < 256) && (
    forall|i: int| 0 <= i < 256 ==> p.perm_y@[i] < 256) && (forall|i: int|
        0 <= i < 256 ==> p.perm_z@[i] < 256)
}

/// A shuffled table of the numbers below 256.
fn perlin_generate_perm(rng: &mut rand::rngs::StdRng) -> (v: Vec<u32>)
    ensures
        v@.len() == 256,
        forall|i: int| 0 <= i < 256 ==> v@[i] < 256,
{
    let mut p: Vec<u32> = Vec::new();
    let mut i: u32 = 0;
    while i < 256
        invariant
            p@.len() == i,
            i <= 256,
            forall|k: int| 0 <= k < i ==> p@[k] == k,
        decreases 256 - i,
    {
        p.push(i);
        i = i + 1;
    }
    let ghost pre = p@;
    shuffle_u32(&mut p, rng);
    proof {
        vstd::seq_lib::to_multiset_len(pre);
        vstd::seq_lib::to_multiset_len(p@);
        assert forall|k: int| 0 <= k < p@.len() implies p@[k] < 256 by {
            vstd::seq_lib::to_multiset_contains(p@, p@[k]);
            assert(p@.contains(p@[k]));
            vstd::seq_lib::to_multiset_contains(pre, p@[k]);
            assert(pre.contains(p@[k]));
            let j = choose|j: int| 0 <= j < pre.len() && pre[j] == p@[k];
            assert(pre[j] == j);
        }
    }
    p
}

/// A table of 256 random unit gradients, each drawn with coordinates in
/// `[-1, 1)` and normalized.
fn perlin_generate(rng: &mut rand::rngs::StdRng) -> (v: Vec<Vec3>)
    ensures
        v@.len() == 256,
{
    let mut p: Vec<Vec3> = Vec::new();
    let mut n: usize = 0;
    while n < 256
        invariant
            p@.len() == n,
            n <= 256,
        decreases 256 - n,
    {
        let minus_one = Scalar::from_int(-1);
        let two = Scalar::from_int(2);
        let g1 = Scalar::from_raw(rng_below(rng, 65536) as i64);
        let g2 = Scalar::from_raw(rng_below(rng, 65536) as i64);
        let g3 = Scalar::from_raw(rng_below(rng, 65536) as i64);
        let rand_vec = Vec3::new(
            minus_one.add(two.mul(g1)),
            minus_one.add(two.mul(g2)),
            minus_one.add(two.mul(g3)),
        ).unit_vector();
        p.push(rand_vec);
        n = n + 1;
    }
    p
}

/// The gradient at the cell corner `(a, b, c)`: the three permutation
/// tables are read at the coordinates folded into the table size, and
/// their entries are combined by exclusive-or into a gradient index.
pub open spec fn corner_spec(p: Perlin, a: int, b: int, c: int) -> Vec3 {
    p.ran_vec@[(p.perm_x@[a % 256] ^ p.perm_y@[b % 256] ^ p.perm_z@[c % 256]) as int]
}

/// What the noise answers at a point: the fractional parts of the
/// coordinates select a position inside a unit cell, the floors select
/// the cell, and the eight corner gradients are interpolated.
pub open spec fn noise_spec(p: Perlin, pt: Vec3) -> int {
    let f = FRAC as int;
    let u = pt.x@ % f;
    let v = pt.y@ % f;
    let w = pt.z@ % f;
    let i = pt.x@ / f;
    let j = pt.y@ / f;
    let k = pt.z@ / f;
    perlin_interp_spec(
        corner_spec(p, i, j, k),
        corner_spec(p, i, j, k + 1),
        corner_spec(p, i, j + 1, k),
        corner_spec(p, i, j + 1, k + 1),
        corner_spec(p, i + 1, j, k),
        corner_spec(p, i + 1, j, k + 1),
        corner_spec(p, i + 1, j + 1, k),
        corner_spec(p, i + 1, j + 1, k + 1),
        u,
        v,
        w,
    )
}

/// The accumulation of `rounds` octaves of noise: each round adds the
/// weighted noise at the running point, then doubles the point and
/// halves the weight.
pub open spec fn turb_acc(p: Perlin, pt: Vec3, weight: int, acc: int, rounds: nat) -> int
    decreases rounds,
{
    if rounds == 0 {
        acc
    } else {
        turb_acc(
            p,
            v3_scale(pt, 2 * (FRAC as int)),
            sat_mul(weight, HALF_RAW as int),
            sat_add(acc, sat_mul(weight, noise_spec(p, pt))),
            (rounds - 1) as nat,
        )
    }
}

/// What the turbulence answers: the magnitude of seven accumulated
/// octaves.
pub open spec fn turb_spec(p: Perlin, pt: Vec3) -> int {
    crate::scalar::clip(crate::scalar::mag(turb_acc(p, pt, FRAC as int, 0, 7)))
}

impl Perlin {
    /// Fresh noise tables drawn from the generator.
    pub fn new(rng: &mut rand::rngs::StdRng) -> (p: Perlin)
        ensures
            perlin_wf(p),
    {
        Perlin {
            perm_x: perlin_generate_perm(rng),
            perm_y: perlin_generate_perm(rng),
            perm_z: perlin_generate_perm(rng),
            ran_vec: perlin_generate(rng),
        }
    }

    /// The gradient at a cell corner.
    fn corner(&self, a: i64, b: i64, c: i64) -> (r: Vec3)
        requires
            perlin_wf(*self),
            i64::MIN < a,
            i64::MIN < b,
            i64::MIN < c,
        ensures
            r == corner_spec(*self, a as int, b as int, c as int),
    {
        let (_, ia) = euclid_div_mod(a, 256);
        let (_, ib) = euclid_div_mod(b, 256);
        let (_, ic) = euclid_div_mod(c, 256);
        let xa = self.perm_x[ia as usize];
        let xb = self.perm_y[ib as usize];
        let xc = self.perm_z[ic as usize];
        let idx = xa ^ xb ^ xc;
        proof {
            assert(xa < 256 && xb < 256 && xc < 256 ==> (xa ^ xb ^ xc) < 256) by (bit_vector);
        }
        self.ran_vec[idx as usize]
    }

    /// The noise at a point: an exact function of the tables and the
    /// point.
    pub fn noise(&self, p: Vec3) -> (r: Scalar)
        requires
            perlin_wf(*self),
        ensures
            r@ == noise_spec(*self, p),
    {
        let (i, ur) = euclid_div_mod(p.x.raw(), FRAC);
        let (j, vr) = euclid_div_mod(p.y.raw(), FRAC);
        let (k, wr) = euclid_div_mod(p.z.raw(), FRAC);
        let u = Scalar::from_raw(ur);
        let v = Scalar::from_raw(vr);
        let w = Scalar::from_raw(wr);
        let c000 = self.corner(i, j, k);
        let c001 = self.corner(i, j, k + 1);
        let c010 = self.corner(i, j + 1, k);
        let c011 = self.corner(i, j + 1, k + 1);
        let c100 = self.corner(i + 1, j, k);
        let c101 = self.corner(i + 1, j, k + 1);
        let c110 = self.corner(i + 1, j + 1, k);
        let c111 = self.corner(i + 1, j + 1, k + 1);
        perlin_interp(c000, c001, c010, c011, c100, c101, c110, c111, u, v, w)
    }

    /// Seven octaves of noise, accumulated with halving weights over a
    /// doubling point, taken by magnitude.
    pub fn turb(&self, p: Vec3) -> (r: Scalar)
        requires
            perlin_wf(*self),
        ensures
            r@ == turb_spec(*self, p),
    {
        let depth: u32 = 7;
        let mut tmp_p = p;
        let mut weight = Scalar::one();
        let mut acc = Scalar::zero();
        let mut round: u32 = 0;
        while round < depth
            invariant
                round <= depth,
                perlin_wf(*self),
                turb_acc(*self, tmp_p, weight@, acc@, (depth - round) as nat) == turb_acc(
                    *self,
                    p,
                    FRAC as int,
                    0,
                    7,
                ),
            decreases depth - round,
        {
            acc = acc.add(weight.mul(self.noise(tmp_p)));
            tmp_p = tmp_p.scale(Scalar::from_int(2));
            weight = weight.mul(Scalar::from_raw(HALF_RAW));
            round = round + 1;
        }
        acc.abs()
    }
}

} // verus!
