//! Axis-aligned bounding boxes with the slab intersection test and the
//! merge operation used throughout tree construction.
//!
//! The slab test divides by the ray's direction component on each axis.
//! A zero component saturates by the fixed-point division rule, which
//! plays the role of the signed infinities the float version relies on.

use vstd::prelude::*;

use crate::ray::Ray;
use crate::scalar::{ffmax, ffmin, sat_div, sat_sub, Scalar};
use crate::vec3::{sv, v3_axis, Vec3};

verus! {

/// An axis-aligned box; well-formed boxes satisfy `min[i] <= max[i]`.
#[derive(Clone, Copy, Debug, PartialEq, Eq, Structural)]
pub struct Aabb {
    pub min: Vec3,
    pub max: Vec3,
}

/// `min[i] <= max[i]` on every axis.
pub open spec fn aabb_wf(b: Aabb) -> bool {
    b.min.x@ <= b.max.x@ && b.min.y@ <= b.max.y@ && b.min.z@ <= b.max.z@
}

/// The slab parameter of the ray against one bounding plane on an axis.
pub open spec fn slab_t(b: Vec3, r: Ray, a: int) -> int {
    sat_div(sat_sub(v3_axis(b, a), v3_axis(r.origin, a)), v3_axis(r.direction, a))
}

/// The smaller of the two slab parameters on an axis.
pub open spec fn slab_lo(b: Aabb, r: Ray, a: int) -> int {
    let p = slab_t(b.min, r, a);
    let q = slab_t(b.max, r, a);
    if p < q {
        p
    } else {
        q
    }
}

/// The larger of the two slab parameters on an axis.
pub open spec fn slab_hi(b: Aabb, r: Ray, a: int) -> int {
    let p = slab_t(b.min, r, a);
    let q = slab_t(b.max, r, a);
    if p > q {
        p
    } else {
        q
    }
}

/// The slab test from axis `a` on, with the running interval `[tmin, tmax]`:
/// each axis tightens the interval; an empty interval means no hit.
/// Opaque: proofs above the box level treat it as an abstract predicate.
#[verifier::opaque]
pub open spec fn aabb_hit_from(b: Aabb, r: Ray, a: int, tmin: int, tmax: int) -> bool
    decreases 3 - a,
{
    if a >= 3 {
        true
    } else {
        let lo = slab_lo(b, r, a);
        let hi = slab_hi(b, r, a);
        let nmin = if lo > tmin {
            lo
        } else {
            tmin
        };
        let nmax = if hi < tmax {
            hi
        } else {
            tmax
        };
        if nmax <= nmin {
            false
        } else {
            aabb_hit_from(b, r, a + 1, nmin, nmax)
        }
    }
}

/// Whether the ray crosses the box within the parameter interval.
pub open spec fn aabb_hit(b: Aabb, r: Ray, tmin: int, tmax: int) -> bool {
    aabb_hit_from(b, r, 0, tmin, tmax)
}

/// The smallest box containing both arguments: component-wise minimum of
/// the minima and maximum of the maxima.
pub open spec fn box_union(a: Aabb, b: Aabb) -> Aabb {
    Aabb {
        min: Vec3 {
            x: sv(if a.min.x@ < b.min.x@ { a.min.x@ } else { b.min.x@ }),
            y: sv(if a.min.y@ < b.min.y@ { a.min.y@ } else { b.min.y@ }),
            z: sv(if a.min.z@ < b.min.z@ { a.min.z@ } else { b.min.z@ }),
        },
        max: Vec3 {
            x: sv(if a.max.x@ > b.max.x@ { a.max.x@ } else { b.max.x@ }),
            y: sv(if a.max.y@ > b.max.y@ { a.max.y@ } else { b.max.y@ }),
            z: sv(if a.max.z@ > b.max.z@ { a.max.z@ } else { b.max.z@ }),
        },
    }
}

/// The merge lifted over optional boxes: both present means merged, one
/// present means that one, neither means absent.
pub open spec fn opt_union(a: Option<Aabb>, b: Option<Aabb>) -> Option<Aabb> {
    match (a, b) {
        (Some(x), Some(y)) => Some(box_union(x, y)),
        (Some(x), None) => Some(x),
        (None, Some(y)) => Some(y),
        (None, None) => None,
    }
}

/// `outer` contains every point of `inner`, component-wise; in particular
/// it contains all of `inner`'s corners.
pub open spec fn contains_box(outer: Aabb, inner: Aabb) -> bool {
    outer.min.x@ <= inner.min.x@ && inner.max.x@ <= outer.max.x@
        && outer.min.y@ <= inner.min.y@ && inner.max.y@ <= outer.max.y@
        && outer.min.z@ <= inner.min.z@ && inner.max.z@ <= outer.max.z@
}

/// The merged box contains both of its arguments, and stays well-formed.
pub proof fn lemma_box_union_contains(a: Aabb, b: Aabb)
    ensures
        contains_box(box_union(a, b), a),
        contains_box(box_union(a, b), b),
        aabb_wf(a) && aabb_wf(b) ==> aabb_wf(box_union(a, b)),
{
}

/// On each axis, a containing box opens the slab interval outward: its
/// lower slab parameter is no larger and its upper one no smaller than
/// the contained box's.
pub proof fn lemma_slab_monotone_axis(outer: Aabb, inner: Aabb, r: Ray, a: int)
    requires
        contains_box(outer, inner),
        aabb_wf(inner),
    ensures
        slab_lo(outer, r, a) <= slab_lo(inner, r, a),
        slab_hi(inner, r, a) <= slab_hi(outer, r, a),
{
    let d = v3_axis(r.direction, a);
    let o = v3_axis(r.origin, a);
    let no_min = sat_sub(v3_axis(outer.min, a), o);
    let ni_min = sat_sub(v3_axis(inner.min, a), o);
    let ni_max = sat_sub(v3_axis(inner.max, a), o);
    let no_max = sat_sub(v3_axis(outer.max, a), o);
    crate::scalar::lemma_sat_div_monotone(no_min, ni_min, d);
    crate::scalar::lemma_sat_div_monotone(ni_min, ni_max, d);
    crate::scalar::lemma_sat_div_monotone(ni_max, no_max, d);
}

/// The slab test is monotone: when a box contains another and the query
/// interval widens, a hit of the contained box is a hit of the
/// containing box. This is what makes the tree's pruning sound, given
/// boxes that really contain their primitives.
pub proof fn lemma_aabb_hit_monotone(
    outer: Aabb,
    inner: Aabb,
    r: Ray,
    a: int,
    lo_o: int,
    hi_o: int,
    lo_i: int,
    hi_i: int,
)
    requires
        contains_box(outer, inner),
        aabb_wf(inner),
        lo_o <= lo_i,
        hi_i <= hi_o,
        aabb_hit_from(inner, r, a, lo_i, hi_i),
    ensures
        aabb_hit_from(outer, r, a, lo_o, hi_o),
    decreases 3 - a,
{
    reveal(aabb_hit_from);
    if a < 3 {
        lemma_slab_monotone_axis(outer, inner, r, a);
        let lo2_i = if slab_lo(inner, r, a) > lo_i {
            slab_lo(inner, r, a)
        } else {
            lo_i
        };
        let hi2_i = if slab_hi(inner, r, a) < hi_i {
            slab_hi(inner, r, a)
        } else {
            hi_i
        };
        let lo2_o = if slab_lo(outer, r, a) > lo_o {
            slab_lo(outer, r, a)
        } else {
            lo_o
        };
        let hi2_o = if slab_hi(outer, r, a) < hi_o {
            slab_hi(outer, r, a)
        } else {
            hi_o
        };
        assert(lo2_o <= lo2_i && hi2_i <= hi2_o);
        lemma_aabb_hit_monotone(outer, inner, r, a + 1, lo2_o, hi2_o, lo2_i, hi2_i);
    }
}

impl Aabb {
    /// The slab test: tighten `[tmin, tmax]` by the ray's parameter
    /// interval against the bounding planes of each axis in turn; report
    /// a hit when the interval stays non-empty throughout.
    pub fn hit(&self, r: &Ray, tmin: Scalar, tmax: Scalar) -> (res: bool)
        ensures
            res == aabb_hit(*self, *r, tmin@, tmax@),
    {
        proof {
            reveal(aabb_hit_from);
        }
        let mut lo = tmin;
        let mut hi = tmax;
        let mut a: usize = 0;
        while a < 3
            invariant
                a <= 3,
                aabb_hit(*self, *r, tmin@, tmax@) == aabb_hit_from(
                    *self,
                    *r,
                    a as int,
                    lo@,
                    hi@,
                ),
            decreases 3 - a,
        {
            proof {
                reveal(aabb_hit_from);
            }
            let min_t = self.min.axis(a).sub(r.origin.axis(a)).div(r.direction.axis(a));
            let max_t = self.max.axis(a).sub(r.origin.axis(a)).div(r.direction.axis(a));
            let t0 = ffmin(min_t, max_t);
            let t1 = ffmax(min_t, max_t);
            lo = ffmax(t0, lo);
            hi = ffmin(t1, hi);
            if hi.le(lo) {
                return false;
            }
            a = a + 1;
        }
        true
    }

    /// The smallest box containing this box and the other.
    pub fn surrounding_box(&self, aabb: &Aabb) -> (r: Aabb)
        ensures
            r == box_union(*self, *aabb),
    {
        surrounding_box(self, aabb)
    }
}

/// The smallest box containing both arguments.
pub fn surrounding_box(aabb1: &Aabb, aabb2: &Aabb) -> (r: Aabb)
    ensures
        r == box_union(*aabb1, *aabb2),
{
    Aabb {
        min: Vec3 {
            x: ffmin(aabb1.min.x, aabb2.min.x),
            y: ffmin(aabb1.min.y, aabb2.min.y),
            z: ffmin(aabb1.min.z, aabb2.min.z),
        },
        max: Vec3 {
            x: ffmax(aabb1.max.x, aabb2.max.x),
            y: ffmax(aabb1.max.y, aabb2.max.y),
            z: ffmax(aabb1.max.z, aabb2.max.z),
        },
    }
}

/// The merge lifted over optional boxes.
pub fn optional_surrounding_box(
    maybe_aabb0: Option<Aabb>,
    maybe_aabb1: Option<Aabb>,
) -> (r: Option<Aabb>)
    ensures
        r == opt_union(maybe_aabb0, maybe_aabb1),
{
    match (maybe_aabb0, maybe_aabb1) {
        (Some(aabb0), Some(aabb1)) => Some(aabb0.surrounding_box(&aabb1)),
        (Some(aabb), None) => Some(aabb),
        (None, Some(aabb)) => Some(aabb),
        (None, None) => None,
    }
}

} // verus!
