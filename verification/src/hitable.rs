//! Intersectable primitives: spheres, moving spheres, the closed union
//! over them, and the linear fold over a collection that keeps the
//! nearest hit. The fold is characterized by [`is_closest_hit`], the
//! predicate the tree traversal is later proved to satisfy as well.

use vstd::prelude::*;

use crate::aabb::{box_union, opt_union, optional_surrounding_box, Aabb};
use crate::ray::{ray_at, Ray};
use crate::scalar::{sat_add, sat_div, sat_mul, sat_neg, sat_sqrt, sat_sub, Scalar};
use crate::vec3::{sv, v3_add, v3_div_s, v3_dot, v3_scale, v3_sub, Vec3};

verus! {

/// The result of a successful intersection query: the ray parameter, the
/// point reached, the unit surface normal, and an index into the scene's
/// material store (the scene outlives all in-flight queries).
#[derive(Clone, Copy, Debug, PartialEq, Eq, Structural)]
pub struct HitRecord {
    pub t: Scalar,
    pub point: Vec3,
    pub normal: Vec3,
    pub material: usize,
}

/// A sphere with a material reference.
#[derive(Clone, Copy, Debug, PartialEq, Eq, Structural)]
pub struct Sphere {
    pub center: Vec3,
    pub radius: Scalar,
    pub material: usize,
}

/// A sphere whose center moves linearly from `center0` at `time0` to
/// `center1` at `time1`, extrapolating outside that interval.
#[derive(Clone, Copy, Debug, PartialEq, Eq, Structural)]
pub struct MovingSphere {
    pub center0: Vec3,
    pub center1: Vec3,
    pub time0: Scalar,
    pub time1: Scalar,
    pub radius: Scalar,
    pub material: usize,
}

/// The closed union of primitive variants.
#[derive(Clone, Copy, Debug, PartialEq, Eq, Structural)]
pub enum Hitable {
    Sphere(Sphere),
    MovingSphere(MovingSphere),
}

/// A homogeneous collection of primitives.
pub type HitableList = Vec<Hitable>;

/// The nearest intersection of a ray with a sphere strictly inside
/// `(t_min, t_max)`: the smaller quadratic root is preferred, the larger
/// accepted only when the smaller lies outside the interval.
/// Opaque: proofs above the primitive level treat it as an abstract
/// function of its arguments.
#[verifier::opaque]
pub open spec fn sphere_hit_spec(
    center: Vec3,
    radius: int,
    material: int,
    ray: Ray,
    t_min: int,
    t_max: int,
) -> Option<HitRecord> {
    let oc = v3_sub(ray.origin, center);
    let a = v3_dot(ray.direction, ray.direction);
    let b = v3_dot(oc, ray.direction);
    let c = sat_sub(v3_dot(oc, oc), sat_mul(radius, radius));
    let disc = sat_sub(sat_mul(b, b), sat_mul(a, c));
    if disc > 0 {
        let root = sat_sqrt(disc);
        let t1 = sat_div(sat_sub(sat_neg(b), root), a);
        if t1 < t_max && t1 > t_min {
            Some(sphere_record(center, radius, material, ray, t1))
        } else {
            let t2 = sat_div(sat_add(sat_neg(b), root), a);
            if t2 < t_max && t2 > t_min {
                Some(sphere_record(center, radius, material, ray, t2))
            } else {
                None
            }
        }
    } else {
        None
    }
}

/// The record produced for a sphere hit at parameter `t`.
pub open spec fn sphere_record(
    center: Vec3,
    radius: int,
    material: int,
    ray: Ray,
    t: int,
) -> HitRecord {
    let point = ray_at(ray, t);
    HitRecord {
        t: sv(t),
        point,
        normal: v3_div_s(v3_sub(point, center), radius),
        material: material as usize,
    }
}

/// Intersect a ray with a sphere given by center and radius.
pub fn hit_sphere(
    center: Vec3,
    radius: Scalar,
    material: usize,
    ray: &Ray,
    t_min: Scalar,
    t_max: Scalar,
) -> (res: Option<HitRecord>)
    ensures
        res == sphere_hit_spec(center, radius@, material as int, *ray, t_min@, t_max@),
{
    proof {
        reveal(sphere_hit_spec);
    }
    let oc = ray.origin.sub(center);
    let a = ray.direction.dot(ray.direction);
    let b = oc.dot(ray.direction);
    let c = oc.dot(oc).sub(radius.mul(radius));
    let discriminant = b.mul(b).sub(a.mul(c));

    if discriminant.gt(Scalar::zero()) {
        let root = discriminant.sqrt();
        let t1 = b.neg().sub(root).div(a);
        if t1.lt(t_max) && t1.gt(t_min) {
            let point = ray.point_at_parameter(t1);
            return Some(HitRecord {
                t: t1,
                point,
                normal: point.sub(center).div_s(radius),
                material,
            });
        }
        let t2 = b.neg().add(root).div(a);
        if t2.lt(t_max) && t2.gt(t_min) {
            let point = ray.point_at_parameter(t2);
            return Some(HitRecord {
                t: t2,
                point,
                normal: point.sub(center).div_s(radius),
                material,
            });
        }
    }
    None
}

/// The box enclosing a sphere of the given center and radius.
pub open spec fn sphere_box(center: Vec3, radius: Scalar) -> Aabb {
    Aabb {
        min: v3_sub(center, Vec3 { x: radius, y: radius, z: radius }),
        max: v3_add(center, Vec3 { x: radius, y: radius, z: radius }),
    }
}

impl Sphere {
    /// A sphere from its parts.
    pub fn new(center: Vec3, radius: Scalar, material: usize) -> (s: Sphere)
        ensures
            s == (Sphere { center, radius, material }),
    {
        Sphere { center, radius, material }
    }
}

/// The interpolated center of a moving sphere at the given time.
/// Opaque: proofs above the primitive level treat it as abstract.
#[verifier::opaque]
pub open spec fn ms_center(s: MovingSphere, time: int) -> Vec3 {
    v3_add(
        s.center0,
        v3_scale(
            v3_sub(s.center1, s.center0),
            sat_div(sat_sub(time, s.time0@), sat_sub(s.time1@, s.time0@)),
        ),
    )
}

impl MovingSphere {
    /// A moving sphere from its parts.
    pub fn new(
        center0: Vec3,
        center1: Vec3,
        time0: Scalar,
        time1: Scalar,
        radius: Scalar,
        material: usize,
    ) -> (s: MovingSphere)
        ensures
            s == (MovingSphere { center0, center1, time0, time1, radius, material }),
    {
        MovingSphere { center0, center1, time0, time1, radius, material }
    }

    /// The center at a given time, interpolating linearly between the two
    /// endpoint centers (and extrapolating outside the time interval).
    pub fn center(&self, time: Scalar) -> (c: Vec3)
        ensures
            c == ms_center(*self, time@),
    {
        proof {
            reveal(ms_center);
        }
        let ratio = time.sub(self.time0).div(self.time1.sub(self.time0));
        self.center0.add(self.center1.sub(self.center0).scale(ratio))
    }
}

/// What a primitive's intersection query returns.
pub open spec fn hitable_hit_spec(h: Hitable, ray: Ray, t_min: int, t_max: int) -> Option<
    HitRecord,
> {
    match h {
        Hitable::Sphere(s) => sphere_hit_spec(
            s.center,
            s.radius@,
            s.material as int,
            ray,
            t_min,
            t_max,
        ),
        Hitable::MovingSphere(s) => sphere_hit_spec(
            ms_center(s, ray.time@),
            s.radius@,
            s.material as int,
            ray,
            t_min,
            t_max,
        ),
    }
}

/// What a primitive's bounding-box query returns: for a static sphere its
/// own box, for a moving sphere the union of its boxes at the interval's
/// endpoints (correct because the motion is linear). Always present.
/// Opaque: proofs above the primitive level treat it as abstract.
#[verifier::opaque]
pub open spec fn hitable_box_spec(h: Hitable, t0: int, t1: int) -> Option<Aabb> {
    match h {
        Hitable::Sphere(s) => Some(sphere_box(s.center, s.radius)),
        Hitable::MovingSphere(s) => Some(
            box_union(
                sphere_box(ms_center(s, t0), s.radius),
                sphere_box(ms_center(s, t1), s.radius),
            ),
        ),
    }
}

impl Hitable {
    /// Nearest intersection strictly inside `(t_min, t_max)`.
    pub fn hit(&self, ray: &Ray, t_min: Scalar, t_max: Scalar) -> (res: Option<HitRecord>)
        ensures
            res == hitable_hit_spec(*self, *ray, t_min@, t_max@),
    {
        match self {
            Hitable::Sphere(s) => hit_sphere(s.center, s.radius, s.material, ray, t_min, t_max),
            Hitable::MovingSphere(s) => hit_sphere(
                s.center(ray.time),
                s.radius,
                s.material,
                ray,
                t_min,
                t_max,
            ),
        }
    }

    /// A box containing the primitive for all ray times in `[t0, t1]`.
    pub fn bounding_box(&self, t0: Scalar, t1: Scalar) -> (res: Option<Aabb>)
        ensures
            res == hitable_box_spec(*self, t0@, t1@),
            res.is_some(),
    {
        proof {
            reveal(hitable_box_spec);
        }
        match self {
            Hitable::Sphere(s) => {
                let r = Vec3 { x: s.radius, y: s.radius, z: s.radius };
                Some(Aabb { min: s.center.sub(r), max: s.center.add(r) })
            },
            Hitable::MovingSphere(s) => {
                let r = Vec3 { x: s.radius, y: s.radius, z: s.radius };
                let c0 = s.center(t0);
                let c1 = s.center(t1);
                let box0 = Aabb { min: c0.sub(r), max: c0.add(r) };
                let box1 = Aabb { min: c1.sub(r), max: c1.add(r) };
                Some(box0.surrounding_box(&box1))
            },
        }
    }
}

/// Every primitive produces a bounding box.
pub proof fn lemma_hitable_box_some(h: Hitable, t0: int, t1: int)
    ensures
        hitable_box_spec(h, t0, t1) is Some,
{
    reveal(hitable_box_spec);
}

/// The radius a primitive was built with.
pub open spec fn hitable_radius(h: Hitable) -> int {
    match h {
        Hitable::Sphere(s) => s.radius@,
        Hitable::MovingSphere(s) => s.radius@,
    }
}

/// A primitive of non-negative radius has a well-formed bounding box:
/// on each axis its minimum lies at or below its maximum.
pub proof fn lemma_hitable_box_wf(h: Hitable, t0: int, t1: int)
    requires
        hitable_radius(h) >= 0,
    ensures
        crate::aabb::aabb_wf(hitable_box_spec(h, t0, t1).unwrap()),
{
    reveal(hitable_box_spec);
}

/// The material reference a primitive carries.
pub open spec fn hitable_mat(h: Hitable) -> usize {
    match h {
        Hitable::Sphere(s) => s.material,
        Hitable::MovingSphere(s) => s.material,
    }
}

/// A hit record produced by a primitive carries that primitive's
/// material reference.
pub proof fn lemma_hit_material(h: Hitable, ray: Ray, t_min: int, t_max: int)
    ensures
        match hitable_hit_spec(h, ray, t_min, t_max) {
            Some(rec) => rec.material == hitable_mat(h),
            None => true,
        },
{
    reveal(sphere_hit_spec);
}

/// Of an accumulated nearest hit and a new candidate, the one to keep:
/// the present one, or of two present ones the new one only when it is
/// strictly closer.
pub open spec fn closer_rec(acc: Option<HitRecord>, cur: Option<HitRecord>) -> Option<
    HitRecord,
> {
    match (acc, cur) {
        (None, None) => None,
        (Some(a), None) => Some(a),
        (None, Some(c)) => Some(c),
        (Some(a), Some(c)) => if c.t@ < a.t@ {
            Some(c)
        } else {
            Some(a)
        },
    }
}

/// The left fold of `closer_rec` over a collection: what the linear scan
/// returns.
pub open spec fn list_hit_spec(s: Seq<Hitable>, ray: Ray, t_min: int, t_max: int) -> Option<
    HitRecord,
>
    decreases s.len(),
{
    if s.len() == 0 {
        None
    } else {
        closer_rec(
            list_hit_spec(s.drop_last(), ray, t_min, t_max),
            hitable_hit_spec(s.last(), ray, t_min, t_max),
        )
    }
}

/// The fold of the optional box merge over a collection.
pub open spec fn list_box_spec(s: Seq<Hitable>, t0: int, t1: int) -> Option<Aabb>
    decreases s.len(),
{
    if s.len() == 0 {
        None
    } else {
        opt_union(list_box_spec(s.drop_last(), t0, t1), hitable_box_spec(s.last(), t0, t1))
    }
}

/// Nearest hit over a collection by linear scan.
pub fn list_hit(list: &HitableList, ray: &Ray, t_min: Scalar, t_max: Scalar) -> (res: Option<
    HitRecord,
>)
    ensures
        res == list_hit_spec(list@, *ray, t_min@, t_max@),
{
    let mut acc: Option<HitRecord> = None;
    let mut i: usize = 0;
    while i < list.len()
        invariant
            i <= list.len(),
            acc == list_hit_spec(list@.subrange(0, i as int), *ray, t_min@, t_max@),
        decreases list.len() - i,
    {
        let cur = list[i].hit(ray, t_min, t_max);
        acc = match (acc, cur) {
            (None, None) => None,
            (Some(a), None) => Some(a),
            (None, Some(c)) => Some(c),
            (Some(a), Some(c)) => if c.t.lt(a.t) {
                Some(c)
            } else {
                Some(a)
            },
        };
        proof {
            assert(list@.subrange(0, i + 1).drop_last() =~= list@.subrange(0, i as int));
            assert(list@.subrange(0, i + 1).last() == list@[i as int]);
        }
        i = i + 1;
    }
    proof {
        assert(list@.subrange(0, list@.len() as int) =~= list@);
    }
    acc
}

/// The merged bounding box of a collection.
pub fn list_bounding_box(list: &HitableList, t0: Scalar, t1: Scalar) -> (res: Option<Aabb>)
    ensures
        res == list_box_spec(list@, t0@, t1@),
{
    let mut acc: Option<Aabb> = None;
    let mut i: usize = 0;
    while i < list.len()
        invariant
            i <= list.len(),
            acc == list_box_spec(list@.subrange(0, i as int), t0@, t1@),
        decreases list.len() - i,
    {
        let cur = list[i].bounding_box(t0, t1);
        acc = optional_surrounding_box(acc, cur);
        proof {
            assert(list@.subrange(0, i + 1).drop_last() =~= list@.subrange(0, i as int));
            assert(list@.subrange(0, i + 1).last() == list@[i as int]);
        }
        i = i + 1;
    }
    proof {
        assert(list@.subrange(0, list@.len() as int) =~= list@);
    }
    acc
}

/// `res` is a nearest hit for the primitives of `s`: absent exactly when
/// no primitive hits, and otherwise one of the primitives' records, with
/// a parameter no larger than any primitive's hit parameter.
pub open spec fn is_closest_hit(
    s: Seq<Hitable>,
    ray: Ray,
    t_min: int,
    t_max: int,
    res: Option<HitRecord>,
) -> bool {
    match res {
        None => forall|i: int|
            0 <= i < s.len() ==> (#[trigger] hitable_hit_spec(s[i], ray, t_min, t_max)) is None,
        Some(rec) => (exists|i: int|
            0 <= i < s.len() && #[trigger] hitable_hit_spec(s[i], ray, t_min, t_max) == Some(rec))
            && (forall|i: int|
            0 <= i < s.len() ==> rec_at_most(
                rec,
                #[trigger] hitable_hit_spec(s[i], ray, t_min, t_max),
            )),
    }
}

/// `rec` is at least as close as the other record, when one is present.
pub open spec fn rec_at_most(rec: HitRecord, other: Option<HitRecord>) -> bool {
    match other {
        None => true,
        Some(o) => rec.t@ <= o.t@,
    }
}

/// The linear fold returns a nearest hit.
pub proof fn lemma_list_hit_closest(s: Seq<Hitable>, ray: Ray, t_min: int, t_max: int)
    ensures
        is_closest_hit(s, ray, t_min, t_max, list_hit_spec(s, ray, t_min, t_max)),
    decreases s.len(),
{
    if s.len() == 0 {
    } else {
        let prefix = s.drop_last();
        lemma_list_hit_closest(prefix, ray, t_min, t_max);
        let prev = list_hit_spec(prefix, ray, t_min, t_max);
        let cur = hitable_hit_spec(s.last(), ray, t_min, t_max);
        let res = list_hit_spec(s, ray, t_min, t_max);
        assert(res == closer_rec(prev, cur));
        assert(forall|i: int| 0 <= i < prefix.len() ==> s[i] == prefix[i]);
        assert(s[s.len() - 1] == s.last());
        match res {
            None => {
            },
            Some(rec) => {
                if prev is Some && (cur is None || rec == prev.unwrap()) {
                    let j = choose|j: int|
                        0 <= j < prefix.len() && #[trigger] hitable_hit_spec(
                            prefix[j],
                            ray,
                            t_min,
                            t_max,
                        ) == Some(rec);
                    assert(hitable_hit_spec(s[j], ray, t_min, t_max) == Some(rec));
                } else {
                    assert(hitable_hit_spec(s[s.len() - 1], ray, t_min, t_max) == Some(rec));
                }
            },
        }
    }
}

/// Of the results of two independent subtree queries, the one to keep:
/// a present one over an absent one, and of two present ones the left
/// only when it is strictly closer.
pub open spec fn closer_lr(l: Option<HitRecord>, r: Option<HitRecord>) -> Option<HitRecord> {
    match (l, r) {
        (None, None) => None,
        (Some(a), None) => Some(a),
        (None, Some(b)) => Some(b),
        (Some(a), Some(b)) => if a.t@ < b.t@ {
            Some(a)
        } else {
            Some(b)
        },
    }
}

/// The parameter of a hit, forgetting the rest of the record.
pub open spec fn hit_t(res: Option<HitRecord>) -> Option<int> {
    match res {
        None => None,
        Some(rec) => Some(rec.t@),
    }
}

/// Nearest hits of two collections combine into a nearest hit of their
/// concatenation.
pub proof fn lemma_closest_combine(
    sl: Seq<Hitable>,
    sr: Seq<Hitable>,
    ray: Ray,
    t_min: int,
    t_max: int,
    rl: Option<HitRecord>,
    rr: Option<HitRecord>,
)
    requires
        is_closest_hit(sl, ray, t_min, t_max, rl),
        is_closest_hit(sr, ray, t_min, t_max, rr),
    ensures
        is_closest_hit(sl + sr, ray, t_min, t_max, closer_lr(rl, rr)),
{
    let s = sl + sr;
    assert(forall|k: int| 0 <= k < sl.len() ==> s[k] == sl[k]);
    assert(forall|k: int| sl.len() <= k < s.len() ==> s[k] == sr[k - sl.len()]);
    let res = closer_lr(rl, rr);
    match res {
        None => {
            assert forall|k: int| 0 <= k < s.len() implies (#[trigger] hitable_hit_spec(
                s[k],
                ray,
                t_min,
                t_max,
            )) is None by {
                if k < sl.len() {
                    assert(hitable_hit_spec(sl[k], ray, t_min, t_max) is None);
                } else {
                    assert(hitable_hit_spec(sr[k - sl.len()], ray, t_min, t_max) is None);
                }
            }
        },
        Some(rec) => {
            if rl is Some && rec == rl.unwrap() {
                let i = choose|i: int|
                    0 <= i < sl.len() && #[trigger] hitable_hit_spec(sl[i], ray, t_min, t_max)
                        == Some(rec);
                assert(hitable_hit_spec(s[i], ray, t_min, t_max) == Some(rec));
            } else {
                let j = choose|j: int|
                    0 <= j < sr.len() && #[trigger] hitable_hit_spec(sr[j], ray, t_min, t_max)
                        == Some(rec);
                assert(hitable_hit_spec(s[j + sl.len()], ray, t_min, t_max) == Some(rec));
            }
            assert forall|k: int| 0 <= k < s.len() implies rec_at_most(
                rec,
                #[trigger] hitable_hit_spec(s[k], ray, t_min, t_max),
            ) by {
                if k < sl.len() {
                    assert(rec_at_most(rec, hitable_hit_spec(sl[k], ray, t_min, t_max)));
                } else {
                    assert(rec_at_most(rec, hitable_hit_spec(sr[k - sl.len()], ray, t_min, t_max)));
                }
            }
        },
    }
}

/// Any two nearest hits of the same collection carry the same parameter.
pub proof fn lemma_closest_unique_t(
    s: Seq<Hitable>,
    ray: Ray,
    t_min: int,
    t_max: int,
    r1: Option<HitRecord>,
    r2: Option<HitRecord>,
)
    requires
        is_closest_hit(s, ray, t_min, t_max, r1),
        is_closest_hit(s, ray, t_min, t_max, r2),
    ensures
        hit_t(r1) == hit_t(r2),
{
    match (r1, r2) {
        (None, None) => {
        },
        (Some(a), None) => {
            let i = choose|i: int|
                0 <= i < s.len() && #[trigger] hitable_hit_spec(s[i], ray, t_min, t_max)
                    == Some(a);
            assert(hitable_hit_spec(s[i], ray, t_min, t_max) is None);
        },
        (None, Some(b)) => {
            let i = choose|i: int|
                0 <= i < s.len() && #[trigger] hitable_hit_spec(s[i], ray, t_min, t_max)
                    == Some(b);
            assert(hitable_hit_spec(s[i], ray, t_min, t_max) is None);
        },
        (Some(a), Some(b)) => {
            let i = choose|i: int|
                0 <= i < s.len() && #[trigger] hitable_hit_spec(s[i], ray, t_min, t_max)
                    == Some(a);
            let j = choose|j: int|
                0 <= j < s.len() && #[trigger] hitable_hit_spec(s[j], ray, t_min, t_max)
                    == Some(b);
            assert(rec_at_most(a, hitable_hit_spec(s[j], ray, t_min, t_max)));
            assert(rec_at_most(b, hitable_hit_spec(s[i], ray, t_min, t_max)));
        },
    }
}

/// Whether a collection contains a primitive that hits with this record.
pub open spec fn seq_has_hit(
    s: Seq<Hitable>,
    ray: Ray,
    t_min: int,
    t_max: int,
    rec: HitRecord,
) -> bool {
    exists|i: int|
        0 <= i < s.len() && #[trigger] hitable_hit_spec(s[i], ray, t_min, t_max) == Some(rec)
}

/// A nearest hit for a collection is a nearest hit for any permutation of
/// it: the characterization only looks at which primitives occur.
pub proof fn lemma_closest_hit_permutation(
    s1: Seq<Hitable>,
    s2: Seq<Hitable>,
    ray: Ray,
    t_min: int,
    t_max: int,
    res: Option<HitRecord>,
)
    requires
        s1.to_multiset() == s2.to_multiset(),
        is_closest_hit(s1, ray, t_min, t_max, res),
    ensures
        is_closest_hit(s2, ray, t_min, t_max, res),
{
    assert forall|h: Hitable| s1.contains(h) <==> s2.contains(h) by {
        vstd::seq_lib::to_multiset_contains(s1, h);
        vstd::seq_lib::to_multiset_contains(s2, h);
        assert(s1.to_multiset().count(h) == s2.to_multiset().count(h));
    }
    match res {
        None => {
            assert forall|i: int| 0 <= i < s2.len() implies (#[trigger] hitable_hit_spec(
                s2[i],
                ray,
                t_min,
                t_max,
            )) is None by {
                assert(s2.contains(s2[i]));
                let j = choose|j: int| 0 <= j < s1.len() && s1[j] == s2[i];
                assert(hitable_hit_spec(s1[j], ray, t_min, t_max) is None);
            }
        },
        Some(rec) => {
            let i = choose|i: int|
                0 <= i < s1.len() && #[trigger] hitable_hit_spec(s1[i], ray, t_min, t_max)
                    == Some(rec);
            assert(s1.contains(s1[i]));
            let j = choose|j: int| 0 <= j < s2.len() && s2[j] == s1[i];
            assert(hitable_hit_spec(s2[j], ray, t_min, t_max) == Some(rec));
            assert forall|k: int| 0 <= k < s2.len() implies rec_at_most(
                rec,
                #[trigger] hitable_hit_spec(s2[k], ray, t_min, t_max),
            ) by {
                assert(s2.contains(s2[k]));
                let m = choose|m: int| 0 <= m < s1.len() && s1[m] == s2[k];
                assert(rec_at_most(rec, hitable_hit_spec(s1[m], ray, t_min, t_max)));
            }
        },
    }
}

} // verus!
