//! The scene — the tree over the primitives plus the shared material
//! store — and the recursive color integrator: nearest hit, scatter,
//! recurse with the attenuation applied, background gradient on a miss,
//! black on absorption or at the recursion depth cutoff.

use vstd::prelude::*;

use crate::bvh::{
    boxes_linked, lemma_node_hit_material, node_hit_spec, prune_safe, subtree_prims, tree_wf,
    BvhTree,
};
use crate::hitable::{hitable_mat, is_closest_hit, HitRecord, Hitable, HitableList};
use crate::material::{material_wf, Material};
use crate::ray::Ray;
use crate::scalar::{clip, sat_add, sat_mul, sat_sub, Scalar, FRAC, HALF_RAW};
use crate::vec3::{v3, v3_add, v3_div_s, v3_scale, v3_sqrt, v3_unit, Vec3};

verus! {

/// The ray parameter below which hits are ignored, avoiding immediate
/// self-intersection of a scattered ray with its own surface: 0.01.
pub const T_MIN_RAW: i64 = 655;

/// The raw blue-channel value of the background's horizon color: 0.7.
pub const SKY_BLEND_RAW: i64 = 45875;

/// The raw output scale applied after gamma correction: 255.99.
pub const OUTPUT_SCALE_RAW: i64 = 16776560;

/// The recursion depth at which the integrator stops scattering.
pub const DEPTH_LIMIT: u64 = 50;

/// Why a scene could not be built.
#[derive(Clone, Copy, Debug, PartialEq, Eq, Structural)]
pub enum BuildError {
    /// The primitive list was empty: there is nothing to put in the tree.
    EmptyScene,
}

/// A scene: the acceleration tree over the primitives, and the material
/// store the primitives reference. Built once, then read-only.
pub struct Scene {
    pub tree: BvhTree,
    pub materials: Vec<Material>,
}

/// Every primitive of a collection references a material inside the
/// store.
pub open spec fn mats_ok(prims: Seq<Hitable>, n_materials: int) -> bool {
    forall|k: int| 0 <= k < prims.len() ==> (hitable_mat(#[trigger] prims[k]) as int) < n_materials
}

/// A well-formed scene: a well-formed tree whose primitives all
/// reference materials inside the store, every one of them with
/// well-formed texture tables.
pub open spec fn scene_wf(s: Scene) -> bool {
    tree_wf(s.tree) && mats_ok(s.tree.prims@, s.materials@.len() as int) && (forall|i: int|
        0 <= i < s.materials@.len() ==> material_wf(#[trigger] s.materials@[i]))
}

impl Scene {
    /// Build a scene over the primitives and the material store they
    /// reference. Fails exactly on an empty primitive list; every
    /// primitive of this crate produces a bounding box, so no other
    /// construction error can arise.
    pub fn build(
        primitives: HitableList,
        materials: Vec<Material>,
        time0: Scalar,
        time1: Scalar,
        rng: &mut rand::rngs::StdRng,
    ) -> (res: Result<Scene, BuildError>)
        requires
            mats_ok(primitives@, materials@.len() as int),
            forall|i: int| 0 <= i < materials@.len() ==> material_wf(#[trigger] materials@[i]),
        ensures
            match res {
                Ok(s) => primitives@.len() >= 1 && scene_wf(s) && s.materials == materials
                    && s.tree.prims@.to_multiset() == primitives@.to_multiset() && subtree_prims(
                    s.tree,
                    s.tree.root.index as int,
                ) == s.tree.prims@ && boxes_linked(s.tree, time0@, time1@),
                Err(e) => primitives@.len() == 0 && e == BuildError::EmptyScene,
            },
    {
        if primitives.len() == 0 {
            return Err(BuildError::EmptyScene);
        }
        let tree = BvhTree::new(primitives, time0, time1, rng);
        let scene = Scene { tree, materials };
        proof {
            assert forall|k: int|
                0 <= k < scene.tree.prims@.len() implies (hitable_mat(
                #[trigger] scene.tree.prims@[k],
            ) as int) < scene.materials@.len() as int by {
                vstd::seq_lib::to_multiset_contains(scene.tree.prims@, scene.tree.prims@[k]);
                vstd::seq_lib::to_multiset_contains(primitives@, scene.tree.prims@[k]);
                let j = choose|j: int|
                    0 <= j < primitives@.len() && primitives@[j] == scene.tree.prims@[k];
                assert((hitable_mat(primitives@[j]) as int) < materials@.len() as int);
            }
        }
        Ok(scene)
    }

    /// Nearest hit of the scene in the open interval `(t_min, t_max)`,
    /// through the tree. The result is exactly the traversal's answer;
    /// when pruning is sound for the query it is a nearest hit of all
    /// primitives; and any record references a material of the store.
    pub fn hit(&self, r: &Ray, t_min: Scalar, t_max: Scalar) -> (res: Option<HitRecord>)
        requires
            scene_wf(*self),
        ensures
            res == node_hit_spec(self.tree, self.tree.root.index as int, *r, t_min@, t_max@),
            prune_safe(self.tree, *r, t_min@, t_max@) ==> is_closest_hit(
                subtree_prims(self.tree, self.tree.root.index as int),
                *r,
                t_min@,
                t_max@,
                res,
            ),
            match res {
                Some(rec) => (rec.material as int) < self.materials@.len() as int,
                None => true,
            },
    {
        let res = self.tree.hit(r, t_min, t_max);
        proof {
            lemma_node_hit_material(
                self.tree,
                self.tree.root.index as int,
                *r,
                t_min@,
                t_max@,
            );
        }
        res
    }
}

/// The background gradient: white blended toward light blue by the
/// vertical component of the unit ray direction, mapped from `[-1, 1]`
/// to a blend factor in `[0, 1]`.
pub open spec fn background_spec(r: Ray) -> Vec3 {
    let unit_direction = v3_unit(r.direction);
    let t = sat_mul(HALF_RAW as int, sat_add(unit_direction.y@, FRAC as int));
    v3_add(
        v3_scale(v3(FRAC as int, FRAC as int, FRAC as int), sat_sub(FRAC as int, t)),
        v3_scale(v3(HALF_RAW as int, SKY_BLEND_RAW as int, FRAC as int), t),
    )
}

/// The background color of a ray that escapes the scene.
pub fn background(r: &Ray) -> (c: Vec3)
    ensures
        c == background_spec(*r),
{
    let unit_direction = r.direction.unit_vector();
    let t = Scalar::from_raw(HALF_RAW).mul(unit_direction.y.add(Scalar::one()));
    let white = Vec3::fromf(Scalar::one());
    let sky = Vec3::new(
        Scalar::from_raw(HALF_RAW),
        Scalar::from_raw(SKY_BLEND_RAW),
        Scalar::one(),
    );
    white.scale(Scalar::one().sub(t)).add(sky.scale(t))
}

/// What the scene's hit query answers for the integrator's fixed
/// interval `(0.01, +max)`.
pub open spec fn scene_query(s: Scene, r: Ray) -> Option<HitRecord> {
    node_hit_spec(s.tree, s.tree.root.index as int, r, T_MIN_RAW as int, i64::MAX as int)
}

/// One sample of the recursive light-transport estimate. On a miss the
/// background terminates the path; on a hit the material scatters and
/// the recursion continues, its result attenuated; absorption and the
/// depth cutoff contribute black. The recursion provably terminates
/// within `DEPTH_LIMIT` levels, and at or beyond the cutoff a hit
/// contributes exactly black — the bias this estimator accepts in
/// exchange for a hard bound on work.
pub fn color(r: &Ray, scene: &Scene, depth: u64, rng: &mut rand::rngs::StdRng) -> (c: Vec3)
    requires
        scene_wf(*scene),
    ensures
        scene_query(*scene, *r) is None ==> c == background_spec(*r),
        depth >= DEPTH_LIMIT && scene_query(*scene, *r) is Some ==> c == v3(0, 0, 0),
    decreases DEPTH_LIMIT - depth,
{
    let t_min = Scalar::from_raw(T_MIN_RAW);
    let t_max = Scalar::max_value();
    match scene.hit(r, t_min, t_max) {
        Some(rec) => {
            match (depth < DEPTH_LIMIT, scene.materials[rec.material].scatter(r, &rec, rng)) {
                (true, Some(mat_rec)) => mat_rec.attenuation.mul(
                    color(&mat_rec.scattered, scene, depth + 1, rng),
                ),
                _ => Vec3::fromf(Scalar::zero()),
            }
        },
        None => background(r),
    }
}

/// The running sum of sample colors, in the order they were taken.
pub open spec fn sample_sum(s: Seq<Vec3>) -> Vec3
    decreases s.len(),
{
    if s.len() == 0 {
        v3(0, 0, 0)
    } else {
        v3_add(sample_sum(s.drop_last()), s.last())
    }
}

/// The pixel value of a set of samples: their average, gamma-corrected
/// by a square root, scaled to the output range.
pub open spec fn pixel_spec(s: Seq<Vec3>) -> Vec3 {
    v3_scale(
        v3_sqrt(v3_div_s(sample_sum(s), clip(s.len() * (FRAC as int)))),
        OUTPUT_SCALE_RAW as int,
    )
}

/// Combine independent samples of one pixel into its output color:
/// sum, average, square-root gamma correction, output scaling.
pub fn pixel_value(samples: &Vec<Vec3>) -> (c: Vec3)
    requires
        samples@.len() <= 0xffff_ffff,
    ensures
        c == pixel_spec(samples@),
{
    let mut acc = Vec3::fromf(Scalar::zero());
    let mut i: usize = 0;
    while i < samples.len()
        invariant
            i <= samples.len(),
            acc == sample_sum(samples@.subrange(0, i as int)),
        decreases samples.len() - i,
    {
        acc = acc.add(samples[i]);
        proof {
            assert(samples@.subrange(0, i + 1).drop_last() =~= samples@.subrange(0, i as int));
            assert(samples@.subrange(0, i + 1).last() == samples@[i as int]);
        }
        i = i + 1;
    }
    proof {
        assert(samples@.subrange(0, samples@.len() as int) =~= samples@);
    }
    let n = Scalar::from_int(samples.len() as i64);
    acc.div_s(n).sqrt().scale(Scalar::from_raw(OUTPUT_SCALE_RAW))
}

} // verus!
