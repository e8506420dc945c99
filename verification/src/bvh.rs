//! The bounding-volume hierarchy: a binary tree over the primitive list,
//! built by recursive randomized-axis median split, stored as a flat
//! arena of nodes addressed by integer ids (children always precede
//! their parent, which also gives the traversal its termination
//! measure).
//!
//! The centerpiece contract: the traversal returns a hit with the same
//! parameter as the brute-force linear scan over the primitives, for
//! any tree shape the randomized build may have produced, as long as
//! every primitive the ray hits also passes the slab test of its own
//! bounding box. Everything above the primitives is proved: node boxes
//! contain their subtrees' boxes (the build links them by unions), the
//! slab test is monotone under box containment, so pruning never cuts a
//! subtree that holds a hit.

use vstd::pervasive::VecAdditionalExecFns;
use vstd::prelude::*;

use crate::aabb::{aabb_hit, aabb_wf, contains_box, opt_union, optional_surrounding_box, Aabb};
use crate::hitable::{
    closer_lr, hit_t, hitable_box_spec, hitable_hit_spec, hitable_mat, hitable_radius,
    is_closest_hit, lemma_closest_combine, lemma_closest_hit_permutation,
    lemma_closest_unique_t, lemma_hit_material, lemma_hitable_box_some, lemma_hitable_box_wf,
    lemma_list_hit_closest, list_hit_spec, seq_has_hit, HitRecord, Hitable, HitableList,
};
use crate::ray::Ray;
use crate::rng::rng_below;
use crate::scalar::Scalar;
use crate::vec3::v3_axis;

verus! {

/// A stable identifier of a node in the arena.
#[derive(Clone, Copy, Debug, PartialEq, Eq, Structural)]
pub struct NodeId {
    pub index: usize,
}

/// A node: either a leaf wrapping one primitive (by its index in the
/// tree's list) or an internal node with two children, each holding the
/// bounding box of everything beneath it.
#[derive(Clone, Copy, Debug, PartialEq, Eq, Structural)]
pub struct BvhNode {
    pub left: Option<NodeId>,
    pub right: Option<NodeId>,
    pub aabb: Option<Aabb>,
    pub hitable: Option<usize>,
}

impl BvhNode {
    /// The node's stored box, valid for any time interval the tree was
    /// built over.
    pub fn bounding_box(&self, _t0: Scalar, _t1: Scalar) -> (r: Option<Aabb>)
        ensures
            r == self.aabb,
    {
        self.aabb
    }
}

/// The tree: an arena of nodes, the root id, and the owned primitive
/// list the leaves point into.
pub struct BvhTree {
    pub nodes: Vec<BvhNode>,
    pub root: NodeId,
    pub prims: Vec<Hitable>,
}

/// Shape of one node: a box is present, and it is either an internal
/// node whose children strictly precede it in the arena, or a leaf
/// holding a valid primitive index.
pub open spec fn node_wf(t: BvhTree, i: int) -> bool {
    let n = t.nodes@[i];
    n.aabb is Some && match (n.left, n.right) {
        (Some(l), Some(r)) => l.index < i && r.index < i && n.hitable is None,
        (None, None) => match n.hitable {
            Some(p) => (p as int) < t.prims@.len(),
            None => false,
        },
        _ => false,
    }
}

/// Every node of the arena is well-shaped.
pub open spec fn nodes_wf(t: BvhTree) -> bool {
    forall|i: int| 0 <= i < t.nodes@.len() ==> #[trigger] node_wf(t, i)
}

/// A well-formed tree: a non-empty well-shaped arena with a valid root.
pub open spec fn tree_wf(t: BvhTree) -> bool {
    t.nodes@.len() >= 1 && (t.root.index as int) < t.nodes@.len() && nodes_wf(t)
}

/// Every leaf of the arena points strictly below `bound` in the
/// primitive list. During construction this separates finished leaves
/// from the range still being permuted.
pub open spec fn leaves_below(t: BvhTree, bound: int) -> bool {
    forall|j: int|
        0 <= j < t.nodes@.len() ==> match (#[trigger] t.nodes@[j]).hitable {
            Some(p) => (p as int) < bound,
            None => true,
        }
}

/// The stored boxes are what the data model promises, for a tree built
/// over the time interval `[t0, t1]`: a leaf holds its primitive's
/// bounding box, and an internal node holds exactly the union of its
/// children's boxes.
pub open spec fn node_boxes_linked(t: BvhTree, i: int, t0: int, t1: int) -> bool {
    let n = t.nodes@[i];
    match (n.left, n.right) {
        (Some(l), Some(r)) => n.aabb == opt_union(
            t.nodes@[l.index as int].aabb,
            t.nodes@[r.index as int].aabb,
        ),
        (None, None) => match n.hitable {
            Some(p) => n.aabb == hitable_box_spec(t.prims@[p as int], t0, t1),
            None => true,
        },
        _ => true,
    }
}

/// Every node's stored box is linked to its children or its primitive.
pub open spec fn boxes_linked(t: BvhTree, t0: int, t1: int) -> bool {
    forall|i: int| 0 <= i < t.nodes@.len() ==> #[trigger] node_boxes_linked(t, i, t0, t1)
}

/// The primitives under a node, left subtree first.
pub open spec fn subtree_prims(t: BvhTree, i: int) -> Seq<Hitable>
    decreases i,
{
    if !(0 <= i < t.nodes@.len()) {
        Seq::empty()
    } else {
        let n = t.nodes@[i];
        match (n.left, n.right) {
            (Some(l), Some(r)) => if l.index < i && r.index < i {
                subtree_prims(t, l.index as int) + subtree_prims(t, r.index as int)
            } else {
                Seq::empty()
            },
            (None, None) => match n.hitable {
                Some(p) => if (p as int) < t.prims@.len() {
                    seq![t.prims@[p as int]]
                } else {
                    Seq::empty()
                },
                None => Seq::empty(),
            },
            _ => Seq::empty(),
        }
    }
}

/// What the traversal returns below a node: absent when the node's box
/// rejects the interval, the primitive's own answer at a leaf, and the
/// closer of the two children's answers at an internal node (both
/// children queried over the same interval).
pub open spec fn node_hit_spec(t: BvhTree, i: int, ray: Ray, t_min: int, t_max: int) -> Option<
    HitRecord,
>
    decreases i,
{
    if !(0 <= i < t.nodes@.len()) {
        None
    } else {
        let n = t.nodes@[i];
        match n.aabb {
            None => None,
            Some(bx) => if !aabb_hit(bx, ray, t_min, t_max) {
                None
            } else {
                match (n.left, n.right) {
                    (Some(l), Some(r)) => if l.index < i && r.index < i {
                        closer_lr(
                            node_hit_spec(t, l.index as int, ray, t_min, t_max),
                            node_hit_spec(t, r.index as int, ray, t_min, t_max),
                        )
                    } else {
                        None
                    },
                    (None, None) => match n.hitable {
                        Some(p) => if (p as int) < t.prims@.len() {
                            hitable_hit_spec(t.prims@[p as int], ray, t_min, t_max)
                        } else {
                            None
                        },
                        None => None,
                    },
                    _ => None,
                }
            },
        }
    }
}

/// Pruning is sound at node `i` for this query: if some primitive under
/// the node hits, the node's own box passes the slab test.
pub open spec fn prune_ok_at(t: BvhTree, i: int, ray: Ray, t_min: int, t_max: int) -> bool {
    (exists|rec: HitRecord| seq_has_hit(subtree_prims(t, i), ray, t_min, t_max, rec))
        ==> match t.nodes@[i].aabb {
        Some(bx) => aabb_hit(bx, ray, t_min, t_max),
        None => false,
    }
}

/// Pruning is sound at every node for this query. Exact arithmetic makes
/// this a theorem of geometry; with rounded fixed-point (or float) slab
/// tests it is the stated hypothesis under which the tree agrees with
/// the linear scan.
pub open spec fn prune_safe(t: BvhTree, ray: Ray, t_min: int, t_max: int) -> bool {
    forall|i: int| 0 <= i < t.nodes@.len() ==> #[trigger] prune_ok_at(t, i, ray, t_min, t_max)
}

/// The sort key of a primitive on an axis: the minimum coordinate of its
/// bounding box at time zero.
pub open spec fn box_key(h: Hitable, axis: int) -> int {
    match hitable_box_spec(h, 0, 0) {
        Some(b) => v3_axis(b.min, axis),
        None => 0,
    }
}

/// The range `[lo, hi)` is sorted by box key on the axis.
pub open spec fn sorted_range(s: Seq<Hitable>, lo: int, hi: int, axis: int) -> bool {
    forall|a: int, b: int| lo <= a < b < hi ==> box_key(#[trigger] s[a], axis) <= box_key(
        #[trigger] s[b],
        axis,
    )
}

/// The traversal below a well-shaped node returns a nearest hit of the
/// primitives under it, provided pruning is sound for the query.
pub proof fn lemma_node_hit_closest(t: BvhTree, i: int, ray: Ray, t_min: int, t_max: int)
    requires
        nodes_wf(t),
        0 <= i < t.nodes@.len(),
        prune_safe(t, ray, t_min, t_max),
    ensures
        is_closest_hit(
            subtree_prims(t, i),
            ray,
            t_min,
            t_max,
            node_hit_spec(t, i, ray, t_min, t_max),
        ),
    decreases i,
{
    assert(node_wf(t, i));
    let n = t.nodes@[i];
    let s = subtree_prims(t, i);
    let res = node_hit_spec(t, i, ray, t_min, t_max);
    let bx = n.aabb.unwrap();
    if !aabb_hit(bx, ray, t_min, t_max) {
        assert(prune_ok_at(t, i, ray, t_min, t_max));
        assert forall|k: int| 0 <= k < s.len() implies (#[trigger] hitable_hit_spec(
            s[k],
            ray,
            t_min,
            t_max,
        )) is None by {
            if hitable_hit_spec(s[k], ray, t_min, t_max) is Some {
                let rec = hitable_hit_spec(s[k], ray, t_min, t_max).unwrap();
                assert(seq_has_hit(s, ray, t_min, t_max, rec));
                assert(false);
            }
        }
        assert(res is None);
    } else {
        match (n.left, n.right) {
            (Some(l), Some(r)) => {
                lemma_node_hit_closest(t, l.index as int, ray, t_min, t_max);
                lemma_node_hit_closest(t, r.index as int, ray, t_min, t_max);
                lemma_closest_combine(
                    subtree_prims(t, l.index as int),
                    subtree_prims(t, r.index as int),
                    ray,
                    t_min,
                    t_max,
                    node_hit_spec(t, l.index as int, ray, t_min, t_max),
                    node_hit_spec(t, r.index as int, ray, t_min, t_max),
                );
            },
            (None, None) => {
                let p = n.hitable.unwrap();
                assert(s =~= seq![t.prims@[p as int]]);
                assert(s[0] == t.prims@[p as int]);
                match res {
                    None => {
                    },
                    Some(rec) => {
                        assert(hitable_hit_spec(s[0], ray, t_min, t_max) == Some(rec));
                    },
                }
            },
            _ => {
                assert(false);
            },
        }
    }
}

/// Any record the traversal returns carries the material reference of
/// one of the tree's primitives.
pub proof fn lemma_node_hit_material(t: BvhTree, i: int, ray: Ray, t_min: int, t_max: int)
    requires
        nodes_wf(t),
        0 <= i < t.nodes@.len(),
    ensures
        match node_hit_spec(t, i, ray, t_min, t_max) {
            Some(rec) => exists|k: int|
                0 <= k < t.prims@.len() && rec.material == hitable_mat(#[trigger] t.prims@[k]),
            None => true,
        },
    decreases i,
{
    assert(node_wf(t, i));
    let n = t.nodes@[i];
    let res = node_hit_spec(t, i, ray, t_min, t_max);
    if res is Some {
        match (n.left, n.right) {
            (Some(l), Some(r)) => {
                lemma_node_hit_material(t, l.index as int, ray, t_min, t_max);
                lemma_node_hit_material(t, r.index as int, ray, t_min, t_max);
            },
            (None, None) => {
                let p = n.hitable.unwrap();
                lemma_hit_material(t.prims@[p as int], ray, t_min, t_max);
                assert(res.unwrap().material == hitable_mat(t.prims@[p as int]));
            },
            _ => {
            },
        }
    }
}

/// Every primitive's bounding box over `[t0, t1]` is well-formed (which
/// holds of any non-negative radius).
pub open spec fn prims_boxes_wf(t: BvhTree, t0: int, t1: int) -> bool {
    forall|k: int|
        0 <= k < t.prims@.len() ==> aabb_wf(
            hitable_box_spec(#[trigger] t.prims@[k], t0, t1).unwrap(),
        )
}

/// A tree whose primitives all have non-negative radii has well-formed
/// primitive boxes.
pub proof fn lemma_prims_boxes_wf_from_radii(t: BvhTree, t0: int, t1: int)
    requires
        forall|k: int| 0 <= k < t.prims@.len() ==> hitable_radius(#[trigger] t.prims@[k]) >= 0,
    ensures
        prims_boxes_wf(t, t0, t1),
{
    assert forall|k: int| 0 <= k < t.prims@.len() implies aabb_wf(
        hitable_box_spec(#[trigger] t.prims@[k], t0, t1).unwrap(),
    ) by {
        lemma_hitable_box_wf(t.prims@[k], t0, t1);
    }
}

/// Every primitive that the ray hits within the interval also passes
/// the slab test of its own bounding box. This is the one geometric
/// fact that rounding can break — on a ray grazing a box face, the
/// truncated slab quotient can fall just outside the interval while the
/// quadratic still reports a hit — and it is all that pruning needs.
pub open spec fn prims_boxed(
    t: BvhTree,
    ray: Ray,
    t_min: int,
    t_max: int,
    t0: int,
    t1: int,
) -> bool {
    forall|k: int|
        0 <= k < t.prims@.len() ==> ((hitable_hit_spec(
            #[trigger] t.prims@[k],
            ray,
            t_min,
            t_max,
        )) is Some ==> aabb_hit(
            hitable_box_spec(t.prims@[k], t0, t1).unwrap(),
            ray,
            t_min,
            t_max,
        ))
}

/// The primitive under position `k` of a node's subtree is covered: the
/// node's box contains its bounding box, and it is one of the tree's
/// primitives.
pub open spec fn covered_prim(t: BvhTree, i: int, k: int, t0: int, t1: int) -> bool {
    let prim = subtree_prims(t, i)[k];
    contains_box(t.nodes@[i].aabb.unwrap(), hitable_box_spec(prim, t0, t1).unwrap()) && (
    exists|j: int| 0 <= j < t.prims@.len() && prim == #[trigger] t.prims@[j])
}

/// In a tree whose boxes are linked as the data model promises, every
/// node's box is well-formed and contains the bounding box of every
/// primitive beneath the node.
pub proof fn lemma_node_box_covers(t: BvhTree, i: int, t0: int, t1: int)
    requires
        nodes_wf(t),
        boxes_linked(t, t0, t1),
        prims_boxes_wf(t, t0, t1),
        0 <= i < t.nodes@.len(),
    ensures
        t.nodes@[i].aabb is Some,
        aabb_wf(t.nodes@[i].aabb.unwrap()),
        forall|k: int|
            0 <= k < subtree_prims(t, i).len() ==> #[trigger] covered_prim(t, i, k, t0, t1),
    decreases i,
{
    assert(node_wf(t, i));
    assert(node_boxes_linked(t, i, t0, t1));
    let n = t.nodes@[i];
    let s = subtree_prims(t, i);
    match (n.left, n.right) {
        (Some(l), Some(r)) => {
            lemma_node_box_covers(t, l.index as int, t0, t1);
            lemma_node_box_covers(t, r.index as int, t0, t1);
            let bl = t.nodes@[l.index as int].aabb.unwrap();
            let br = t.nodes@[r.index as int].aabb.unwrap();
            crate::aabb::lemma_box_union_contains(bl, br);
            let sl = subtree_prims(t, l.index as int);
            let sr = subtree_prims(t, r.index as int);
            assert forall|k: int| 0 <= k < s.len() implies #[trigger] covered_prim(
                t,
                i,
                k,
                t0,
                t1,
            ) by {
                if k < sl.len() {
                    assert(covered_prim(t, l.index as int, k, t0, t1));
                    assert(s[k] == sl[k]);
                } else {
                    assert(covered_prim(t, r.index as int, k - sl.len(), t0, t1));
                    assert(s[k] == sr[k - sl.len()]);
                }
            }
        },
        (None, None) => {
            let p = n.hitable.unwrap();
            lemma_hitable_box_some(t.prims@[p as int], t0, t1);
            assert forall|k: int| 0 <= k < s.len() implies #[trigger] covered_prim(
                t,
                i,
                k,
                t0,
                t1,
            ) by {
                assert(s[k] == t.prims@[p as int]);
            }
        },
        _ => {
            assert(false);
        },
    }
}

/// Pruning is sound for any query against a tree whose boxes are linked
/// and whose primitives each pass their own box's slab test whenever
/// they are hit: the node boxes inherit the hits by monotonicity of the
/// slab test under containment.
pub proof fn lemma_prune_safe_from_primitives(
    t: BvhTree,
    ray: Ray,
    t_min: int,
    t_max: int,
    t0: int,
    t1: int,
)
    requires
        nodes_wf(t),
        boxes_linked(t, t0, t1),
        prims_boxes_wf(t, t0, t1),
        prims_boxed(t, ray, t_min, t_max, t0, t1),
    ensures
        prune_safe(t, ray, t_min, t_max),
{
    assert forall|i: int| 0 <= i < t.nodes@.len() implies #[trigger] prune_ok_at(
        t,
        i,
        ray,
        t_min,
        t_max,
    ) by {
        let s = subtree_prims(t, i);
        if exists|rec: HitRecord| seq_has_hit(s, ray, t_min, t_max, rec) {
            let rec = choose|rec: HitRecord| seq_has_hit(s, ray, t_min, t_max, rec);
            let k = choose|k: int|
                0 <= k < s.len() && #[trigger] hitable_hit_spec(s[k], ray, t_min, t_max)
                    == Some(rec);
            lemma_node_box_covers(t, i, t0, t1);
            assert(covered_prim(t, i, k, t0, t1));
            let j = choose|j: int| 0 <= j < t.prims@.len() && s[k] == #[trigger] t.prims@[j];
            assert(hitable_hit_spec(t.prims@[j], ray, t_min, t_max) is Some);
            assert(aabb_hit(hitable_box_spec(t.prims@[j], t0, t1).unwrap(), ray, t_min, t_max));
            assert(aabb_wf(hitable_box_spec(t.prims@[j], t0, t1).unwrap()));
            crate::aabb::lemma_aabb_hit_monotone(
                t.nodes@[i].aabb.unwrap(),
                hitable_box_spec(s[k], t0, t1).unwrap(),
                ray,
                0,
                t_min,
                t_max,
                t_min,
                t_max,
            );
        }
    }
}

/// The traversal agrees with the brute-force linear scan, from the
/// leaf-level hypothesis alone: in a well-formed tree with linked,
/// well-formed boxes, if every primitive the ray hits passes its own
/// box's slab test, the tree query returns a hit at the same parameter
/// as the fold over any collection holding the same primitives.
pub proof fn lemma_bvh_matches_linear_from_primitives(
    t: BvhTree,
    list: Seq<Hitable>,
    ray: Ray,
    t_min: int,
    t_max: int,
    t0: int,
    t1: int,
)
    requires
        tree_wf(t),
        boxes_linked(t, t0, t1),
        prims_boxes_wf(t, t0, t1),
        prims_boxed(t, ray, t_min, t_max, t0, t1),
        subtree_prims(t, t.root.index as int).to_multiset() == list.to_multiset(),
    ensures
        hit_t(node_hit_spec(t, t.root.index as int, ray, t_min, t_max)) == hit_t(
            list_hit_spec(list, ray, t_min, t_max),
        ),
{
    lemma_prune_safe_from_primitives(t, ray, t_min, t_max, t0, t1);
    lemma_bvh_matches_linear(t, list, ray, t_min, t_max);
}

/// The traversal agrees with the brute-force linear scan: over any
/// collection holding the same primitives as the tree's leaves, both
/// queries return a hit at the same parameter — whenever pruning is
/// sound for the query. The tree's shape does not matter.
pub proof fn lemma_bvh_matches_linear(
    t: BvhTree,
    list: Seq<Hitable>,
    ray: Ray,
    t_min: int,
    t_max: int,
)
    requires
        tree_wf(t),
        prune_safe(t, ray, t_min, t_max),
        subtree_prims(t, t.root.index as int).to_multiset() == list.to_multiset(),
    ensures
        hit_t(node_hit_spec(t, t.root.index as int, ray, t_min, t_max)) == hit_t(
            list_hit_spec(list, ray, t_min, t_max),
        ),
{
    let sub = subtree_prims(t, t.root.index as int);
    let tree_res = node_hit_spec(t, t.root.index as int, ray, t_min, t_max);
    let lin_res = list_hit_spec(list, ray, t_min, t_max);
    lemma_node_hit_closest(t, t.root.index as int, ray, t_min, t_max);
    lemma_list_hit_closest(list, ray, t_min, t_max);
    lemma_closest_hit_permutation(sub, list, ray, t_min, t_max, tree_res);
    lemma_closest_unique_t(list, ray, t_min, t_max, tree_res, lin_res);
}

/// Framing: a node's subtree is unaffected by appending nodes above it
/// and by changes to primitives its leaves do not reference.
proof fn lemma_subtree_frame(t1: BvhTree, t2: BvhTree, i: int)
    requires
        0 <= i < t1.nodes@.len(),
        t1.nodes@.len() <= t2.nodes@.len(),
        t1.prims@.len() == t2.prims@.len(),
        forall|j: int| 0 <= j <= i ==> t2.nodes@[j] == t1.nodes@[j],
        forall|j: int|
            0 <= j <= i ==> match (#[trigger] t1.nodes@[j]).hitable {
                Some(p) => (p as int) < t1.prims@.len() && t2.prims@[p as int] == t1.prims@[
                    p as int
                ],
                None => true,
            },
    ensures
        subtree_prims(t2, i) == subtree_prims(t1, i),
    decreases i,
{
    let n = t1.nodes@[i];
    match (n.left, n.right) {
        (Some(l), Some(r)) => {
            if l.index < i && r.index < i {
                lemma_subtree_frame(t1, t2, l.index as int);
                lemma_subtree_frame(t1, t2, r.index as int);
            }
        },
        (None, None) => {
            match n.hitable {
                Some(p) => {
                    if (p as int) < t1.prims@.len() {
                        assert(subtree_prims(t2, i) =~= subtree_prims(t1, i));
                    }
                },
                None => {
                },
            }
        },
        _ => {
        },
    }
}

/// Well-shapedness of the arena depends only on the nodes and the
/// primitive count.
proof fn lemma_nodes_wf_frame(t1: BvhTree, t2: BvhTree)
    requires
        nodes_wf(t1),
        t2.nodes@ == t1.nodes@,
        t2.prims@.len() == t1.prims@.len(),
    ensures
        nodes_wf(t2),
{
    assert forall|i: int| 0 <= i < t2.nodes@.len() implies #[trigger] node_wf(t2, i) by {
        assert(node_wf(t1, i));
    }
}

/// The leaf bound depends only on the nodes.
proof fn lemma_leaves_below_frame(t1: BvhTree, t2: BvhTree, bound: int)
    requires
        leaves_below(t1, bound),
        t2.nodes@ == t1.nodes@,
    ensures
        leaves_below(t2, bound),
{
    assert forall|j: int|
        0 <= j < t2.nodes@.len() implies match (#[trigger] t2.nodes@[j]).hitable {
        Some(p) => (p as int) < bound,
        None => true,
    } by {
        assert(t2.nodes@[j] == t1.nodes@[j]);
        assert(match t1.nodes@[j].hitable {
            Some(p) => (p as int) < bound,
            None => true,
        });
    }
}

/// The multisets of a range are unchanged when the whole sequence keeps
/// its multiset and everything outside the range is unchanged in place.
proof fn lemma_frame_submultiset(s1: Seq<Hitable>, s2: Seq<Hitable>, lo: int, hi: int)
    requires
        0 <= lo <= hi <= s1.len(),
        s1.len() == s2.len(),
        s1.to_multiset() == s2.to_multiset(),
        forall|k: int| 0 <= k < s1.len() && !(lo <= k < hi) ==> s1[k] == s2[k],
    ensures
        s1.subrange(lo, hi).to_multiset() == s2.subrange(lo, hi).to_multiset(),
{
    broadcast use vstd::multiset::group_multiset_axioms;

    let len = s1.len() as int;
    let a1 = s1.subrange(0, lo);
    let m1 = s1.subrange(lo, hi);
    let z1 = s1.subrange(hi, len);
    let a2 = s2.subrange(0, lo);
    let m2 = s2.subrange(lo, hi);
    let z2 = s2.subrange(hi, len);
    assert(a1 =~= a2);
    assert(z1 =~= z2);
    assert(s1 =~= (a1 + m1) + z1);
    assert(s2 =~= (a2 + m2) + z2);
    vstd::seq_lib::lemma_multiset_commutative(a1 + m1, z1);
    vstd::seq_lib::lemma_multiset_commutative(a2 + m2, z2);
    vstd::seq_lib::lemma_multiset_commutative(a1, m1);
    vstd::seq_lib::lemma_multiset_commutative(a2, m2);
    assert forall|e: Hitable| m1.to_multiset().count(e) == m2.to_multiset().count(e) by {
        assert(s1.to_multiset().count(e) == a1.to_multiset().count(e) + m1.to_multiset().count(e)
            + z1.to_multiset().count(e));
        assert(s2.to_multiset().count(e) == a2.to_multiset().count(e) + m2.to_multiset().count(e)
            + z2.to_multiset().count(e));
    }
    assert(m1.to_multiset() =~= m2.to_multiset());
}

/// A range's multiset splits at any midpoint.
proof fn lemma_subrange_split_multiset(s: Seq<Hitable>, lo: int, mid: int, hi: int)
    requires
        0 <= lo <= mid <= hi <= s.len(),
    ensures
        s.subrange(lo, hi).to_multiset() == s.subrange(lo, mid).to_multiset().add(
            s.subrange(mid, hi).to_multiset(),
        ),
{
    assert(s.subrange(lo, hi) =~= s.subrange(lo, mid) + s.subrange(mid, hi));
    vstd::seq_lib::lemma_multiset_commutative(s.subrange(lo, mid), s.subrange(mid, hi));
}

impl BvhTree {
    /// Build a tree over the given primitives. The list must be
    /// non-empty; construction over an empty list is a scene-level
    /// error. The result is well-formed, its leaves hold exactly the
    /// primitives that were passed in (as a multiset; the build sorts
    /// ranges in place), and the root's subtree covers the whole list.
    pub fn new(list: HitableList, time0: Scalar, time1: Scalar, rng: &mut rand::rngs::StdRng)
        -> (t: BvhTree)
        requires
            list@.len() >= 1,
        ensures
            tree_wf(t),
            t.prims@.len() == list@.len(),
            t.prims@.to_multiset() == list@.to_multiset(),
            subtree_prims(t, t.root.index as int) == t.prims@,
            boxes_linked(t, time0@, time1@),
    {
        let n = list.len();
        let mut tree = BvhTree { nodes: Vec::new(), root: NodeId { index: 0 }, prims: list };
        let ghost orig = tree.prims@;
        proof {
            assert(tree.prims@ == orig);
        }
        let root = tree.build(0, n, time0, time1, rng);
        let ghost built = tree;
        tree.root = root;
        proof {
            lemma_nodes_wf_frame(built, tree);
            lemma_subtree_frame(built, tree, root.index as int);
            assert(tree.prims@.subrange(0, n as int) =~= tree.prims@);
            assert(orig.subrange(0, n as int) =~= orig);
            assert(subtree_prims(tree, tree.root.index as int) =~= tree.prims@);
            assert forall|i: int| 0 <= i < tree.nodes@.len() implies #[trigger] node_boxes_linked(
                tree,
                i,
                time0@,
                time1@,
            ) by {
                assert(node_boxes_linked(built, i, time0@, time1@));
            }
        }
        tree
    }

    /// Build the subtree over the primitive range `[lo, hi)`: pick a
    /// random axis, sort the range by bounding-box minimum on that axis,
    /// and split at the midpoint; ranges of one or two primitives become
    /// leaves (under a shared parent for two).
    fn build(
        &mut self,
        lo: usize,
        hi: usize,
        time0: Scalar,
        time1: Scalar,
        rng: &mut rand::rngs::StdRng,
    ) -> (ret: NodeId)
        requires
            lo < hi <= old(self).prims@.len(),
            nodes_wf(*old(self)),
            leaves_below(*old(self), lo as int),
            boxes_linked(*old(self), time0@, time1@),
        ensures
            final(self).prims@.len() == old(self).prims@.len(),
            forall|k: int|
                0 <= k < old(self).prims@.len() && !(lo <= k < hi) ==> final(self).prims@[k]
                    == old(self).prims@[k],
            final(self).prims@.subrange(lo as int, hi as int).to_multiset() == old(
                self,
            ).prims@.subrange(lo as int, hi as int).to_multiset(),
            old(self).nodes@.len() < final(self).nodes@.len(),
            forall|j: int|
                0 <= j < old(self).nodes@.len() ==> final(self).nodes@[j] == old(self).nodes@[j],
            ret.index as int == final(self).nodes@.len() - 1,
            nodes_wf(*final(self)),
            leaves_below(*final(self), hi as int),
            subtree_prims(*final(self), ret.index as int) == final(self).prims@.subrange(
                lo as int,
                hi as int,
            ),
            final(self).root == old(self).root,
            boxes_linked(*final(self), time0@, time1@),
        decreases hi - lo,
    {
        let axis = rng_below(rng, 3) as usize;
        self.sort_range(lo, hi, axis);
        proof {
            lemma_nodes_wf_frame(*old(self), *self);
            lemma_leaves_below_frame(*old(self), *self, lo as int);
            assert forall|i: int| 0 <= i < self.nodes@.len() implies #[trigger] node_boxes_linked(
                *self,
                i,
                time0@,
                time1@,
            ) by {
                assert(node_wf(*old(self), i));
                assert(node_boxes_linked(*old(self), i, time0@, time1@));
                assert(self.nodes@[i] == old(self).nodes@[i]);
                match old(self).nodes@[i].hitable {
                    Some(p) => {
                        assert((p as int) < lo as int);
                        assert(self.prims@[p as int] == old(self).prims@[p as int]);
                    },
                    None => {
                    },
                }
            }
        }
        let ghost sorted_state = *self;

        let len = hi - lo;
        if len == 1 {
            let ret = self.new_leaf(lo, time0, time1);
            proof {
                assert forall|j: int|
                    0 <= j < self.nodes@.len() implies match (#[trigger] self.nodes@[j]).hitable {
                    Some(p) => (p as int) < hi as int,
                    None => true,
                } by {
                    if j < self.nodes@.len() - 1 {
                        assert(self.nodes@[j] == sorted_state.nodes@[j]);
                        assert(match sorted_state.nodes@[j].hitable {
                            Some(p) => (p as int) < lo as int,
                            None => true,
                        });
                    }
                }
                assert(subtree_prims(*self, ret.index as int) =~= self.prims@.subrange(
                    lo as int,
                    hi as int,
                ));
                assert forall|j: int|
                    0 <= j < self.nodes@.len() implies #[trigger] node_boxes_linked(
                    *self,
                    j,
                    time0@,
                    time1@,
                ) by {
                    if j < self.nodes@.len() - 1 {
                        assert(node_wf(sorted_state, j));
                        assert(node_boxes_linked(sorted_state, j, time0@, time1@));
                    }
                }
            }
            ret
        } else if len == 2 {
            let left = self.new_leaf(lo, time0, time1);
            let right = self.new_leaf(lo + 1, time0, time1);
            let ghost with_leaves = *self;
            let box_left = self.nodes[left.index].aabb;
            let box_right = self.nodes[right.index].aabb;
            let ret = self.new_node(
                BvhNode {
                    left: Some(left),
                    right: Some(right),
                    aabb: optional_surrounding_box(box_left, box_right),
                    hitable: None,
                },
            );
            proof {
                assert forall|i: int| 0 <= i < self.nodes@.len() implies #[trigger] node_wf(
                    *self,
                    i,
                ) by {
                    if i < self.nodes@.len() - 1 {
                        assert(self.nodes@[i] == with_leaves.nodes@[i]);
                        assert(node_wf(with_leaves, i));
                    } else {
                        assert(box_left is Some && box_right is Some);
                    }
                }
                assert forall|j: int|
                    0 <= j < self.nodes@.len() implies match (#[trigger] self.nodes@[j]).hitable {
                    Some(p) => (p as int) < hi as int,
                    None => true,
                } by {
                    if j < self.nodes@.len() - 3 {
                        assert(self.nodes@[j] == sorted_state.nodes@[j]);
                        assert(match sorted_state.nodes@[j].hitable {
                            Some(p) => (p as int) < lo as int,
                            None => true,
                        });
                    }
                }
                assert(subtree_prims(*self, left.index as int) =~= seq![
                    self.prims@[lo as int],
                ]);
                assert(subtree_prims(*self, right.index as int) =~= seq![
                    self.prims@[lo + 1],
                ]);
                assert(subtree_prims(*self, ret.index as int) =~= self.prims@.subrange(
                    lo as int,
                    hi as int,
                ));
                assert forall|j: int|
                    0 <= j < self.nodes@.len() implies #[trigger] node_boxes_linked(
                    *self,
                    j,
                    time0@,
                    time1@,
                ) by {
                    if j < self.nodes@.len() - 3 {
                        assert(node_wf(sorted_state, j));
                        assert(node_boxes_linked(sorted_state, j, time0@, time1@));
                        assert(self.nodes@[j] == sorted_state.nodes@[j]);
                    }
                }
            }
            ret
        } else {
            let half_len = len / 2;
            let mid = lo + half_len;
            let left = self.build(lo, mid, time0, time1, rng);
            let ghost after_left = *self;
            let right = self.build(mid, hi, time0, time1, rng);
            let ghost after_right = *self;
            let box_left = self.nodes[left.index].aabb;
            let box_right = self.nodes[right.index].aabb;
            let ret = self.new_node(
                BvhNode {
                    left: Some(left),
                    right: Some(right),
                    aabb: optional_surrounding_box(box_left, box_right),
                    hitable: None,
                },
            );
            proof {
                assert forall|i: int| 0 <= i < self.nodes@.len() implies #[trigger] node_wf(
                    *self,
                    i,
                ) by {
                    if i < self.nodes@.len() - 1 {
                        assert(self.nodes@[i] == after_right.nodes@[i]);
                        assert(node_wf(after_right, i));
                    } else {
                        assert(node_wf(after_right, left.index as int));
                        assert(node_wf(after_right, right.index as int));
                        assert(box_left is Some && box_right is Some);
                    }
                }
                assert forall|j: int|
                    0 <= j < self.nodes@.len() implies match (#[trigger] self.nodes@[j]).hitable {
                    Some(p) => (p as int) < hi as int,
                    None => true,
                } by {
                    if j < self.nodes@.len() - 1 {
                        assert(self.nodes@[j] == after_right.nodes@[j]);
                        assert(match after_right.nodes@[j].hitable {
                            Some(p) => (p as int) < hi as int,
                            None => true,
                        });
                    }
                }
                // The left subtree is untouched by the right build and by
                // the append of the parent: its nodes keep their places
                // and its leaves point below `mid`, where the primitives
                // did not change.
                lemma_subtree_frame(after_left, *self, left.index as int);
                lemma_subtree_frame(after_right, *self, right.index as int);
                assert(after_left.prims@.subrange(lo as int, mid as int) =~= self.prims@.subrange(
                    lo as int,
                    mid as int,
                ));
                assert(subtree_prims(*self, ret.index as int) =~= self.prims@.subrange(
                    lo as int,
                    hi as int,
                ));
                // The range keeps its multiset: each half kept its own.
                lemma_subrange_split_multiset(sorted_state.prims@, lo as int, mid as int, hi as int);
                lemma_subrange_split_multiset(after_left.prims@, lo as int, mid as int, hi as int);
                lemma_subrange_split_multiset(self.prims@, lo as int, mid as int, hi as int);
                assert(after_left.prims@.subrange(mid as int, hi as int)
                    =~= sorted_state.prims@.subrange(mid as int, hi as int));
                assert(self.prims@.subrange(lo as int, mid as int) =~= after_left.prims@.subrange(
                    lo as int,
                    mid as int,
                ));
                assert forall|j: int|
                    0 <= j < self.nodes@.len() implies #[trigger] node_boxes_linked(
                    *self,
                    j,
                    time0@,
                    time1@,
                ) by {
                    if j < self.nodes@.len() - 1 {
                        assert(node_wf(after_right, j));
                        assert(node_boxes_linked(after_right, j, time0@, time1@));
                        assert(self.nodes@[j] == after_right.nodes@[j]);
                    }
                }
            }
            ret
        }
    }

    /// Append a leaf node wrapping the primitive at `p`, boxed over the
    /// given time interval.
    fn new_leaf(&mut self, p: usize, time0: Scalar, time1: Scalar) -> (ret: NodeId)
        requires
            p < old(self).prims@.len(),
            nodes_wf(*old(self)),
        ensures
            final(self).nodes@ == old(self).nodes@.push(
                BvhNode {
                    left: None,
                    right: None,
                    aabb: hitable_box_spec(old(self).prims@[p as int], time0@, time1@),
                    hitable: Some(p),
                },
            ),
            final(self).nodes@[ret.index as int].aabb is Some,
            ret.index as int == old(self).nodes@.len(),
            final(self).prims == old(self).prims,
            final(self).root == old(self).root,
            nodes_wf(*final(self)),
    {
        let h = self.prims[p];
        let bx = h.bounding_box(time0, time1);
        let ret = self.new_node(BvhNode { left: None, right: None, aabb: bx, hitable: Some(p) });
        proof {
            assert forall|i: int| 0 <= i < self.nodes@.len() implies #[trigger] node_wf(
                *self,
                i,
            ) by {
                if i < self.nodes@.len() - 1 {
                    assert(node_wf(*old(self), i));
                }
            }
        }
        ret
    }

    /// Append a node to the arena and return its id.
    fn new_node(&mut self, node: BvhNode) -> (ret: NodeId)
        ensures
            final(self).nodes@ == old(self).nodes@.push(node),
            ret.index as int == old(self).nodes@.len(),
            final(self).prims == old(self).prims,
            final(self).root == old(self).root,
    {
        let index = self.nodes.len();
        self.nodes.push(node);
        NodeId { index }
    }

    /// Sort the primitive range `[lo, hi)` in place by bounding-box
    /// minimum on the axis (insertion sort): afterwards the range is
    /// sorted and holds the same primitives; everything outside it is
    /// untouched.
    fn sort_range(&mut self, lo: usize, hi: usize, axis: usize)
        requires
            axis < 3,
            lo <= hi <= old(self).prims@.len(),
        ensures
            final(self).prims@.len() == old(self).prims@.len(),
            forall|k: int|
                0 <= k < old(self).prims@.len() && !(lo <= k < hi) ==> final(self).prims@[k]
                    == old(self).prims@[k],
            final(self).prims@.subrange(lo as int, hi as int).to_multiset() == old(
                self,
            ).prims@.subrange(lo as int, hi as int).to_multiset(),
            sorted_range(final(self).prims@, lo as int, hi as int, axis as int),
            final(self).nodes == old(self).nodes,
            final(self).root == old(self).root,
    {
        if hi - lo <= 1 {
            proof {
                assert(final(self).prims@.subrange(lo as int, hi as int) =~= old(
                    self,
                ).prims@.subrange(lo as int, hi as int));
            }
            return ;
        }
        let ghost orig = *old(self);
        let mut i: usize = lo + 1;
        while i < hi
            invariant
                lo + 1 <= i <= hi <= self.prims@.len(),
                axis < 3,
                self.prims@.len() == orig.prims@.len(),
                forall|k: int|
                    0 <= k < orig.prims@.len() && !(lo <= k < hi) ==> self.prims@[k]
                        == orig.prims@[k],
                self.prims@.to_multiset() == orig.prims@.to_multiset(),
                sorted_range(self.prims@, lo as int, i as int, axis as int),
                self.nodes == orig.nodes,
                self.root == orig.root,
            decreases hi - i,
        {
            let mut j: usize = i;
            while j > lo && box_min_axis(&self.prims[j - 1], axis) > box_min_axis(
                &self.prims[j],
                axis,
            )
                invariant
                    lo <= j <= i < hi <= self.prims@.len(),
                    axis < 3,
                    self.prims@.len() == orig.prims@.len(),
                    forall|k: int|
                        0 <= k < orig.prims@.len() && !(lo <= k < hi) ==> self.prims@[k]
                            == orig.prims@[k],
                    self.prims@.to_multiset() == orig.prims@.to_multiset(),
                    forall|a: int, b: int|
                        lo <= a < b <= i as int && a != j && b != j ==> box_key(
                            #[trigger] self.prims@[a],
                            axis as int,
                        ) <= box_key(#[trigger] self.prims@[b], axis as int),
                    forall|b: int|
                        (j as int) < b <= i as int ==> box_key(self.prims@[j as int], axis as int)
                            <= box_key(#[trigger] self.prims@[b], axis as int),
                    self.nodes == orig.nodes,
                    self.root == orig.root,
                decreases j,
            {
                self.swap_prims(j - 1, j);
                j = j - 1;
            }
            i = i + 1;
        }
        proof {
            lemma_frame_submultiset(self.prims@, orig.prims@, lo as int, hi as int);
        }
    }

    /// Swap two primitives in place.
    fn swap_prims(&mut self, a: usize, b: usize)
        requires
            a < b < old(self).prims@.len(),
        ensures
            final(self).prims@ == old(self).prims@.update(a as int, old(self).prims@[b as int])
                .update(b as int, old(self).prims@[a as int]),
            final(self).prims@.to_multiset() == old(self).prims@.to_multiset(),
            final(self).nodes == old(self).nodes,
            final(self).root == old(self).root,
    {
        let x = self.prims[a];
        let y = self.prims[b];
        self.prims.set(a, y);
        self.prims.set(b, x);
        proof {
            broadcast use vstd::multiset::group_multiset_axioms;

            let s = old(self).prims@;
            vstd::seq_lib::to_multiset_update(s, a as int, s[b as int]);
            vstd::seq_lib::to_multiset_update(
                s.update(a as int, s[b as int]),
                b as int,
                s[a as int],
            );
            vstd::seq_lib::to_multiset_contains(s, s[a as int]);
            assert(s.contains(s[a as int]));
            assert(s.contains(s[b as int])) by {
                vstd::seq_lib::to_multiset_contains(s, s[b as int]);
            }
            assert forall|e: Hitable| self.prims@.to_multiset().count(e) == s.to_multiset().count(
                e,
            ) by {
            }
            assert(self.prims@.to_multiset() =~= s.to_multiset());
        }
    }

    /// Traverse the subtree at `node_id`: prune when the node's box
    /// rejects the interval; otherwise recurse into both children and
    /// keep the closer record, or, at a leaf, delegate to the wrapped
    /// primitive.
    fn hit_node(&self, node_id: NodeId, r: &Ray, t_min: Scalar, t_max: Scalar) -> (res: Option<
        HitRecord,
    >)
        requires
            nodes_wf(*self),
            (node_id.index as int) < self.nodes@.len(),
        ensures
            res == node_hit_spec(*self, node_id.index as int, *r, t_min@, t_max@),
        decreases node_id.index,
    {
        proof {
            assert(node_wf(*self, node_id.index as int));
        }
        let node = &self.nodes[node_id.index];
        if let Some(aabb) = node.aabb {
            if aabb.hit(r, t_min, t_max) {
                match (node.left, node.right) {
                    (Some(left), Some(right)) => {
                        match (
                            self.hit_node(left, r, t_min, t_max),
                            self.hit_node(right, r, t_min, t_max),
                        ) {
                            (Some(left_rec), Some(right_rec)) => if left_rec.t.lt(right_rec.t) {
                                Some(left_rec)
                            } else {
                                Some(right_rec)
                            },
                            (Some(left_rec), None) => Some(left_rec),
                            (None, Some(right_rec)) => Some(right_rec),
                            (None, None) => None,
                        }
                    },
                    (None, None) => {
                        match node.hitable {
                            Some(p) => self.prims[p].hit(r, t_min, t_max),
                            None => {
                                proof {
                                    assert(false);
                                }
                                None
                            },
                        }
                    },
                    _ => {
                        proof {
                            assert(false);
                        }
                        None
                    },
                }
            } else {
                None
            }
        } else {
            None
        }
    }

    /// The bounding box of the whole tree: the root's box.
    pub fn bounding_box(&self, _t0: Scalar, _t1: Scalar) -> (res: Option<Aabb>)
        requires
            tree_wf(*self),
        ensures
            res == self.nodes@[self.root.index as int].aabb,
    {
        self.nodes[self.root.index].aabb
    }

    /// Nearest hit of the whole tree: traverse from the root. The result
    /// is exactly the traversal's answer; and whenever pruning is sound
    /// for this query, it is a nearest hit of all primitives under the
    /// root.
    pub fn hit(&self, r: &Ray, t_min: Scalar, t_max: Scalar) -> (res: Option<HitRecord>)
        requires
            tree_wf(*self),
        ensures
            res == node_hit_spec(*self, self.root.index as int, *r, t_min@, t_max@),
            prune_safe(*self, *r, t_min@, t_max@) ==> is_closest_hit(
                subtree_prims(*self, self.root.index as int),
                *r,
                t_min@,
                t_max@,
                res,
            ),
    {
        let res = self.hit_node(self.root, r, t_min, t_max);
        proof {
            if prune_safe(*self, *r, t_min@, t_max@) {
                lemma_node_hit_closest(*self, self.root.index as int, *r, t_min@, t_max@);
            }
        }
        res
    }
}

/// The sort key of a primitive on an axis, as a raw scalar.
fn box_min_axis(h: &Hitable, axis: usize) -> (k: i64)
    requires
        axis < 3,
    ensures
        k as int == box_key(*h, axis as int),
{
    let b = h.bounding_box(Scalar::zero(), Scalar::zero());
    match b {
        Some(bx) => bx.min.axis(axis).raw(),
        None => 0,
    }
}

} // verus!
