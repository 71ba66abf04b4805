//! The bounding-volume hierarchy: a binary tree of boxes over the primitives
//! of a scene, which lets a ray skip whole groups of them.
//!
//! The tree knows a primitive by its index in the caller's list and by its
//! box.  Whether a ray passes a box, and where it meets a primitive, is
//! arithmetic that the caller supplies as two functions.

use vstd::prelude::*;
use crate::hittable::aabb::{lemma_union_encloses, lemma_within_transitive, AABB};
use crate::hittable::{
    closer, closer_hit, distance, distances_ordered, is_nearest, lemma_closer_is_nearest,
    lemma_nearest_distance_unique, lemma_scan_is_nearest, nearest, HitRecord,
};
use crate::ray::Ray;
use crate::scalar::Scalar;
use crate::Rand;
use rand::Rng;

verus! {

/// The position of a node in its tree.
#[derive(Clone, Copy, Debug, PartialEq, Eq, Structural)]
pub struct NodeId {
    pub index: usize,
}

/// A node of the hierarchy.
#[derive(Clone, Copy, Debug, PartialEq, Eq, Structural)]
pub enum BvhNode {
    /// One primitive, `hittable` in the caller's list, with its box.
    Leaf { aabb: AABB, hittable: usize },
    /// Two subtrees and the box around both.
    Branch { aabb: AABB, left: NodeId, right: NodeId },
}

impl BvhNode {
    pub open spec fn bounds(self) -> AABB {
        match self {
            BvhNode::Leaf { aabb, .. } => aabb,
            BvhNode::Branch { aabb, .. } => aabb,
        }
    }
}

/// Children come before their parents, a branch's box is the box around its
/// children's, and every leaf names one of `count` primitives.
pub open spec fn nodes_wf(nodes: Seq<BvhNode>, count: int) -> bool {
    forall|i: int|
        0 <= i < nodes.len() ==> match #[trigger] nodes[i] {
            BvhNode::Leaf { hittable, .. } => hittable < count,
            BvhNode::Branch { aabb, left, right } => {
                &&& left.index < i
                &&& right.index < i
                &&& aabb == AABB::union(
                    nodes[left.index as int].bounds(),
                    nodes[right.index as int].bounds(),
                )
            },
        }
}

/// The primitives below node `id`, from left to right.
pub open spec fn leaves(nodes: Seq<BvhNode>, id: int) -> Seq<usize>
    decreases id,
{
    if id < 0 || id >= nodes.len() {
        Seq::empty()
    } else {
        match nodes[id] {
            BvhNode::Leaf { hittable, .. } => seq![hittable],
            BvhNode::Branch { left, right, .. } => {
                if left.index < id && right.index < id {
                    leaves(nodes, left.index as int) + leaves(nodes, right.index as int)
                } else {
                    Seq::empty()
                }
            },
        }
    }
}

/// What a traversal from node `id` returns, when `pass` tells which boxes
/// the ray passes and `leaf` where it meets each primitive.
///
/// A box that the ray misses ends the search below it.  Both children of a
/// branch are searched over the same interval.
pub open spec fn traverse(
    nodes: Seq<BvhNode>,
    id: int,
    ray: Ray,
    t_min: Scalar,
    t_max: Scalar,
    pass: spec_fn(AABB, Ray, Scalar, Scalar) -> bool,
    leaf: spec_fn(usize, Ray, Scalar, Scalar) -> Option<HitRecord>,
) -> Option<HitRecord>
    decreases id,
{
    if id < 0 || id >= nodes.len() {
        None
    } else if !pass(nodes[id].bounds(), ray, t_min, t_max) {
        None
    } else {
        match nodes[id] {
            BvhNode::Leaf { hittable, .. } => leaf(hittable, ray, t_min, t_max),
            BvhNode::Branch { left, right, .. } => {
                if left.index < id && right.index < id {
                    closer(
                        traverse(nodes, left.index as int, ray, t_min, t_max, pass, leaf),
                        traverse(nodes, right.index as int, ray, t_min, t_max, pass, leaf),
                    )
                } else {
                    None
                }
            },
        }
    }
}

/// Whatever the box test `f` answers is what `pass` says.
pub open spec fn box_test_is<F: Fn(&AABB, &Ray, Scalar, Scalar) -> bool>(
    f: F,
    pass: spec_fn(AABB, Ray, Scalar, Scalar) -> bool,
) -> bool {
    forall|aabb: &AABB, ray: &Ray, t_min: Scalar, t_max: Scalar, out: bool|
        #[trigger] call_ensures(f, (aabb, ray, t_min, t_max), out) ==> out == pass(
            *aabb,
            *ray,
            t_min,
            t_max,
        )
}

/// Whatever the primitive test `f` answers is what `leaf` says.
pub open spec fn leaf_hit_is<G: Fn(usize, &Ray, Scalar, Scalar) -> Option<HitRecord>>(
    f: G,
    leaf: spec_fn(usize, Ray, Scalar, Scalar) -> Option<HitRecord>,
) -> bool {
    forall|hittable: usize, ray: &Ray, t_min: Scalar, t_max: Scalar, out: Option<HitRecord>|
        #[trigger] call_ensures(f, (hittable, ray, t_min, t_max), out) ==> out == leaf(
            hittable,
            *ray,
            t_min,
            t_max,
        )
}

/// The number by which the primitive `hittable` is sorted along `axis`: the
/// rank of its box's minimum corner on that axis.
pub open spec fn sort_key_spec(boxes: Seq<AABB>, hittable: usize, axis: usize) -> int {
    boxes[hittable as int].min.at(axis as int).rank()
}

/// `after` holds the items of `before` in another order, in which items with
/// equal keys have kept their places relative to each other.
#[verifier::opaque]
pub open spec fn stable_rearrangement(
    before: Seq<usize>,
    after: Seq<usize>,
    boxes: Seq<AABB>,
    axis: usize,
) -> bool {
    exists|from: Seq<int>|
        {
            &&& from.len() == after.len()
            &&& before.len() == after.len()
            &&& forall|k: int|
                0 <= k < after.len() ==> 0 <= #[trigger] from[k] < before.len() && after[k]
                    == before[from[k]]
            &&& forall|i: int, j: int|
                0 <= i < j < after.len() ==> #[trigger] from[i] != #[trigger] from[j]
            &&& forall|i: int, j: int|
                0 <= i < j < after.len() && sort_key_spec(boxes, after[i], axis) == sort_key_spec(
                    boxes,
                    after[j],
                    axis,
                ) ==> #[trigger] from[i] < #[trigger] from[j]
        }
}

/// Two sequences of one length that hold the same items.
#[verifier::opaque]
pub open spec fn same_items(a: Seq<usize>, b: Seq<usize>) -> bool {
    &&& a.len() == b.len()
    &&& forall|x: usize| a.contains(x) <==> b.contains(x)
}

/// Along `axis`, no primitive below the left child of branch `id` has its
/// minimum corner after that of a primitive below the right child.
pub open spec fn split_on(nodes: Seq<BvhNode>, boxes: Seq<AABB>, id: int, axis: int) -> bool {
    nodes[id] matches BvhNode::Branch { left, right, .. } ==> forall|i: int, j: int|
        #![trigger leaves(nodes, left.index as int)[i], leaves(nodes, right.index as int)[j]]
        0 <= i < leaves(nodes, left.index as int).len() && 0 <= j < leaves(
            nodes,
            right.index as int,
        ).len() ==> boxes[leaves(nodes, left.index as int)[i] as int].min.at(axis).le_spec(
            boxes[leaves(nodes, right.index as int)[j] as int].min.at(axis),
        )
}

/// What holds of a node that was built over `boxes`: a leaf carries its
/// primitive's box, and a branch has the left half of its primitives, in the
/// order of some axis, below its left child and the rest below its right child.
pub open spec fn built_node(nodes: Seq<BvhNode>, boxes: Seq<AABB>, id: int) -> bool {
    match nodes[id] {
        BvhNode::Leaf { aabb, hittable } => hittable < boxes.len() && aabb == boxes[hittable as int],
        BvhNode::Branch { left, right, .. } => {
            &&& leaves(nodes, left.index as int).len() == leaves(nodes, id).len() / 2
            &&& exists|axis: int| 0 <= axis < 3 && #[trigger] split_on(nodes, boxes, id, axis)
        },
    }
}

/// The rank of the minimum corner of the box of `hittable` along `axis`.
pub fn sort_key(boxes: &Vec<AABB>, hittable: usize, axis: usize) -> (r: i64)
    requires
        hittable < boxes.len(),
        axis < 3,
    ensures
        r == sort_key_spec(boxes@, hittable, axis),
{
    boxes[hittable].min.get(axis).rank_value()
}

/// `rand::Rng::gen_range` on `0..3`: one of the three axes, whichever the
/// generator's state gives.  Nothing is claimed of which.
#[verifier::external_body]
fn random_axis(rng: &mut Rand) -> (axis: usize)
    ensures
        axis < 3,
{
    rng.gen_range(0..3)
}

/// `slice::sort_by_key` on `order[lo..hi]`, with `sort_key` along `axis` as
/// the key.  The slice comes back with the same items, in ascending order of
/// their keys, items of equal key in their old order; the rest of `order`
/// is untouched.
#[verifier::external_body]
fn sort_by_key(order: &mut Vec<usize>, lo: usize, hi: usize, boxes: &Vec<AABB>, axis: usize)
    requires
        lo <= hi <= old(order).len(),
        axis < 3,
        forall|k: int| lo <= k < hi ==> old(order)[k] < boxes.len(),
    ensures
        final(order).len() == old(order).len(),
        forall|k: int|
            0 <= k < lo || hi <= k < old(order).len() ==> final(order)[k] == old(order)[k],
        final(order)@.subrange(lo as int, hi as int).to_multiset() == old(order)@.subrange(
            lo as int,
            hi as int,
        ).to_multiset(),
        forall|i: int, j: int|
            lo <= i <= j < hi ==> sort_key_spec(boxes@, final(order)[i], axis) <= sort_key_spec(
                boxes@,
                final(order)[j],
                axis,
            ),
        stable_rearrangement(
            old(order)@.subrange(lo as int, hi as int),
            final(order)@.subrange(lo as int, hi as int),
            boxes@,
            axis,
        ),
{
    order[lo..hi].sort_by_key(|hittable| sort_key(boxes, *hittable, axis));
}

/// Every node of `nodes` is well formed and is what a build over `boxes`
/// leaves.
#[verifier::opaque]
pub open spec fn built(nodes: Seq<BvhNode>, boxes: Seq<AABB>) -> bool {
    &&& nodes_wf(nodes, boxes.len() as int)
    &&& forall|i: int| 0 <= i < nodes.len() ==> #[trigger] built_node(nodes, boxes, i)
}

/// `longer` starts with the nodes of `shorter`.
pub open spec fn extends(shorter: Seq<BvhNode>, longer: Seq<BvhNode>) -> bool {
    &&& shorter.len() <= longer.len()
    &&& forall|i: int| 0 <= i < shorter.len() ==> longer[i] == shorter[i]
}

proof fn lemma_leaves_extend(shorter: Seq<BvhNode>, longer: Seq<BvhNode>, id: int)
    requires
        extends(shorter, longer),
        0 <= id < shorter.len(),
    ensures
        leaves(longer, id) == leaves(shorter, id),
    decreases id,
{
    match shorter[id] {
        BvhNode::Leaf { .. } => {},
        BvhNode::Branch { left, right, .. } => {
            if left.index < id && right.index < id {
                lemma_leaves_extend(shorter, longer, left.index as int);
                lemma_leaves_extend(shorter, longer, right.index as int);
            }
        },
    }
}

proof fn lemma_built_extend(shorter: Seq<BvhNode>, longer: Seq<BvhNode>, boxes: Seq<AABB>)
    requires
        extends(shorter, longer),
        built(shorter, boxes),
    ensures
        forall|i: int| 0 <= i < shorter.len() ==> #[trigger] built_node(longer, boxes, i),
{
    reveal(built);
    assert forall|i: int| 0 <= i < shorter.len() implies #[trigger] built_node(
        longer,
        boxes,
        i,
    ) by {
        assert(built_node(shorter, boxes, i));
        lemma_leaves_extend(shorter, longer, i);
        match shorter[i] {
            BvhNode::Leaf { .. } => {},
            BvhNode::Branch { left, right, .. } => {
                lemma_leaves_extend(shorter, longer, left.index as int);
                lemma_leaves_extend(shorter, longer, right.index as int);
                let axis = choose|axis: int| 0 <= axis < 3 && #[trigger] split_on(shorter, boxes, i, axis);
                assert(split_on(longer, boxes, i, axis));
            },
        }
    }
}

proof fn lemma_multiset_same_items(a: Seq<usize>, b: Seq<usize>)
    requires
        a.to_multiset() == b.to_multiset(),
    ensures
        same_items(a, b),
{
    reveal(same_items);
    a.to_multiset_ensures();
    b.to_multiset_ensures();
    assert forall|x: usize| a.contains(x) <==> b.contains(x) by {
        assert(a.contains(x) <==> a.to_multiset().count(x) > 0);
        assert(b.contains(x) <==> b.to_multiset().count(x) > 0);
    }
}

/// The items of a sorted slice stay within bounds and, once each half has
/// been rearranged within itself, still split along the axis.
proof fn lemma_halves_split(
    sorted: Seq<usize>,
    left: Seq<usize>,
    right: Seq<usize>,
    mid: int,
    boxes: Seq<AABB>,
    axis: usize,
)
    requires
        0 <= mid <= sorted.len(),
        same_items(sorted.subrange(0, mid), left),
        same_items(sorted.subrange(mid, sorted.len() as int), right),
        forall|k: int| 0 <= k < sorted.len() ==> #[trigger] sorted[k] < boxes.len(),
        forall|i: int| 0 <= i < boxes.len() ==> !(#[trigger] boxes[i]).min.has_nan(),
        forall|i: int, j: int|
            0 <= i <= j < sorted.len() ==> sort_key_spec(boxes, sorted[i], axis) <= sort_key_spec(
                boxes,
                sorted[j],
                axis,
            ),
    ensures
        forall|i: int, j: int|
            #![trigger left[i], right[j]]
            0 <= i < left.len() && 0 <= j < right.len() ==> boxes[left[i] as int].min.at(
                axis as int,
            ).le_spec(boxes[right[j] as int].min.at(axis as int)),
{
    reveal(same_items);
    let first = sorted.subrange(0, mid);
    let second = sorted.subrange(mid, sorted.len() as int);
    assert forall|i: int, j: int|
        #![trigger left[i], right[j]]
        0 <= i < left.len() && 0 <= j < right.len() implies boxes[left[i] as int].min.at(
        axis as int,
    ).le_spec(boxes[right[j] as int].min.at(axis as int)) by {
        let x = left[i];
        let y = right[j];
        assert(left.contains(x));
        assert(right.contains(y));
        assert(first.contains(x));
        assert(second.contains(y));
        let a = choose|a: int| 0 <= a < first.len() && first[a] == x;
        let b = choose|b: int| 0 <= b < second.len() && second[b] == y;
        assert(sorted[a] == x);
        assert(sorted[mid + b] == y);
        assert(sort_key_spec(boxes, sorted[a], axis) <= sort_key_spec(boxes, sorted[mid + b], axis));
        assert(!boxes[x as int].min.has_nan());
        assert(!boxes[y as int].min.has_nan());
    }
}

/// A leaf pushed onto built nodes leaves them built.
proof fn lemma_push_leaf(nodes: Seq<BvhNode>, boxes: Seq<AABB>, hittable: usize)
    requires
        built(nodes, boxes),
        hittable < boxes.len(),
    ensures
        built(nodes.push(BvhNode::Leaf { aabb: boxes[hittable as int], hittable }), boxes),
        leaves(
            nodes.push(BvhNode::Leaf { aabb: boxes[hittable as int], hittable }),
            nodes.len() as int,
        ) == seq![hittable],
        extends(nodes, nodes.push(BvhNode::Leaf { aabb: boxes[hittable as int], hittable })),
{
    reveal(built);
    let all = nodes.push(BvhNode::Leaf { aabb: boxes[hittable as int], hittable });
    assert(extends(nodes, all));
    lemma_built_extend(nodes, all, boxes);
    assert(built_node(all, boxes, nodes.len() as int));
    assert forall|i: int| 0 <= i < all.len() implies #[trigger] built_node(all, boxes, i) by {}
    assert(nodes_wf(all, boxes.len() as int)) by {
        assert forall|i: int| 0 <= i < all.len() implies match #[trigger] all[i] {
            BvhNode::Leaf { hittable, .. } => hittable < boxes.len(),
            BvhNode::Branch { aabb, left, right } => {
                &&& left.index < i
                &&& right.index < i
                &&& aabb == AABB::union(
                    all[left.index as int].bounds(),
                    all[right.index as int].bounds(),
                )
            },
        } by {
            if i < nodes.len() {
                assert(all[i] == nodes[i]);
            }
        }
    }
}

/// A branch over two built subtrees whose primitives split along an axis,
/// pushed onto built nodes, leaves them built.
proof fn lemma_push_branch(
    nodes: Seq<BvhNode>,
    boxes: Seq<AABB>,
    left: NodeId,
    right: NodeId,
    axis: usize,
)
    requires
        built(nodes, boxes),
        left.index < nodes.len(),
        right.index < nodes.len(),
        axis < 3,
        leaves(nodes, left.index as int).len() == (leaves(nodes, left.index as int).len() + leaves(
            nodes,
            right.index as int,
        ).len()) / 2,
        forall|i: int, j: int|
            #![trigger leaves(nodes, left.index as int)[i], leaves(nodes, right.index as int)[j]]
            0 <= i < leaves(nodes, left.index as int).len() && 0 <= j < leaves(
                nodes,
                right.index as int,
            ).len() ==> boxes[leaves(nodes, left.index as int)[i] as int].min.at(
                axis as int,
            ).le_spec(boxes[leaves(nodes, right.index as int)[j] as int].min.at(axis as int)),
    ensures
        ({
            let aabb = AABB::union(
                nodes[left.index as int].bounds(),
                nodes[right.index as int].bounds(),
            );
            let all = nodes.push(BvhNode::Branch { aabb, left, right });
            &&& built(all, boxes)
            &&& extends(nodes, all)
            &&& leaves(all, nodes.len() as int) == leaves(nodes, left.index as int) + leaves(
                nodes,
                right.index as int,
            )
        }),
{
    reveal(built);
    let aabb = AABB::union(nodes[left.index as int].bounds(), nodes[right.index as int].bounds());
    let all = nodes.push(BvhNode::Branch { aabb, left, right });
    let id = nodes.len() as int;
    assert(extends(nodes, all));
    lemma_built_extend(nodes, all, boxes);
    lemma_leaves_extend(nodes, all, left.index as int);
    lemma_leaves_extend(nodes, all, right.index as int);
    assert(split_on(all, boxes, id, axis as int));
    assert(built_node(all, boxes, id));
    assert forall|i: int| 0 <= i < all.len() implies #[trigger] built_node(all, boxes, i) by {}
    assert(nodes_wf(all, boxes.len() as int)) by {
        assert forall|i: int| 0 <= i < all.len() implies match #[trigger] all[i] {
            BvhNode::Leaf { hittable, .. } => hittable < boxes.len(),
            BvhNode::Branch { aabb, left, right } => {
                &&& left.index < i
                &&& right.index < i
                &&& aabb == AABB::union(
                    all[left.index as int].bounds(),
                    all[right.index as int].bounds(),
                )
            },
        } by {
            if i < nodes.len() {
                assert(all[i] == nodes[i]);
            }
        }
    }
}

/// After a slice has been sorted and each of its halves rebuilt in place,
/// the slice holds the items that it held at first.
proof fn lemma_rebuilt_slice(
    order0: Seq<usize>,
    sorted: Seq<usize>,
    order2: Seq<usize>,
    lo: int,
    mid: int,
    hi: int,
)
    requires
        0 <= lo <= mid <= hi <= order0.len(),
        sorted.len() == order0.len(),
        order2.len() == order0.len(),
        same_items(order0.subrange(lo, hi), sorted.subrange(lo, hi)),
        same_items(sorted.subrange(lo, mid), order2.subrange(lo, mid)),
        same_items(sorted.subrange(mid, hi), order2.subrange(mid, hi)),
    ensures
        same_items(order0.subrange(lo, hi), order2.subrange(lo, hi)),
        order2.subrange(lo, hi) == order2.subrange(lo, mid) + order2.subrange(mid, hi),
{
    reveal(same_items);
    assert(order2.subrange(lo, hi) =~= order2.subrange(lo, mid) + order2.subrange(mid, hi));
    assert(sorted.subrange(lo, hi) =~= sorted.subrange(lo, mid) + sorted.subrange(mid, hi));
    lemma_same_items_concat(
        sorted.subrange(lo, mid),
        sorted.subrange(mid, hi),
        order2.subrange(lo, mid),
        order2.subrange(mid, hi),
    );
}

/// A sorted slice keeps its items within the bounds that they had.
proof fn lemma_sorted_in_bounds(order0: Seq<usize>, sorted: Seq<usize>, lo: int, hi: int, bound: int)
    requires
        0 <= lo <= hi <= order0.len(),
        sorted.len() == order0.len(),
        forall|k: int| 0 <= k < order0.len() ==> #[trigger] order0[k] < bound,
        forall|k: int| 0 <= k < lo || hi <= k < order0.len() ==> sorted[k] == order0[k],
        same_items(order0.subrange(lo, hi), sorted.subrange(lo, hi)),
    ensures
        forall|k: int| 0 <= k < sorted.len() ==> #[trigger] sorted[k] < bound,
{
    reveal(same_items);
    assert forall|k: int| 0 <= k < sorted.len() implies #[trigger] sorted[k] < bound by {
        if lo <= k < hi {
            let x = sorted[k];
            assert(sorted.subrange(lo, hi)[k - lo] == x);
            assert(sorted.subrange(lo, hi).contains(x));
            assert(order0.subrange(lo, hi).contains(x));
            let i = choose|i: int|
                0 <= i < order0.subrange(lo, hi).len() && order0.subrange(lo, hi)[i] == x;
            assert(order0[lo + i] == x);
        }
    }
}

proof fn lemma_same_items_concat(a1: Seq<usize>, b1: Seq<usize>, a2: Seq<usize>, b2: Seq<usize>)
    requires
        same_items(a1, a2),
        same_items(b1, b2),
    ensures
        same_items(a1 + b1, a2 + b2),
{
    reveal(same_items);
    assert forall|x: usize| (a1 + b1).contains(x) <==> (a2 + b2).contains(x) by {
        lemma_concat_contains(a1, b1, x);
        lemma_concat_contains(a2, b2, x);
    }
}

proof fn lemma_same_items_refl(a: Seq<usize>)
    ensures
        same_items(a, a),
{
    reveal(same_items);
}

proof fn lemma_concat_contains(a: Seq<usize>, b: Seq<usize>, x: usize)
    ensures
        (a + b).contains(x) <==> a.contains(x) || b.contains(x),
{
    if (a + b).contains(x) {
        let i = choose|i: int| 0 <= i < (a + b).len() && (a + b)[i] == x;
        if i < a.len() {
            assert(a[i] == x);
        } else {
            assert(b[i - a.len()] == x);
        }
    }
    if a.contains(x) {
        let i = choose|i: int| 0 <= i < a.len() && a[i] == x;
        assert((a + b)[i] == x);
    }
    if b.contains(x) {
        let i = choose|i: int| 0 <= i < b.len() && b[i] == x;
        assert((a + b)[a.len() + i] == x);
    }
}

/// A hierarchy over the primitives `0 .. hittables` of a scene.
pub struct BvhTree {
    nodes: Vec<BvhNode>,
    root: NodeId,
    hittables: usize,
}

impl BvhTree {
    #[verifier::type_invariant]
    spec fn inv(self) -> bool {
        &&& nodes_wf(self.nodes@, self.hittables as int)
        &&& self.root.index < self.nodes.len()
        &&& leaves(self.nodes@, self.root.index as int).len() == self.hittables
    }

    /// The nodes, children before parents.
    pub closed spec fn nodes(self) -> Seq<BvhNode> {
        self.nodes@
    }

    /// The node that a traversal starts from.
    pub closed spec fn root(self) -> NodeId {
        self.root
    }

    /// The number of primitives that the tree was built over.
    pub closed spec fn hittables(self) -> nat {
        self.hittables as nat
    }

    fn new_leaf(nodes: &mut Vec<BvhNode>, hittable: usize, boxes: &Vec<AABB>) -> (id: NodeId)
        requires
            hittable < boxes.len(),
        ensures
            final(nodes)@ == old(nodes)@.push(BvhNode::Leaf { aabb: boxes[hittable as int], hittable }),
            id.index == old(nodes).len(),
    {
        let next_index = nodes.len();
        nodes.push(BvhNode::Leaf { aabb: boxes[hittable], hittable });
        NodeId { index: next_index }
    }

    fn new_node(nodes: &mut Vec<BvhNode>, aabb: AABB, left: NodeId, right: NodeId) -> (id: NodeId)
        ensures
            final(nodes)@ == old(nodes)@.push(BvhNode::Branch { aabb, left, right }),
            id.index == old(nodes).len(),
    {
        let next_index = nodes.len();
        nodes.push(BvhNode::Branch { aabb, left, right });
        NodeId { index: next_index }
    }

    fn bounds_of(nodes: &Vec<BvhNode>, id: NodeId) -> (r: AABB)
        requires
            id.index < nodes.len(),
        ensures
            r == nodes[id.index as int].bounds(),
    {
        match &nodes[id.index] {
            BvhNode::Leaf { aabb, .. } => *aabb,
            BvhNode::Branch { aabb, .. } => *aabb,
        }
    }

    /// Builds the subtree over `order[lo..hi]` at the end of `nodes` and
    /// returns its root.
    fn build(
        nodes: &mut Vec<BvhNode>,
        order: &mut Vec<usize>,
        lo: usize,
        hi: usize,
        boxes: &Vec<AABB>,
        rng: &mut Rand,
    ) -> (id: NodeId)
        requires
            lo < hi <= old(order).len(),
            forall|k: int| 0 <= k < old(order).len() ==> old(order)[k] < boxes.len(),
            forall|i: int| 0 <= i < boxes.len() ==> !boxes[i].min.has_nan(),
            built(old(nodes)@, boxes@),
        ensures
            final(order).len() == old(order).len(),
            forall|k: int|
                0 <= k < lo || hi <= k < old(order).len() ==> final(order)[k] == old(order)[k],
            forall|k: int| 0 <= k < final(order).len() ==> final(order)[k] < boxes.len(),
            same_items(
                old(order)@.subrange(lo as int, hi as int),
                final(order)@.subrange(lo as int, hi as int),
            ),
            extends(old(nodes)@, final(nodes)@),
            final(nodes).len() == old(nodes).len() + 2 * (hi - lo) - 1,
            id.index == final(nodes).len() - 1,
            built(final(nodes)@, boxes@),
            leaves(final(nodes)@, id.index as int) == final(order)@.subrange(lo as int, hi as int),
        decreases hi - lo,
    {
        let ghost order0 = order@;
        let ghost nodes0 = nodes@;
        let axis = random_axis(rng);
        sort_by_key(order, lo, hi, boxes, axis);
        let ghost sorted = order@;
        proof {
            lemma_multiset_same_items(
                order0.subrange(lo as int, hi as int),
                sorted.subrange(lo as int, hi as int),
            );
            lemma_sorted_in_bounds(order0, sorted, lo as int, hi as int, boxes.len() as int);
        }
        if hi - lo == 1 {
            let id = Self::new_leaf(nodes, order[lo], boxes);
            proof {
                lemma_push_leaf(nodes0, boxes@, sorted[lo as int]);
                assert(sorted.subrange(lo as int, hi as int) =~= seq![sorted[lo as int]]);
            }
            return id;
        }
        let left: NodeId;
        let right: NodeId;
        let ghost mid: int;
        if hi - lo == 2 {
            left = Self::new_leaf(nodes, order[lo], boxes);
            let ghost nodes1 = nodes@;
            right = Self::new_leaf(nodes, order[lo + 1], boxes);
            proof {
                mid = lo + 1;
                lemma_push_leaf(nodes0, boxes@, sorted[lo as int]);
                lemma_push_leaf(nodes1, boxes@, sorted[lo + 1]);
                lemma_leaves_extend(nodes1, nodes@, left.index as int);
                assert(sorted.subrange(lo as int, mid) =~= seq![sorted[lo as int]]);
                assert(sorted.subrange(mid, hi as int) =~= seq![sorted[lo + 1]]);
                lemma_same_items_refl(sorted.subrange(lo as int, mid));
                lemma_same_items_refl(sorted.subrange(mid, hi as int));
            }
        } else {
            let half_len = (hi - lo) / 2;
            proof {
                mid = lo + half_len;
            }
            left = Self::build(nodes, order, lo, lo + half_len, boxes, rng);
            let ghost nodes1 = nodes@;
            let ghost order1 = order@;
            right = Self::build(nodes, order, lo + half_len, hi, boxes, rng);
            proof {
                lemma_leaves_extend(nodes1, nodes@, left.index as int);
                assert(order@.subrange(lo as int, mid) =~= order1.subrange(lo as int, mid));
                assert(order1.subrange(mid, hi as int) =~= sorted.subrange(mid, hi as int));
            }
        }
        let ghost nodes2 = nodes@;
        let ghost order2 = order@;
        assert(extends(nodes0, nodes2));
        assert(leaves(nodes2, left.index as int) == order2.subrange(lo as int, mid));
        assert(leaves(nodes2, right.index as int) == order2.subrange(mid, hi as int));
        assert(same_items(sorted.subrange(lo as int, mid), order2.subrange(lo as int, mid)));
        assert(same_items(sorted.subrange(mid, hi as int), order2.subrange(mid, hi as int)));
        let left_box = Self::bounds_of(nodes, left);
        let right_box = Self::bounds_of(nodes, right);
        let id = Self::new_node(nodes, AABB::surrounding_box(&left_box, &right_box), left, right);
        proof {
            lemma_rebuilt_slice(order0, sorted, order2, lo as int, mid, hi as int);
            let slice = sorted.subrange(lo as int, hi as int);
            assert(slice.subrange(0, mid - lo) =~= sorted.subrange(lo as int, mid));
            assert(slice.subrange(mid - lo, slice.len() as int) =~= sorted.subrange(mid, hi as int));
            assert forall|i: int, j: int| 0 <= i <= j < slice.len() implies sort_key_spec(
                boxes@,
                slice[i],
                axis,
            ) <= sort_key_spec(boxes@, slice[j], axis) by {
                assert(slice[i] == sorted[lo + i]);
                assert(slice[j] == sorted[lo + j]);
            }
            lemma_halves_split(
                slice,
                order2.subrange(lo as int, mid),
                order2.subrange(mid, hi as int),
                mid - lo,
                boxes@,
                axis,
            );
            lemma_push_branch(nodes2, boxes@, left, right, axis);
        }
        id
    }

    /// Builds the hierarchy over the primitives whose boxes are `boxes`,
    /// primitive `i` having box `boxes[i]`.
    ///
    /// At each level the primitives are sorted along an axis drawn from
    /// `rng` and split in the middle.  Whatever is drawn, every primitive
    /// ends up below the root exactly once.
    pub fn new(boxes: &Vec<AABB>, rng: &mut Rand) -> (tree: BvhTree)
        requires
            boxes.len() > 0,
            forall|i: int| 0 <= i < boxes.len() ==> !boxes[i].min.has_nan(),
        ensures
            tree.hittables() == boxes.len(),
            tree.nodes().len() == 2 * boxes.len() - 1,
            tree.root().index == tree.nodes().len() - 1,
            nodes_wf(tree.nodes(), boxes.len() as int),
            built(tree.nodes(), boxes@),
            leaves(tree.nodes(), tree.root().index as int).len() == boxes.len(),
            forall|p: usize|
                p < boxes.len() ==> leaves(tree.nodes(), tree.root().index as int).contains(p),
    {
        let mut order: Vec<usize> = Vec::new();
        let mut next: usize = 0;
        while next < boxes.len()
            invariant
                next <= boxes.len(),
                order.len() == next,
                forall|k: int| 0 <= k < next ==> order[k] == k,
            decreases boxes.len() - next,
        {
            order.push(next);
            next += 1;
        }
        let ghost order0 = order@;
        let mut nodes: Vec<BvhNode> = Vec::new();
        proof {
            reveal(built);
        }
        let root = Self::build(&mut nodes, &mut order, 0, boxes.len(), boxes, rng);
        proof {
            reveal(same_items);
            reveal(built);
            let found = leaves(nodes@, root.index as int);
            assert(order0.subrange(0, boxes.len() as int) =~= order0);
            assert forall|p: usize| p < boxes.len() implies found.contains(p) by {
                assert(order0[p as int] == p);
                assert(order0.contains(p));
            }
        }
        BvhTree { nodes, root, hittables: boxes.len() }
    }

    fn hit_node<F, G>(
        &self,
        id: NodeId,
        ray: &Ray,
        t_min: Scalar,
        t_max: Scalar,
        box_test: &F,
        leaf_hit: &G,
    ) -> (r: Option<HitRecord>) where
        F: Fn(&AABB, &Ray, Scalar, Scalar) -> bool,
        G: Fn(usize, &Ray, Scalar, Scalar) -> Option<HitRecord>,

        requires
            id.index < self.nodes().len(),
            forall|aabb: &AABB, r: &Ray, lo: Scalar, hi: Scalar|
                call_requires(*box_test, (aabb, r, lo, hi)),
            forall|p: usize, r: &Ray, lo: Scalar, hi: Scalar|
                p < self.hittables() ==> call_requires(*leaf_hit, (p, r, lo, hi)),
        ensures
            forall|
                pass: spec_fn(AABB, Ray, Scalar, Scalar) -> bool,
                leaf: spec_fn(usize, Ray, Scalar, Scalar) -> Option<HitRecord>,
            |
                box_test_is(*box_test, pass) && leaf_hit_is(*leaf_hit, leaf) ==> r == #[trigger] traverse(
                    self.nodes(),
                    id.index as int,
                    *ray,
                    t_min,
                    t_max,
                    pass,
                    leaf,
                ),
        decreases id.index,
    {
        proof {
            use_type_invariant(self);
        }
        let node = &self.nodes[id.index];
        match node {
            BvhNode::Leaf { aabb, hittable } => {
                let passed = box_test(aabb, ray, t_min, t_max);
                let found = if passed {
                    leaf_hit(*hittable, ray, t_min, t_max)
                } else {
                    None
                };
                assert forall|
                    pass: spec_fn(AABB, Ray, Scalar, Scalar) -> bool,
                    leaf: spec_fn(usize, Ray, Scalar, Scalar) -> Option<HitRecord>,
                |
                    box_test_is(*box_test, pass) && leaf_hit_is(*leaf_hit, leaf) implies found
                    == #[trigger] traverse(
                    self.nodes(),
                    id.index as int,
                    *ray,
                    t_min,
                    t_max,
                    pass,
                    leaf,
                ) by {
                    assert(passed == pass(*aabb, *ray, t_min, t_max));
                }
                found
            },
            BvhNode::Branch { aabb, left, right } => {
                let passed = box_test(aabb, ray, t_min, t_max);
                let hit_left = if passed {
                    self.hit_node(*left, ray, t_min, t_max, box_test, leaf_hit)
                } else {
                    None
                };
                let hit_right = if passed {
                    self.hit_node(*right, ray, t_min, t_max, box_test, leaf_hit)
                } else {
                    None
                };
                let found = closer_hit(hit_left, hit_right);
                assert forall|
                    pass: spec_fn(AABB, Ray, Scalar, Scalar) -> bool,
                    leaf: spec_fn(usize, Ray, Scalar, Scalar) -> Option<HitRecord>,
                |
                    box_test_is(*box_test, pass) && leaf_hit_is(*leaf_hit, leaf) implies found
                    == #[trigger] traverse(
                    self.nodes(),
                    id.index as int,
                    *ray,
                    t_min,
                    t_max,
                    pass,
                    leaf,
                ) by {
                    assert(passed == pass(*aabb, *ray, t_min, t_max));
                    assert(self.nodes()[id.index as int] == *node);
                    assert(left.index < id.index && right.index < id.index);
                    if passed {
                        assert(hit_left == traverse(self.nodes(), left.index as int, *ray, t_min, t_max, pass, leaf));
                        assert(hit_right == traverse(self.nodes(), right.index as int, *ray, t_min, t_max, pass, leaf));
                    }
                }
                found
            },
        }
    }

    /// The nearest intersection that a traversal from the root finds.
    ///
    /// `box_test` tells whether the ray passes a box within `(t_min, t_max)`,
    /// `leaf_hit` where it meets a primitive within that interval.  The
    /// interval is not narrowed between the two children of a branch.
    pub fn hit<F, G>(
        &self,
        ray: &Ray,
        t_min: Scalar,
        t_max: Scalar,
        box_test: &F,
        leaf_hit: &G,
    ) -> (r: Option<HitRecord>) where
        F: Fn(&AABB, &Ray, Scalar, Scalar) -> bool,
        G: Fn(usize, &Ray, Scalar, Scalar) -> Option<HitRecord>,

        requires
            forall|aabb: &AABB, r: &Ray, lo: Scalar, hi: Scalar|
                call_requires(*box_test, (aabb, r, lo, hi)),
            forall|p: usize, r: &Ray, lo: Scalar, hi: Scalar|
                p < self.hittables() ==> call_requires(*leaf_hit, (p, r, lo, hi)),
        ensures
            forall|
                pass: spec_fn(AABB, Ray, Scalar, Scalar) -> bool,
                leaf: spec_fn(usize, Ray, Scalar, Scalar) -> Option<HitRecord>,
            |
                box_test_is(*box_test, pass) && leaf_hit_is(*leaf_hit, leaf) ==> r == #[trigger] traverse(
                    self.nodes(),
                    self.root().index as int,
                    *ray,
                    t_min,
                    t_max,
                    pass,
                    leaf,
                ),
    {
        proof {
            use_type_invariant(self);
        }
        self.hit_node(self.root, ray, t_min, t_max, box_test, leaf_hit)
    }

    fn count_below(&self, id: NodeId) -> (r: usize)
        requires
            id.index < self.nodes().len(),
            leaves(self.nodes(), id.index as int).len() <= usize::MAX,
        ensures
            r == leaves(self.nodes(), id.index as int).len(),
        decreases id.index,
    {
        proof {
            use_type_invariant(self);
        }
        match &self.nodes[id.index] {
            BvhNode::Leaf { .. } => 1,
            BvhNode::Branch { left, right, .. } => {
                let count_left = self.count_below(*left);
                let count_right = self.count_below(*right);
                count_left + count_right
            },
        }
    }

    /// The number of primitives below the root, counted leaf by leaf.
    pub fn number_hittables(&self) -> (r: usize)
        ensures
            r == leaves(self.nodes(), self.root().index as int).len(),
            r == self.hittables(),
    {
        proof {
            use_type_invariant(self);
        }
        self.count_below(self.root)
    }

    /// The node that a traversal starts from.
    pub fn root_id(&self) -> (r: NodeId)
        ensures
            r == self.root(),
            r.index < self.nodes().len(),
    {
        proof {
            use_type_invariant(self);
        }
        self.root
    }

    /// The node at `id`, if the tree has one there.
    pub fn node(&self, id: NodeId) -> (r: Option<BvhNode>)
        ensures
            r == if id.index < self.nodes().len() {
                Some(self.nodes()[id.index as int])
            } else {
                None
            },
    {
        if id.index < self.nodes.len() {
            Some(self.nodes[id.index])
        } else {
            None
        }
    }

    /// The number of nodes.
    pub fn number_nodes(&self) -> (r: usize)
        ensures
            r == self.nodes().len(),
    {
        self.nodes.len()
    }

    /// The box around the whole scene.
    pub fn bounding_box(&self) -> (r: Option<AABB>)
        ensures
            r == Some(self.nodes()[self.root().index as int].bounds()),
    {
        proof {
            use_type_invariant(self);
        }
        match &self.nodes[self.root.index] {
            BvhNode::Leaf { aabb, .. } => Some(*aabb),
            BvhNode::Branch { aabb, .. } => Some(*aabb),
        }
    }
}

/// Where the ray meets each of the primitives `prims`, in their order.
pub open spec fn candidates(
    prims: Seq<usize>,
    ray: Ray,
    t_min: Scalar,
    t_max: Scalar,
    leaf: spec_fn(usize, Ray, Scalar, Scalar) -> Option<HitRecord>,
) -> Seq<Option<HitRecord>> {
    Seq::new(prims.len(), |i: int| leaf(prims[i], ray, t_min, t_max))
}

/// Where the ray meets each of the primitives `0 .. count`.
pub open spec fn all_candidates(
    count: nat,
    ray: Ray,
    t_min: Scalar,
    t_max: Scalar,
    leaf: spec_fn(usize, Ray, Scalar, Scalar) -> Option<HitRecord>,
) -> Seq<Option<HitRecord>> {
    Seq::new(count, |p: int| leaf(p as usize, ray, t_min, t_max))
}

/// The ray misses no box that holds a primitive which it meets.
pub open spec fn boxes_conservative(
    nodes: Seq<BvhNode>,
    ray: Ray,
    t_min: Scalar,
    t_max: Scalar,
    pass: spec_fn(AABB, Ray, Scalar, Scalar) -> bool,
    leaf: spec_fn(usize, Ray, Scalar, Scalar) -> Option<HitRecord>,
) -> bool {
    forall|id: int, k: int|
        0 <= id < nodes.len() && 0 <= k < leaves(nodes, id).len() && !pass(
            nodes[id].bounds(),
            ray,
            t_min,
            t_max,
        ) ==> leaf(#[trigger] leaves(nodes, id)[k], ray, t_min, t_max) is None
}

/// Below a well-formed node lie primitives of the scene only.
pub proof fn lemma_leaves_in_scene(nodes: Seq<BvhNode>, count: int, id: int)
    requires
        nodes_wf(nodes, count),
        0 <= id < nodes.len(),
    ensures
        forall|k: int| 0 <= k < leaves(nodes, id).len() ==> #[trigger] leaves(nodes, id)[k] < count,
    decreases id,
{
    match nodes[id] {
        BvhNode::Leaf { .. } => {},
        BvhNode::Branch { left, right, .. } => {
            let ls = leaves(nodes, left.index as int);
            let rs = leaves(nodes, right.index as int);
            lemma_leaves_in_scene(nodes, count, left.index as int);
            lemma_leaves_in_scene(nodes, count, right.index as int);
            assert forall|k: int| 0 <= k < leaves(nodes, id).len() implies #[trigger] leaves(
                nodes,
                id,
            )[k] < count by {
                if k < ls.len() {
                    assert(leaves(nodes, id)[k] == ls[k]);
                } else {
                    assert(leaves(nodes, id)[k] == rs[k - ls.len()]);
                }
            }
        },
    }
}

/// With conservative boxes, a traversal from a node returns the nearest of
/// the intersections with the primitives below that node.
pub proof fn lemma_traverse_is_nearest(
    nodes: Seq<BvhNode>,
    count: nat,
    id: int,
    ray: Ray,
    t_min: Scalar,
    t_max: Scalar,
    pass: spec_fn(AABB, Ray, Scalar, Scalar) -> bool,
    leaf: spec_fn(usize, Ray, Scalar, Scalar) -> Option<HitRecord>,
)
    requires
        nodes_wf(nodes, count as int),
        0 <= id < nodes.len(),
        distances_ordered(all_candidates(count, ray, t_min, t_max, leaf)),
        boxes_conservative(nodes, ray, t_min, t_max, pass, leaf),
    ensures
        is_nearest(
            traverse(nodes, id, ray, t_min, t_max, pass, leaf),
            candidates(leaves(nodes, id), ray, t_min, t_max, leaf),
        ),
        distances_ordered(candidates(leaves(nodes, id), ray, t_min, t_max, leaf)),
    decreases id,
{
    let below = leaves(nodes, id);
    let found = candidates(below, ray, t_min, t_max, leaf);
    let everything = all_candidates(count, ray, t_min, t_max, leaf);
    lemma_leaves_in_scene(nodes, count as int, id);
    assert forall|i: int| 0 <= i < found.len() implies (#[trigger] found[i] matches Some(h)
        ==> !h.t.is_nan()) by {
        assert(found[i] == everything[below[i] as int]);
    }
    if !pass(nodes[id].bounds(), ray, t_min, t_max) {
        assert forall|i: int| 0 <= i < found.len() implies #[trigger] found[i] is None by {
            assert(leaf(below[i], ray, t_min, t_max) is None);
        }
    } else {
        match nodes[id] {
            BvhNode::Leaf { hittable, .. } => {
                assert(found[0] == leaf(hittable, ray, t_min, t_max));
            },
            BvhNode::Branch { left, right, .. } => {
                let l = left.index as int;
                let r = right.index as int;
                lemma_traverse_is_nearest(nodes, count, l, ray, t_min, t_max, pass, leaf);
                lemma_traverse_is_nearest(nodes, count, r, ray, t_min, t_max, pass, leaf);
                lemma_closer_is_nearest(
                    traverse(nodes, l, ray, t_min, t_max, pass, leaf),
                    traverse(nodes, r, ray, t_min, t_max, pass, leaf),
                    candidates(leaves(nodes, l), ray, t_min, t_max, leaf),
                    candidates(leaves(nodes, r), ray, t_min, t_max, leaf),
                );
                assert(found =~= candidates(leaves(nodes, l), ray, t_min, t_max, leaf) + candidates(
                    leaves(nodes, r),
                    ray,
                    t_min,
                    t_max,
                    leaf,
                ));
            },
        }
    }
}

/// A traversal finds an intersection exactly as far away as the one that a
/// scan over all primitives finds, and finds none exactly when the scan
/// finds none.
///
/// This holds of a tree with every primitive below its root, of
/// intersections whose distances are numbers, and of boxes that the ray
/// does not miss when it meets a primitive inside them.
pub proof fn lemma_traversal_matches_scan(
    nodes: Seq<BvhNode>,
    count: nat,
    root: int,
    ray: Ray,
    t_min: Scalar,
    t_max: Scalar,
    pass: spec_fn(AABB, Ray, Scalar, Scalar) -> bool,
    leaf: spec_fn(usize, Ray, Scalar, Scalar) -> Option<HitRecord>,
)
    requires
        nodes_wf(nodes, count as int),
        0 <= root < nodes.len(),
        forall|p: usize| p < count ==> leaves(nodes, root).contains(p),
        distances_ordered(all_candidates(count, ray, t_min, t_max, leaf)),
        boxes_conservative(nodes, ray, t_min, t_max, pass, leaf),
    ensures
        distance(traverse(nodes, root, ray, t_min, t_max, pass, leaf)) == distance(
            nearest(all_candidates(count, ray, t_min, t_max, leaf)),
        ),
{
    let below = leaves(nodes, root);
    let found = candidates(below, ray, t_min, t_max, leaf);
    let everything = all_candidates(count, ray, t_min, t_max, leaf);
    lemma_traverse_is_nearest(nodes, count, root, ray, t_min, t_max, pass, leaf);
    lemma_scan_is_nearest(everything);
    lemma_leaves_in_scene(nodes, count as int, root);
    assert forall|i: int| 0 <= i < found.len() implies everything.contains(#[trigger] found[i]) by {
        assert(everything[below[i] as int] == found[i]);
    }
    assert forall|p: int| 0 <= p < everything.len() implies found.contains(
        #[trigger] everything[p],
    ) by {
        assert(below.contains(p as usize));
        let i = choose|i: int| 0 <= i < below.len() && below[i] == p as usize;
        assert(found[i] == everything[p]);
    }
    lemma_nearest_distance_unique(
        traverse(nodes, root, ray, t_min, t_max, pass, leaf),
        found,
        nearest(everything),
        everything,
    );
}

/// In a tree built over well-formed boxes every node has a well-formed box,
/// and the box of every primitive below a node lies within the node's box.
pub proof fn lemma_node_box_encloses(nodes: Seq<BvhNode>, boxes: Seq<AABB>, id: int)
    requires
        built(nodes, boxes),
        forall|p: int| 0 <= p < boxes.len() ==> (#[trigger] boxes[p]).wf(),
        0 <= id < nodes.len(),
    ensures
        nodes[id].bounds().wf(),
        forall|k: int|
            0 <= k < leaves(nodes, id).len() ==> leaves(nodes, id)[k] < boxes.len() && boxes[(
            #[trigger] leaves(nodes, id)[k]) as int].within(nodes[id].bounds()),
    decreases id,
{
    reveal(built);
    assert(built_node(nodes, boxes, id));
    match nodes[id] {
        BvhNode::Leaf { aabb, hittable } => {
            assert(boxes[hittable as int].wf());
        },
        BvhNode::Branch { aabb, left, right } => {
            let l = left.index as int;
            let r = right.index as int;
            lemma_node_box_encloses(nodes, boxes, l);
            lemma_node_box_encloses(nodes, boxes, r);
            lemma_union_encloses(nodes[l].bounds(), nodes[r].bounds());
            let below = leaves(nodes, id);
            assert forall|k: int| 0 <= k < below.len() implies below[k] < boxes.len() && boxes[(
            #[trigger] below[k]) as int].within(nodes[id].bounds()) by {
                if k < leaves(nodes, l).len() {
                    assert(below[k] == leaves(nodes, l)[k]);
                    lemma_within_transitive(
                        boxes[below[k] as int],
                        nodes[l].bounds(),
                        nodes[id].bounds(),
                    );
                } else {
                    assert(below[k] == leaves(nodes, r)[k - leaves(nodes, l).len()]);
                    lemma_within_transitive(
                        boxes[below[k] as int],
                        nodes[r].bounds(),
                        nodes[id].bounds(),
                    );
                }
            }
        },
    }
}

/// What the arithmetic of the box test owes the tree: a ray that meets a
/// primitive passes the primitive's box, and a ray that passes a box passes
/// every box around it.
pub open spec fn box_test_sound(
    boxes: Seq<AABB>,
    ray: Ray,
    t_min: Scalar,
    t_max: Scalar,
    pass: spec_fn(AABB, Ray, Scalar, Scalar) -> bool,
    leaf: spec_fn(usize, Ray, Scalar, Scalar) -> Option<HitRecord>,
) -> bool {
    &&& forall|p: int|
        0 <= p < boxes.len() && leaf(p as usize, ray, t_min, t_max) is Some ==> pass(
            #[trigger] boxes[p],
            ray,
            t_min,
            t_max,
        )
    &&& forall|inner: AABB, outer: AABB|
        inner.within(outer) && #[trigger] pass(inner, ray, t_min, t_max) ==> #[trigger] pass(
            outer,
            ray,
            t_min,
            t_max,
        )
}

/// A tree built over the boxes of a scene, searched with a sound box test,
/// finds an intersection exactly as far away as the one that a scan over
/// all primitives finds, and finds none exactly when the scan finds none.
pub proof fn lemma_built_tree_matches_scan(
    nodes: Seq<BvhNode>,
    boxes: Seq<AABB>,
    root: int,
    ray: Ray,
    t_min: Scalar,
    t_max: Scalar,
    pass: spec_fn(AABB, Ray, Scalar, Scalar) -> bool,
    leaf: spec_fn(usize, Ray, Scalar, Scalar) -> Option<HitRecord>,
)
    requires
        built(nodes, boxes),
        0 <= root < nodes.len(),
        forall|p: usize| p < boxes.len() ==> leaves(nodes, root).contains(p),
        forall|p: int| 0 <= p < boxes.len() ==> (#[trigger] boxes[p]).wf(),
        distances_ordered(all_candidates(boxes.len(), ray, t_min, t_max, leaf)),
        box_test_sound(boxes, ray, t_min, t_max, pass, leaf),
    ensures
        distance(traverse(nodes, root, ray, t_min, t_max, pass, leaf)) == distance(
            nearest(all_candidates(boxes.len(), ray, t_min, t_max, leaf)),
        ),
{
    assert(nodes_wf(nodes, boxes.len() as int)) by {
        reveal(built);
    }
    assert forall|id: int, k: int|
        0 <= id < nodes.len() && 0 <= k < leaves(nodes, id).len() && !pass(
            nodes[id].bounds(),
            ray,
            t_min,
            t_max,
        ) implies leaf(#[trigger] leaves(nodes, id)[k], ray, t_min, t_max) is None by {
        lemma_node_box_encloses(nodes, boxes, id);
        let p = leaves(nodes, id)[k];
        assert(boxes[p as int].within(nodes[id].bounds()));
        if leaf(p, ray, t_min, t_max) is Some {
            assert(pass(boxes[p as int], ray, t_min, t_max));
            assert(pass(nodes[id].bounds(), ray, t_min, t_max));
        }
    }
    lemma_traversal_matches_scan(nodes, boxes.len(), root, ray, t_min, t_max, pass, leaf);
}

} // verus!
