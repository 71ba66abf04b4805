//! Intersection records and the rule that orients their normals.

use vstd::prelude::*;
use crate::scalar::Scalar;
use crate::vec::Vec3;

pub mod aabb;
pub mod boxtype;
pub mod bvh;
pub mod flip_face;
pub mod hittable_list;
pub mod moving_sphere;
pub mod rect;
pub mod rotate;
pub mod sphere;
pub mod translate;
pub mod xy_rect;

verus! {

/// One intersection of a ray with a surface.
///
/// `material` is the index of the surface's material in the scene's store.
/// `normal` opposes the ray; `front_face` tells whether the ray met the side
/// that the surface's outward normal points to.
#[derive(Clone, Copy, Debug, PartialEq, Eq, Structural)]
pub struct HitRecord {
    pub point: Vec3,
    pub normal: Vec3,
    pub t: Scalar,
    pub u: Scalar,
    pub v: Scalar,
    pub material: usize,
    pub front_face: bool,
}

/// Whether a ray meets the front of a surface, given `facing`, the dot product
/// of the ray's direction with the outward normal.
pub open spec fn is_front_face(facing: Scalar) -> bool {
    facing.lt_spec(Scalar { bits: 0 })
}

/// The normal that a record carries: the outward normal seen from the front,
/// its opposite seen from the back.
pub open spec fn face_normal(facing: Scalar, outward_normal: Vec3) -> Vec3 {
    if is_front_face(facing) {
        outward_normal
    } else {
        outward_normal.neg_spec()
    }
}

/// Orients a normal against the incoming ray.  `facing` is the dot product of
/// the ray's direction with `outward_normal`.
pub fn get_face_normal(facing: Scalar, outward_normal: Vec3) -> (r: (bool, Vec3))
    ensures
        r.0 == is_front_face(facing),
        r.1 == face_normal(facing, outward_normal),
{
    let front_face = facing.lt(Scalar::zero());
    (
        front_face,
        if front_face {
            outward_normal
        } else {
            outward_normal.neg()
        },
    )
}

/// The oriented normal never points along the ray: its dot product with the
/// ray's direction is not above zero.
///
/// `dot` stands for the dot product.  All that is asked of it is that the
/// product with the opposite vector is the opposite number, and that the
/// product of the direction with the outward normal is a number at all.
pub proof fn lemma_face_normal_opposes(
    dot: spec_fn(Vec3, Vec3) -> Scalar,
    direction: Vec3,
    outward_normal: Vec3,
)
    requires
        !dot(direction, outward_normal).is_nan(),
        dot(direction, outward_normal.neg_spec()) == dot(direction, outward_normal).neg_spec(),
    ensures
        dot(direction, face_normal(dot(direction, outward_normal), outward_normal)).le_spec(
            Scalar { bits: 0 },
        ),
        is_front_face(dot(direction, outward_normal)) == dot(direction, outward_normal).lt_spec(
            Scalar { bits: 0 },
        ),
{
    crate::scalar::lemma_neg(dot(direction, outward_normal));
}

/// Of two intersections the one with the smaller `t`; the right one where
/// neither is smaller, and the one that exists where only one does.
pub open spec fn closer(left: Option<HitRecord>, right: Option<HitRecord>) -> Option<HitRecord> {
    match (left, right) {
        (Some(l), Some(r)) => if l.t.lt_spec(r.t) {
            left
        } else {
            right
        },
        (Some(_), None) => left,
        (None, _) => right,
    }
}

/// Picks the nearer of two intersections as `closer` says.
pub fn closer_hit(left: Option<HitRecord>, right: Option<HitRecord>) -> (r: Option<HitRecord>)
    ensures
        r == closer(left, right),
{
    match left {
        Some(l) => match right {
            Some(r) => {
                if l.t.lt(r.t) {
                    left
                } else {
                    right
                }
            },
            None => left,
        },
        None => right,
    }
}

/// How far along the ray an intersection lies, as a rank; nothing where
/// there is no intersection.
pub open spec fn distance(hit: Option<HitRecord>) -> Option<int> {
    match hit {
        Some(h) => Some(h.t.rank()),
        None => None,
    }
}

/// What a scan keeps of `hits`, one candidate per primitive, when it goes
/// through them in order and keeps the nearer of what it has and what comes.
pub open spec fn nearest(hits: Seq<Option<HitRecord>>) -> Option<HitRecord>
    decreases hits.len(),
{
    if hits.len() == 0 {
        None
    } else {
        closer(nearest(hits.drop_last()), hits.last())
    }
}

/// No candidate has a NaN for its distance.
pub open spec fn distances_ordered(hits: Seq<Option<HitRecord>>) -> bool {
    forall|i: int| 0 <= i < hits.len() ==> (#[trigger] hits[i] matches Some(h) ==> !h.t.is_nan())
}

/// `best` is one of the candidates and none lies nearer; or there is no
/// candidate at all and `best` is nothing.
pub open spec fn is_nearest(best: Option<HitRecord>, hits: Seq<Option<HitRecord>>) -> bool {
    match best {
        None => forall|i: int| 0 <= i < hits.len() ==> #[trigger] hits[i] is None,
        Some(b) => {
            &&& exists|i: int| 0 <= i < hits.len() && #[trigger] hits[i] == best
            &&& forall|i: int|
                0 <= i < hits.len() ==> (#[trigger] hits[i] matches Some(h) ==> b.t.rank()
                    <= h.t.rank())
        },
    }
}

/// The nearer of the nearest of two groups is the nearest of both together.
pub proof fn lemma_closer_is_nearest(
    left: Option<HitRecord>,
    right: Option<HitRecord>,
    left_hits: Seq<Option<HitRecord>>,
    right_hits: Seq<Option<HitRecord>>,
)
    requires
        is_nearest(left, left_hits),
        is_nearest(right, right_hits),
        distances_ordered(left_hits),
        distances_ordered(right_hits),
    ensures
        is_nearest(closer(left, right), left_hits + right_hits),
        distances_ordered(left_hits + right_hits),
{
    let all = left_hits + right_hits;
    assert forall|i: int| 0 <= i < all.len() implies (#[trigger] all[i] matches Some(h)
        ==> !h.t.is_nan()) by {
        if i < left_hits.len() {
            assert(all[i] == left_hits[i]);
        } else {
            assert(all[i] == right_hits[i - left_hits.len()]);
        }
    }
    match closer(left, right) {
        None => {
            assert forall|i: int| 0 <= i < all.len() implies #[trigger] all[i] is None by {
                if i < left_hits.len() {
                    assert(all[i] == left_hits[i]);
                } else {
                    assert(all[i] == right_hits[i - left_hits.len()]);
                }
            }
        },
        Some(b) => {
            if left is Some {
                let i = choose|i: int| 0 <= i < left_hits.len() && #[trigger] left_hits[i] == left;
                assert(all[i] == left);
            }
            if right is Some {
                let j = choose|j: int|
                    0 <= j < right_hits.len() && #[trigger] right_hits[j] == right;
                assert(all[left_hits.len() + j] == right);
            }
            assert forall|i: int| 0 <= i < all.len() implies (#[trigger] all[i] matches Some(h)
                ==> b.t.rank() <= h.t.rank()) by {
                if i < left_hits.len() {
                    assert(all[i] == left_hits[i]);
                } else {
                    assert(all[i] == right_hits[i - left_hits.len()]);
                }
            }
        },
    }
}

/// A scan finds the nearest of its candidates.
pub proof fn lemma_scan_is_nearest(hits: Seq<Option<HitRecord>>)
    requires
        distances_ordered(hits),
    ensures
        is_nearest(nearest(hits), hits),
    decreases hits.len(),
{
    if hits.len() > 0 {
        let front = hits.drop_last();
        let back = seq![hits.last()];
        assert forall|i: int| 0 <= i < front.len() implies (#[trigger] front[i] matches Some(h)
            ==> !h.t.is_nan()) by {
            assert(front[i] == hits[i]);
        }
        lemma_scan_is_nearest(front);
        assert(back[0] == hits.last());
        assert(is_nearest(hits.last(), back));
        lemma_closer_is_nearest(nearest(front), hits.last(), front, back);
        assert(front + back =~= hits);
    }
}

/// Two groups that hold the same candidates have their nearest at the same
/// distance.
pub proof fn lemma_nearest_distance_unique(
    a: Option<HitRecord>,
    a_hits: Seq<Option<HitRecord>>,
    b: Option<HitRecord>,
    b_hits: Seq<Option<HitRecord>>,
)
    requires
        is_nearest(a, a_hits),
        is_nearest(b, b_hits),
        forall|i: int| 0 <= i < a_hits.len() ==> b_hits.contains(#[trigger] a_hits[i]),
        forall|i: int| 0 <= i < b_hits.len() ==> a_hits.contains(#[trigger] b_hits[i]),
    ensures
        distance(a) == distance(b),
{
    match a {
        None => {
            if b is Some {
                let j = choose|j: int| 0 <= j < b_hits.len() && #[trigger] b_hits[j] == b;
                assert(a_hits.contains(b_hits[j]));
                let i = choose|i: int| 0 <= i < a_hits.len() && a_hits[i] == b_hits[j];
                assert(a_hits[i] is None);
            }
        },
        Some(x) => {
            let i = choose|i: int| 0 <= i < a_hits.len() && #[trigger] a_hits[i] == a;
            assert(b_hits.contains(a_hits[i]));
            let j = choose|j: int| 0 <= j < b_hits.len() && b_hits[j] == a_hits[i];
            assert(b_hits[j] is Some);
            assert(b is Some);
            let y = b->0;
            assert(y.t.rank() <= x.t.rank());
            let j2 = choose|j2: int| 0 <= j2 < b_hits.len() && #[trigger] b_hits[j2] == b;
            assert(a_hits.contains(b_hits[j2]));
            let i2 = choose|i2: int| 0 <= i2 < a_hits.len() && a_hits[i2] == b_hits[j2];
            assert(x.t.rank() <= y.t.rank());
        },
    }
}

} // verus!
