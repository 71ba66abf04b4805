//! Rotation of a primitive about a coordinate axis.

use vstd::prelude::*;
use crate::hittable::aabb::AABB;
use crate::hittable::hittable_list::hit_is;
use crate::hittable::HitRecord;
use crate::ray::Ray;
use crate::scalar::Scalar;
use crate::vec::Vec3;

verus! {

/// The axis of a rotation.
#[derive(Clone, Copy, Debug, PartialEq, Eq, Structural)]
pub enum Axis {
    X,
    Y,
    Z,
}

/// The axis that a rotation leaves alone, then the two that it mixes.
pub open spec fn axis_order(axis: Axis) -> (usize, usize, usize) {
    match axis {
        Axis::X => (0, 1, 2),
        Axis::Y => (1, 2, 0),
        Axis::Z => (2, 0, 1),
    }
}

pub fn get_axis(axis: &Axis) -> (r: (usize, usize, usize))
    ensures
        r == axis_order(*axis),
        r.0 < 3 && r.1 < 3 && r.2 < 3,
        r.0 != r.1 && r.0 != r.2 && r.1 != r.2,
{
    match axis {
        Axis::X => (0, 1, 2),
        Axis::Y => (1, 2, 0),
        Axis::Z => (2, 0, 1),
    }
}

/// The box that has taken in `point`: each bound moves where the point lies
/// beyond it.
pub open spec fn stretch(aabb: AABB, point: Vec3) -> AABB {
    AABB {
        min: Vec3 {
            x: if point.x.lt_spec(aabb.min.x) { point.x } else { aabb.min.x },
            y: if point.y.lt_spec(aabb.min.y) { point.y } else { aabb.min.y },
            z: if point.z.lt_spec(aabb.min.z) { point.z } else { aabb.min.z },
        },
        max: Vec3 {
            x: if aabb.max.x.lt_spec(point.x) { point.x } else { aabb.max.x },
            y: if aabb.max.y.lt_spec(point.y) { point.y } else { aabb.max.y },
            z: if aabb.max.z.lt_spec(point.z) { point.z } else { aabb.max.z },
        },
    }
}

/// The box that holds nothing yet: its minimum is the largest finite number
/// on every axis and its maximum the opposite.
pub open spec fn inside_out() -> AABB {
    AABB {
        min: Vec3 {
            x: Scalar { bits: crate::scalar::MAX_BITS },
            y: Scalar { bits: crate::scalar::MAX_BITS },
            z: Scalar { bits: crate::scalar::MAX_BITS },
        },
        max: Vec3 {
            x: Scalar { bits: crate::scalar::MAX_BITS }.neg_spec(),
            y: Scalar { bits: crate::scalar::MAX_BITS }.neg_spec(),
            z: Scalar { bits: crate::scalar::MAX_BITS }.neg_spec(),
        },
    }
}

/// The box around the first `count` of `corners`.
pub open spec fn box_around(corners: Seq<Vec3>, count: int) -> AABB
    decreases count,
{
    if count <= 0 {
        inside_out()
    } else {
        stretch(box_around(corners, count - 1), corners[count - 1])
    }
}

/// A primitive turned about `axis` by the angle whose sine and cosine are
/// `sin_theta` and `cos_theta`, with the box of the turned primitive.
pub struct Rotate<H> {
    pub axis: Axis,
    pub sin_theta: Scalar,
    pub cos_theta: Scalar,
    pub hittable: H,
    pub bbox: Option<AABB>,
}

/// Whatever the turn `f` answers is what `turned` says.
pub open spec fn turn_is<T: Fn(&Vec3) -> Vec3>(f: T, turned: spec_fn(Vec3) -> Vec3) -> bool {
    forall|a: &Vec3, out: Vec3| #[trigger] call_ensures(f, (a,), out) ==> out == turned(*a)
}

/// What the turned primitive answers: what the primitive answers to the ray
/// turned back into its own frame, with the point and the normal turned
/// forth again.
pub open spec fn rotated_hit<H>(
    hittable: H,
    ray: Ray,
    t_min: Scalar,
    t_max: Scalar,
    hit: spec_fn(H, Ray, Scalar, Scalar) -> Option<HitRecord>,
    back: spec_fn(Vec3) -> Vec3,
    forth: spec_fn(Vec3) -> Vec3,
) -> Option<HitRecord> {
    let local = Ray { origin: back(ray.origin), direction: back(ray.direction), time: ray.time };
    match hit(hittable, local, t_min, t_max) {
        Some(h) => Some(HitRecord { point: forth(h.point), normal: forth(h.normal), ..h }),
        None => None,
    }
}

/// Takes `point` into `aabb`.
pub fn stretch_box(aabb: &AABB, point: &Vec3) -> (r: AABB)
    ensures
        r == stretch(*aabb, *point),
{
    AABB {
        min: Vec3 {
            x: if point.x.lt(aabb.min.x) { point.x } else { aabb.min.x },
            y: if point.y.lt(aabb.min.y) { point.y } else { aabb.min.y },
            z: if point.z.lt(aabb.min.z) { point.z } else { aabb.min.z },
        },
        max: Vec3 {
            x: if point.x.gt(aabb.max.x) { point.x } else { aabb.max.x },
            y: if point.y.gt(aabb.max.y) { point.y } else { aabb.max.y },
            z: if point.z.gt(aabb.max.z) { point.z } else { aabb.max.z },
        },
    }
}

impl<H> Rotate<H> {
    /// Wraps `hittable`.  `corners` are the eight corners of its box after
    /// the turn, or nothing where it has no box; the wrapper's box is the
    /// box around them.
    pub fn new(
        axis: Axis,
        hittable: H,
        sin_theta: Scalar,
        cos_theta: Scalar,
        corners: Option<[Vec3; 8]>,
    ) -> (r: Rotate<H>)
        ensures
            r.axis == axis,
            r.hittable == hittable,
            r.sin_theta == sin_theta,
            r.cos_theta == cos_theta,
            r.bbox == match corners {
                Some(c) => Some(box_around(c@, 8)),
                None => None,
            },
    {
        let bbox = match corners {
            Some(c) => {
                let mut around = AABB {
                    min: Vec3::splat(Scalar::max_value()),
                    max: Vec3::splat(Scalar::max_value().neg()),
                };
                let mut next: usize = 0;
                while next < 8
                    invariant
                        next <= 8,
                        around == box_around(c@, next as int),
                    decreases 8 - next,
                {
                    around = stretch_box(&around, &c[next]);
                    next += 1;
                }
                Some(around)
            },
            None => None,
        };
        Rotate { axis, sin_theta, cos_theta, hittable, bbox }
    }

    /// The intersection of the ray with the turned primitive, where
    /// `hit_inner` intersects the primitive as it is, `turn_back` turns a
    /// vector by the opposite angle and `turn_forth` by the angle itself.
    pub fn hit<F, B, T>(
        &self,
        ray: &Ray,
        t_min: Scalar,
        t_max: Scalar,
        hit_inner: &F,
        turn_back: &B,
        turn_forth: &T,
    ) -> (r: Option<HitRecord>) where
        F: Fn(&H, &Ray, Scalar, Scalar) -> Option<HitRecord>,
        B: Fn(&Vec3) -> Vec3,
        T: Fn(&Vec3) -> Vec3,

        requires
            forall|object: &H, r: &Ray, lo: Scalar, hi: Scalar|
                call_requires(*hit_inner, (object, r, lo, hi)),
            forall|a: &Vec3| call_requires(*turn_back, (a,)),
            forall|a: &Vec3| call_requires(*turn_forth, (a,)),
        ensures
            forall|
                hit: spec_fn(H, Ray, Scalar, Scalar) -> Option<HitRecord>,
                back: spec_fn(Vec3) -> Vec3,
                forth: spec_fn(Vec3) -> Vec3,
            |
                hit_is(*hit_inner, hit) && turn_is(*turn_back, back) && turn_is(*turn_forth, forth)
                    ==> r == #[trigger] rotated_hit(
                    self.hittable,
                    *ray,
                    t_min,
                    t_max,
                    hit,
                    back,
                    forth,
                ),
    {
        let origin = turn_back(&ray.origin);
        let direction = turn_back(&ray.direction);
        let rotated_ray = Ray::new(origin, direction, ray.time);
        match hit_inner(&self.hittable, &rotated_ray, t_min, t_max) {
            Some(hit) => {
                let point = turn_forth(&hit.point);
                let normal = turn_forth(&hit.normal);
                Some(
                    HitRecord {
                        point,
                        normal,
                        t: hit.t,
                        u: hit.u,
                        v: hit.v,
                        material: hit.material,
                        front_face: hit.front_face,
                    },
                )
            },
            None => None,
        }
    }

    pub fn bounding_box(&self) -> (r: Option<AABB>)
        ensures
            r == self.bbox,
    {
        self.bbox
    }
}

/// A corner that is finite on every axis lies within the box around the
/// corners up to it, and stays within as further corners are taken in.
pub proof fn lemma_box_around_holds(corners: Seq<Vec3>, count: int, which: int)
    requires
        0 <= which < count <= corners.len(),
        forall|i: int|
            0 <= i < corners.len() ==> (#[trigger] corners[i]).x.is_finite() && corners[i].y.is_finite()
                && corners[i].z.is_finite(),
    ensures
        (AABB { min: corners[which], max: corners[which] }).within(box_around(corners, count)),
    decreases count,
{
    lemma_box_around_ordered(corners, count - 1);
    if which < count - 1 {
        lemma_box_around_holds(corners, count - 1, which);
    }
    assert(corners[count - 1].x.is_finite());
}

/// The bounds of the box around finite corners are numbers.
proof fn lemma_box_around_ordered(corners: Seq<Vec3>, count: int)
    requires
        0 <= count <= corners.len(),
        forall|i: int|
            0 <= i < corners.len() ==> (#[trigger] corners[i]).x.is_finite() && corners[i].y.is_finite()
                && corners[i].z.is_finite(),
    ensures
        !box_around(corners, count).min.has_nan(),
        !box_around(corners, count).max.has_nan(),
    decreases count,
{
    if count > 0 {
        lemma_box_around_ordered(corners, count - 1);
        assert(corners[count - 1].x.is_finite());
    }
}

} // verus!
