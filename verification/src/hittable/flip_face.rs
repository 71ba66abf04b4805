//! A primitive seen with its faces exchanged.

use vstd::prelude::*;
use crate::hittable::aabb::AABB;
use crate::hittable::hittable_list::{bounds_is, hit_is};
use crate::hittable::HitRecord;
use crate::ray::Ray;
use crate::scalar::Scalar;

verus! {

/// Wraps a primitive so that its front counts as its back.
pub struct FlipFace<H> {
    pub hittable: H,
}

/// The record with the other face.
pub open spec fn flipped(hit: Option<HitRecord>) -> Option<HitRecord> {
    match hit {
        Some(h) => Some(HitRecord { front_face: !h.front_face, ..h }),
        None => None,
    }
}

impl<H> FlipFace<H> {
    pub fn new(hittable: H) -> (r: FlipFace<H>)
        ensures
            r.hittable == hittable,
    {
        FlipFace { hittable }
    }

    /// The intersection that `hit_inner` finds with the wrapped primitive,
    /// with `front_face` inverted and nothing else changed.
    pub fn hit<F>(&self, ray: &Ray, t_min: Scalar, t_max: Scalar, hit_inner: &F) -> (r: Option<HitRecord>)
        where F: Fn(&H, &Ray, Scalar, Scalar) -> Option<HitRecord>,
        requires
            call_requires(*hit_inner, (&self.hittable, ray, t_min, t_max)),
        ensures
            forall|hit: spec_fn(H, Ray, Scalar, Scalar) -> Option<HitRecord>|
                hit_is(*hit_inner, hit) ==> r == flipped(
                    #[trigger] hit(self.hittable, *ray, t_min, t_max),
                ),
    {
        match hit_inner(&self.hittable, ray, t_min, t_max) {
            Some(hit) => Some(
                HitRecord {
                    point: hit.point,
                    normal: hit.normal,
                    t: hit.t,
                    u: hit.u,
                    v: hit.v,
                    material: hit.material,
                    front_face: !hit.front_face,
                },
            ),
            None => None,
        }
    }

    /// The box that `box_of` gives for the wrapped primitive.
    pub fn bounding_box<G>(&self, time: (Scalar, Scalar), box_of: &G) -> (r: Option<AABB>) where
        G: Fn(&H, (Scalar, Scalar)) -> Option<AABB>,

        requires
            call_requires(*box_of, (&self.hittable, time)),
        ensures
            forall|bounds: spec_fn(H, (Scalar, Scalar)) -> Option<AABB>|
                bounds_is(*box_of, bounds) ==> r == #[trigger] bounds(self.hittable, time),
    {
        box_of(&self.hittable, time)
    }
}

/// Flipping twice gives the record back.
pub proof fn lemma_flip_twice(hit: Option<HitRecord>)
    ensures
        flipped(flipped(hit)) == hit,
{
}

} // verus!
