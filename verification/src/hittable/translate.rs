//! A primitive moved by an offset.

use vstd::prelude::*;
use crate::hittable::aabb::AABB;
use crate::hittable::hittable_list::{bounds_is, hit_is};
use crate::hittable::{face_normal, get_face_normal, HitRecord};
use crate::ray::Ray;
use crate::scalar::{lemma_neg, Scalar};
use crate::vec::Vec3;

verus! {

/// Wraps a primitive so that it stands `offset` away from where it is.
pub struct Translate<H> {
    pub hittable: H,
    pub offset: Vec3,
}

/// Whatever the addition `f` answers is what `sum` says.
pub open spec fn shift_is<A: Fn(&Vec3, &Vec3) -> Vec3>(f: A, sum: spec_fn(Vec3, Vec3) -> Vec3) -> bool {
    forall|a: &Vec3, b: &Vec3, out: Vec3| #[trigger] call_ensures(f, (a, b), out) ==> out == sum(*a, *b)
}

/// Whatever the dot product `f` answers is what `product` says.
pub open spec fn dot_is<D: Fn(&Vec3, &Vec3) -> Scalar>(
    f: D,
    product: spec_fn(Vec3, Vec3) -> Scalar,
) -> bool {
    forall|a: &Vec3, b: &Vec3, out: Scalar|
        #[trigger] call_ensures(f, (a, b), out) ==> out == product(*a, *b)
}

/// The ray as the wrapped primitive sees it: its origin moved back by the
/// offset.
pub open spec fn moved_ray(offset: Vec3, ray: Ray, sum: spec_fn(Vec3, Vec3) -> Vec3) -> Ray {
    Ray { origin: sum(ray.origin, offset.neg_spec()), direction: ray.direction, time: ray.time }
}

/// What the moved primitive answers: what the primitive answers to the ray
/// moved back, with the point moved forth and the normal turned against
/// the ray.
pub open spec fn translated_hit<H>(
    hittable: H,
    offset: Vec3,
    ray: Ray,
    t_min: Scalar,
    t_max: Scalar,
    hit: spec_fn(H, Ray, Scalar, Scalar) -> Option<HitRecord>,
    sum: spec_fn(Vec3, Vec3) -> Vec3,
    product: spec_fn(Vec3, Vec3) -> Scalar,
) -> Option<HitRecord> {
    match hit(hittable, moved_ray(offset, ray, sum), t_min, t_max) {
        Some(h) => Some(
            HitRecord {
                point: sum(h.point, offset),
                normal: face_normal(product(ray.direction, h.normal), h.normal),
                ..h
            },
        ),
        None => None,
    }
}

/// The box of the moved primitive: the primitive's box, both corners moved.
pub open spec fn translated_box(
    inner: Option<AABB>,
    offset: Vec3,
    sum: spec_fn(Vec3, Vec3) -> Vec3,
) -> Option<AABB> {
    match inner {
        Some(b) => Some(AABB { min: sum(b.min, offset), max: sum(b.max, offset) }),
        None => None,
    }
}

impl<H> Translate<H> {
    pub fn new(hittable: H, offset: Vec3) -> (r: Translate<H>)
        ensures
            r.hittable == hittable,
            r.offset == offset,
    {
        Translate { hittable, offset }
    }

    /// The intersection of the ray with the moved primitive, where
    /// `hit_inner` intersects the primitive as it is, `shift` adds two
    /// vectors and `dot` multiplies two.
    pub fn hit<F, A, D>(
        &self,
        ray: &Ray,
        t_min: Scalar,
        t_max: Scalar,
        hit_inner: &F,
        shift: &A,
        dot: &D,
    ) -> (r: Option<HitRecord>) where
        F: Fn(&H, &Ray, Scalar, Scalar) -> Option<HitRecord>,
        A: Fn(&Vec3, &Vec3) -> Vec3,
        D: Fn(&Vec3, &Vec3) -> Scalar,

        requires
            forall|object: &H, r: &Ray, lo: Scalar, hi: Scalar|
                call_requires(*hit_inner, (object, r, lo, hi)),
            forall|a: &Vec3, b: &Vec3| call_requires(*shift, (a, b)),
            forall|a: &Vec3, b: &Vec3| call_requires(*dot, (a, b)),
        ensures
            forall|
                hit: spec_fn(H, Ray, Scalar, Scalar) -> Option<HitRecord>,
                sum: spec_fn(Vec3, Vec3) -> Vec3,
                product: spec_fn(Vec3, Vec3) -> Scalar,
            |
                hit_is(*hit_inner, hit) && shift_is(*shift, sum) && dot_is(*dot, product) ==> r
                    == #[trigger] translated_hit(
                    self.hittable,
                    self.offset,
                    *ray,
                    t_min,
                    t_max,
                    hit,
                    sum,
                    product,
                ),
    {
        let back = self.offset.neg();
        let moved = Ray::new(shift(&ray.origin, &back), ray.direction, ray.time);
        match hit_inner(&self.hittable, &moved, t_min, t_max) {
            Some(hit) => {
                let point = shift(&hit.point, &self.offset);
                let facing = dot(&moved.direction, &hit.normal);
                let (_, normal) = get_face_normal(facing, hit.normal);
                Some(
                    HitRecord {
                        point,
                        normal,
                        t: hit.t,
                        u: hit.u,
                        v: hit.v,
                        material: hit.material,
                        front_face: hit.front_face,
                    },
                )
            },
            None => None,
        }
    }

    /// The box of the moved primitive over the time span `time`.
    pub fn bounding_box<G, A>(&self, time: (Scalar, Scalar), box_of: &G, shift: &A) -> (r: Option<AABB>)
        where G: Fn(&H, (Scalar, Scalar)) -> Option<AABB>, A: Fn(&Vec3, &Vec3) -> Vec3,
        requires
            forall|object: &H, span: (Scalar, Scalar)| call_requires(*box_of, (object, span)),
            forall|a: &Vec3, b: &Vec3| call_requires(*shift, (a, b)),
        ensures
            forall|
                bounds: spec_fn(H, (Scalar, Scalar)) -> Option<AABB>,
                sum: spec_fn(Vec3, Vec3) -> Vec3,
            |
                bounds_is(*box_of, bounds) && shift_is(*shift, sum) ==> r
                    == #[trigger] translated_box(bounds(self.hittable, time), self.offset, sum),
    {
        match box_of(&self.hittable, time) {
            Some(bbox) => {
                let min = shift(&bbox.min, &self.offset);
                let max = shift(&bbox.max, &self.offset);
                Some(AABB::new(min, max))
            },
            None => None,
        }
    }
}

/// The hit routine of a primitive that has been wrapped once: what a
/// `Translate` answers, given what its primitive answers.
pub open spec fn moved_once<H>(
    hit: spec_fn(H, Ray, Scalar, Scalar) -> Option<HitRecord>,
    sum: spec_fn(Vec3, Vec3) -> Vec3,
    product: spec_fn(Vec3, Vec3) -> Scalar,
) -> spec_fn(Translate<H>, Ray, Scalar, Scalar) -> Option<HitRecord> {
    |inner: Translate<H>, ray: Ray, t_min: Scalar, t_max: Scalar|
        translated_hit(inner.hittable, inner.offset, ray, t_min, t_max, hit, sum, product)
}

/// A primitive moved by an offset and then by the opposite offset answers
/// as the primitive itself.
///
/// This holds where moving forth and back is exact for the ray's origin and
/// for the point of the intersection, where the primitive's normal does
/// not point along the ray, and where the dot product with the opposite
/// vector is the opposite number.
pub proof fn lemma_translate_round_trip<H>(
    hittable: H,
    offset: Vec3,
    ray: Ray,
    t_min: Scalar,
    t_max: Scalar,
    hit: spec_fn(H, Ray, Scalar, Scalar) -> Option<HitRecord>,
    sum: spec_fn(Vec3, Vec3) -> Vec3,
    product: spec_fn(Vec3, Vec3) -> Scalar,
)
    requires
        sum(sum(ray.origin, offset), offset.neg_spec()) == ray.origin,
        hit(hittable, ray, t_min, t_max) matches Some(h) ==> {
            &&& sum(sum(h.point, offset), offset.neg_spec()) == h.point
            &&& product(ray.direction, h.normal).le_spec(Scalar { bits: 0 })
            &&& product(ray.direction, h.normal.neg_spec()) == product(
                ray.direction,
                h.normal,
            ).neg_spec()
        },
    ensures
        translated_hit(
            Translate { hittable, offset },
            offset.neg_spec(),
            ray,
            t_min,
            t_max,
            moved_once(hit, sum, product),
            sum,
            product,
        ) == hit(hittable, ray, t_min, t_max),
{
    lemma_neg(offset.x);
    lemma_neg(offset.y);
    lemma_neg(offset.z);
    assert(offset.neg_spec().neg_spec() == offset);
    let outer_ray = moved_ray(offset.neg_spec(), ray, sum);
    assert(outer_ray.origin == sum(ray.origin, offset));
    let inner_ray = moved_ray(offset, outer_ray, sum);
    assert(inner_ray == ray);
    match hit(hittable, ray, t_min, t_max) {
        Some(h) => {
            let facing = product(ray.direction, h.normal);
            lemma_neg(facing);
            lemma_neg(h.normal.x);
            lemma_neg(h.normal.y);
            lemma_neg(h.normal.z);
            assert(h.normal.neg_spec().neg_spec() == h.normal);
            let once = face_normal(facing, h.normal);
            let twice = face_normal(product(ray.direction, once), once);
            assert(twice == h.normal);
        },
        None => {},
    }
}

} // verus!
