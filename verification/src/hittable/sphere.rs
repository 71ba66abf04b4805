//! Spheres.

use vstd::prelude::*;
use crate::hittable::aabb::AABB;
use crate::hittable::{face_normal, get_face_normal, is_front_face, HitRecord};
use crate::scalar::Scalar;
use crate::vec::Vec3;

verus! {

/// A sphere.
#[derive(Clone, Copy, Debug, PartialEq, Eq, Structural)]
pub struct Sphere {
    pub center: Vec3,
    pub radius: Scalar,
    pub material: usize,
}

/// One root of the ray's quadratic for a sphere, with what follows from it.
///
/// `t` is the root, `point` the ray at `t`, `outward_normal` the unit vector
/// from the centre to `point`, `u` and `v` the spherical coordinates of that
/// vector, and `facing` the dot product of the ray's direction with it.
#[derive(Clone, Copy, Debug, PartialEq, Eq, Structural)]
pub struct Root {
    pub t: Scalar,
    pub point: Vec3,
    pub outward_normal: Vec3,
    pub u: Scalar,
    pub v: Scalar,
    pub facing: Scalar,
}

impl Root {
    /// The root lies strictly inside the interval.
    pub open spec fn within(self, t_min: Scalar, t_max: Scalar) -> bool {
        t_min.lt_spec(self.t) && self.t.lt_spec(t_max)
    }

    /// The record of the intersection at this root.
    pub open spec fn record(self, material: usize) -> HitRecord {
        HitRecord {
            point: self.point,
            normal: face_normal(self.facing, self.outward_normal),
            t: self.t,
            u: self.u,
            v: self.v,
            material,
            front_face: is_front_face(self.facing),
        }
    }

    /// Makes the record of the intersection at this root, with its normal
    /// turned against the ray.
    pub fn to_record(&self, material: usize) -> (r: HitRecord)
        ensures
            r == self.record(material),
    {
        let (front_face, normal) = get_face_normal(self.facing, self.outward_normal);
        HitRecord { point: self.point, normal, t: self.t, u: self.u, v: self.v, material, front_face }
    }
}

/// The intersection that the quadratic's roots give: none unless the
/// discriminant is above zero; else the near root if it lies strictly inside
/// the interval; else the far root if that does.
pub open spec fn nearest_root(
    discriminant: Scalar,
    near: Root,
    far: Root,
    t_min: Scalar,
    t_max: Scalar,
    material: usize,
) -> Option<HitRecord> {
    if !(Scalar { bits: 0 }).lt_spec(discriminant) {
        None
    } else if near.within(t_min, t_max) {
        Some(near.record(material))
    } else if far.within(t_min, t_max) {
        Some(far.record(material))
    } else {
        None
    }
}

/// Chooses between the two roots as `nearest_root` says.
pub fn pick_root(
    discriminant: Scalar,
    near: &Root,
    far: &Root,
    t_min: Scalar,
    t_max: Scalar,
    material: usize,
) -> (r: Option<HitRecord>)
    ensures
        r == nearest_root(discriminant, *near, *far, t_min, t_max, material),
{
    if discriminant.gt(Scalar::zero()) {
        if t_min.lt(near.t) && near.t.lt(t_max) {
            return Some(near.to_record(material));
        }
        if t_min.lt(far.t) && far.t.lt(t_max) {
            return Some(far.to_record(material));
        }
    }
    None
}

impl Sphere {
    pub fn new(center: Vec3, radius: Scalar, material: usize) -> (r: Sphere)
        ensures
            r == (Sphere { center, radius, material }),
    {
        Sphere { center, radius, material }
    }

    /// The intersection with a ray whose quadratic has the given
    /// discriminant and roots.
    pub fn hit(
        &self,
        discriminant: Scalar,
        near: &Root,
        far: &Root,
        t_min: Scalar,
        t_max: Scalar,
    ) -> (r: Option<HitRecord>)
        ensures
            r == nearest_root(discriminant, *near, *far, t_min, t_max, self.material),
    {
        pick_root(discriminant, near, far, t_min, t_max, self.material)
    }

    /// The box between `low`, the centre less the radius on every axis, and
    /// `high`, the centre plus the radius.
    pub fn bounding_box(&self, low: Vec3, high: Vec3) -> (r: Option<AABB>)
        ensures
            r == Some(AABB { min: low, max: high }),
    {
        Some(AABB::new(low, high))
    }
}

} // verus!
