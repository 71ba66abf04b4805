//! Spheres whose centre moves on a line while the shutter is open.

use vstd::prelude::*;
use crate::hittable::aabb::AABB;
use crate::hittable::sphere::{nearest_root, pick_root, Root};
use crate::hittable::HitRecord;
use crate::scalar::Scalar;
use crate::vec::Vec3;

verus! {

/// A sphere whose centre is `center.0` at time `time.0` and `center.1` at
/// time `time.1`.
#[derive(Clone, Copy, Debug)]
pub struct MovingSphere {
    pub center: (Vec3, Vec3),
    pub time: (Scalar, Scalar),
    pub radius: Scalar,
    pub material: usize,
}

impl MovingSphere {
    pub fn new(
        center: (Vec3, Vec3),
        time: (Scalar, Scalar),
        radius: Scalar,
        material: usize,
    ) -> (r: MovingSphere)
        ensures
            r == (MovingSphere { center, time, radius, material }),
    {
        MovingSphere { center, time, radius, material }
    }

    /// The intersection with a ray whose quadratic, for the centre at the
    /// ray's time, has the given discriminant and roots.
    pub fn hit(
        &self,
        discriminant: Scalar,
        near: &Root,
        far: &Root,
        t_min: Scalar,
        t_max: Scalar,
    ) -> (r: Option<HitRecord>)
        ensures
            r == nearest_root(discriminant, *near, *far, t_min, t_max, self.material),
    {
        pick_root(discriminant, near, far, t_min, t_max, self.material)
    }

    /// The box around the sphere's boxes at the two ends of a time span.
    pub fn bounding_box(&self, at_start: &AABB, at_end: &AABB) -> (r: Option<AABB>)
        ensures
            r == Some(AABB::union(*at_start, *at_end)),
    {
        Some(AABB::surrounding_box(at_start, at_end))
    }
}

} // verus!
