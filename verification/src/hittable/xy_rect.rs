//! Rectangles in a plane of constant `z`.

use vstd::prelude::*;
use crate::hittable::aabb::AABB;
use crate::hittable::rect::{AARect, Plane, PlaneCrossing};
use crate::hittable::HitRecord;
use crate::scalar::Scalar;

verus! {

/// The rectangle that spans `x.0 ..= x.1` and `y.0 ..= y.1` where `z` is `k`.
#[derive(Clone, Copy, Debug)]
pub struct XYRect {
    pub material: usize,
    pub x: (Scalar, Scalar),
    pub y: (Scalar, Scalar),
    pub k: Scalar,
}

impl XYRect {
    /// The same rectangle as one of the rectangles of any plane.
    pub open spec fn as_rect(self) -> AARect {
        AARect { plane: Plane::XY, a: self.x, b: self.y, k: self.k, material: self.material }
    }

    /// The intersection at `crossing`, as for every axis-aligned rectangle.
    pub fn hit(&self, crossing: &PlaneCrossing, t_min: Scalar, t_max: Scalar) -> (r: Option<HitRecord>)
        ensures
            r == self.as_rect().hit_spec(*crossing, t_min, t_max),
    {
        AARect::new(Plane::XY, self.x, self.y, self.k, self.material).hit(crossing, t_min, t_max)
    }

    /// The box of the rectangle, as thick as the interval `k` around its plane.
    pub fn bounding_box(&self, k: (Scalar, Scalar)) -> (r: Option<AABB>)
        ensures
            r == Some(self.as_rect().bounding_box_spec(k)),
    {
        AARect::new(Plane::XY, self.x, self.y, self.k, self.material).bounding_box(k)
    }
}

} // verus!
