//! Axis-aligned rectangles.

use vstd::prelude::*;
use crate::hittable::aabb::AABB;
use crate::hittable::{face_normal, get_face_normal, is_front_face, HitRecord};
use crate::scalar::Scalar;
use crate::vec::Vec3;

verus! {

/// The coordinate plane that a rectangle is parallel to.
#[derive(Clone, Copy, Debug, PartialEq, Eq, Structural)]
pub enum Plane {
    YZ,
    XZ,
    XY,
}

impl Plane {
    /// The axis that the plane is perpendicular to, then the two axes that
    /// span it.
    pub open spec fn axes_spec(self) -> (usize, usize, usize) {
        match self {
            Plane::YZ => (0, 1, 2),
            Plane::XZ => (1, 0, 2),
            Plane::XY => (2, 0, 1),
        }
    }

    pub fn axes(&self) -> (r: (usize, usize, usize))
        ensures
            r == self.axes_spec(),
            r.0 < 3 && r.1 < 3 && r.2 < 3,
            r.0 != r.1 && r.0 != r.2 && r.1 != r.2,
    {
        match self {
            Plane::YZ => (0, 1, 2),
            Plane::XZ => (1, 0, 2),
            Plane::XY => (2, 0, 1),
        }
    }
}

/// A rectangle in the plane where the fixed axis has the value `k`, spanning
/// `a.0 ..= a.1` on the first axis of the plane and `b.0 ..= b.1` on the second.
#[derive(Clone, Copy, Debug)]
pub struct AARect {
    pub plane: Plane,
    pub a: (Scalar, Scalar),
    pub b: (Scalar, Scalar),
    pub k: Scalar,
    pub material: usize,
}

/// Where a ray crosses the plane of a rectangle.
///
/// `t` solves the ray's equation for the plane; `a` and `b` are the two
/// in-plane coordinates of the ray at `t`, `u` and `v` those coordinates as
/// fractions of the rectangle's extents, `point` the ray at `t`, and `facing`
/// the dot product of the ray's direction with the unit vector along the
/// fixed axis.
#[derive(Clone, Copy, Debug, PartialEq, Eq, Structural)]
pub struct PlaneCrossing {
    pub t: Scalar,
    pub a: Scalar,
    pub b: Scalar,
    pub u: Scalar,
    pub v: Scalar,
    pub point: Vec3,
    pub facing: Scalar,
}

impl AARect {
    /// The crossing does not lie strictly inside the interval, or it lies
    /// outside the rectangle.
    pub open spec fn misses(self, crossing: PlaneCrossing, t_min: Scalar, t_max: Scalar) -> bool {
        ||| !(t_min.lt_spec(crossing.t) && crossing.t.lt_spec(t_max))
        ||| crossing.a.lt_spec(self.a.0)
        ||| self.a.1.lt_spec(crossing.a)
        ||| crossing.b.lt_spec(self.b.0)
        ||| self.b.1.lt_spec(crossing.b)
    }

    /// The record of a crossing that does not miss.
    pub open spec fn record(self, crossing: PlaneCrossing) -> HitRecord {
        HitRecord {
            t: crossing.t,
            u: crossing.u,
            v: crossing.v,
            point: crossing.point,
            normal: face_normal(
                crossing.facing,
                Vec3::zero_spec().with_spec(
                    self.plane.axes_spec().0 as int,
                    Scalar { bits: crate::scalar::ONE_BITS },
                ),
            ),
            material: self.material,
            front_face: is_front_face(crossing.facing),
        }
    }

    pub open spec fn hit_spec(
        self,
        crossing: PlaneCrossing,
        t_min: Scalar,
        t_max: Scalar,
    ) -> Option<HitRecord> {
        if self.misses(crossing, t_min, t_max) {
            None
        } else {
            Some(self.record(crossing))
        }
    }

    /// The box of the rectangle, as thick along the fixed axis as the
    /// interval `k` that the caller has put around the plane.
    pub open spec fn bounding_box_spec(self, k: (Scalar, Scalar)) -> AABB {
        match self.plane {
            Plane::YZ => AABB {
                min: Vec3 { x: k.0, y: self.a.0, z: self.b.0 },
                max: Vec3 { x: k.1, y: self.a.1, z: self.b.1 },
            },
            Plane::XZ => AABB {
                min: Vec3 { x: self.a.0, y: k.0, z: self.b.0 },
                max: Vec3 { x: self.a.1, y: k.1, z: self.b.1 },
            },
            Plane::XY => AABB {
                min: Vec3 { x: self.a.0, y: self.b.0, z: k.0 },
                max: Vec3 { x: self.a.1, y: self.b.1, z: k.1 },
            },
        }
    }

    pub fn new(
        plane: Plane,
        a: (Scalar, Scalar),
        b: (Scalar, Scalar),
        k: Scalar,
        material: usize,
    ) -> (r: AARect)
        ensures
            r == (AARect { plane, a, b, k, material }),
    {
        AARect { plane, a, b, k, material }
    }

    /// The intersection at `crossing`, unless its parameter does not lie
    /// strictly between `t_min` and `t_max` or its in-plane coordinates lie
    /// outside the rectangle.
    /// The normal is the unit vector along the fixed axis, turned against
    /// the ray.
    pub fn hit(&self, crossing: &PlaneCrossing, t_min: Scalar, t_max: Scalar) -> (r: Option<HitRecord>)
        ensures
            r == self.hit_spec(*crossing, t_min, t_max),
    {
        let (k_axis, _, _) = self.plane.axes();
        let t = crossing.t;
        if !(t_min.lt(t) && t.lt(t_max)) {
            None
        } else {
            let a = crossing.a;
            let b = crossing.b;
            if a.lt(self.a.0) || a.gt(self.a.1) || b.lt(self.b.0) || b.gt(self.b.1) {
                None
            } else {
                let (front_face, normal) = get_face_normal(crossing.facing, Vec3::unit(k_axis));
                Some(
                    HitRecord {
                        t,
                        u: crossing.u,
                        v: crossing.v,
                        point: crossing.point,
                        normal,
                        material: self.material,
                        front_face,
                    },
                )
            }
        }
    }

    /// The box of the rectangle; `k` is the interval around the plane,
    /// `self.k` less and plus the padding, that gives the box its thickness.
    pub fn bounding_box(&self, k: (Scalar, Scalar)) -> (r: Option<AABB>)
        ensures
            r == Some(self.bounding_box_spec(k)),
    {
        let plane = match &self.plane {
            Plane::YZ => (k, self.a, self.b),
            Plane::XZ => (self.a, k, self.b),
            Plane::XY => (self.a, self.b, k),
        };
        Some(
            AABB {
                min: Vec3::new(plane.0.0, plane.1.0, plane.2.0),
                max: Vec3::new(plane.0.1, plane.1.1, plane.2.1),
            },
        )
    }
}

} // verus!
