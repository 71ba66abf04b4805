//! Axis-aligned boxes made of six rectangles.

use vstd::prelude::*;
use crate::hittable::aabb::AABB;
use crate::hittable::hittable_list::{hit_is, scan, HittableList};
use crate::hittable::rect::{AARect, Plane};
use crate::hittable::HitRecord;
use crate::ray::Ray;
use crate::scalar::Scalar;
use crate::vec::Vec3;

verus! {

/// The box between two corners, with its six sides.
pub struct BoxType {
    pub min: Vec3,
    pub max: Vec3,
    pub sides: HittableList<AARect>,
}

/// The six sides of the box between `low` and `high`: for each of the
/// planes XY, XZ and YZ the side at the high corner, then the one at the low
/// corner.
pub open spec fn box_sides(low: Vec3, high: Vec3, material: usize) -> Seq<AARect> {
    seq![
        AARect { plane: Plane::XY, a: (low.x, high.x), b: (low.y, high.y), k: high.z, material },
        AARect { plane: Plane::XY, a: (low.x, high.x), b: (low.y, high.y), k: low.z, material },
        AARect { plane: Plane::XZ, a: (low.x, high.x), b: (low.z, high.z), k: high.y, material },
        AARect { plane: Plane::XZ, a: (low.x, high.x), b: (low.z, high.z), k: low.y, material },
        AARect { plane: Plane::YZ, a: (low.y, high.y), b: (low.z, high.z), k: high.x, material },
        AARect { plane: Plane::YZ, a: (low.y, high.y), b: (low.z, high.z), k: low.x, material },
    ]
}

impl BoxType {
    pub fn new(point: (Vec3, Vec3), material: usize) -> (r: BoxType)
        ensures
            r.min == point.0,
            r.max == point.1,
            r.sides.objects@ == box_sides(point.0, point.1, material),
    {
        let mut sides = HittableList::default();
        sides.push(
            AARect::new(
                Plane::XY,
                (point.0.x, point.1.x),
                (point.0.y, point.1.y),
                point.1.z,
                material,
            ),
        );
        sides.push(
            AARect::new(
                Plane::XY,
                (point.0.x, point.1.x),
                (point.0.y, point.1.y),
                point.0.z,
                material,
            ),
        );
        sides.push(
            AARect::new(
                Plane::XZ,
                (point.0.x, point.1.x),
                (point.0.z, point.1.z),
                point.1.y,
                material,
            ),
        );
        sides.push(
            AARect::new(
                Plane::XZ,
                (point.0.x, point.1.x),
                (point.0.z, point.1.z),
                point.0.y,
                material,
            ),
        );
        sides.push(
            AARect::new(
                Plane::YZ,
                (point.0.y, point.1.y),
                (point.0.z, point.1.z),
                point.1.x,
                material,
            ),
        );
        sides.push(
            AARect::new(
                Plane::YZ,
                (point.0.y, point.1.y),
                (point.0.z, point.1.z),
                point.0.x,
                material,
            ),
        );
        proof {
            assert(sides.objects@ =~= box_sides(point.0, point.1, material));
        }
        BoxType { min: point.0, max: point.1, sides }
    }

    /// The nearest intersection with the six sides, where `hit_side`
    /// intersects one rectangle.
    pub fn hit<F>(&self, ray: &Ray, t_min: Scalar, t_max: Scalar, hit_side: &F) -> (r: Option<HitRecord>)
        where F: Fn(&AARect, &Ray, Scalar, Scalar) -> Option<HitRecord>,
        requires
            forall|side: &AARect, r: &Ray, lo: Scalar, hi: Scalar|
                call_requires(*hit_side, (side, r, lo, hi)),
        ensures
            forall|hit: spec_fn(AARect, Ray, Scalar, Scalar) -> Option<HitRecord>|
                hit_is(*hit_side, hit) ==> r == #[trigger] scan(
                    self.sides.objects@,
                    *ray,
                    t_min,
                    t_max,
                    hit,
                ),
    {
        self.sides.hit(ray, t_min, t_max, hit_side)
    }

    pub fn bounding_box(&self) -> (r: Option<AABB>)
        ensures
            r == Some(AABB { min: self.min, max: self.max }),
    {
        Some(AABB::new(self.min, self.max))
    }
}

} // verus!
