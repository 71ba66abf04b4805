//! Surfaces that emit light and scatter none.

use vstd::prelude::*;
use crate::hittable::HitRecord;
use crate::ray::Ray;
use crate::scalar::Scalar;
use crate::texture::solid_color::SolidColor;
use crate::texture::Texture;
use crate::vec::Vec3;

verus! {

pub struct DiffuseLight<T: Texture> {
    pub emit: T,
}

impl<T: Texture> DiffuseLight<T> {
    pub fn new(emit: T) -> (r: DiffuseLight<T>)
        ensures
            r.emit == emit,
    {
        DiffuseLight { emit }
    }

    /// A light scatters nothing.
    pub fn scatter(&self, ray: &Ray, hit: &HitRecord) -> (r: Option<(Ray, Vec3, Scalar)>)
        ensures
            r is None,
    {
        None
    }

    /// The texture's colour at the hit, seen from the front; black from the back.
    pub open spec fn emitted_spec(&self, hit: HitRecord, sines: Scalar) -> Vec3 {
        if hit.front_face {
            self.emit.value_spec(hit.u, hit.v, hit.point, sines)
        } else {
            Vec3::zero_spec()
        }
    }

    /// The light that leaves the surface towards the ray's origin; `sines`
    /// is what the texture needs to know of the point.
    pub fn emitted(&self, hit: &HitRecord, sines: Scalar) -> (r: Vec3)
        ensures
            r == self.emitted_spec(*hit, sines),
    {
        if hit.front_face {
            self.emit.value(hit.u, hit.v, &hit.point, sines)
        } else {
            Vec3::zero()
        }
    }
}

/// A light of one colour.
impl From<Vec3> for DiffuseLight<SolidColor> {
    fn from(value: Vec3) -> (r: Self) {
        DiffuseLight { emit: SolidColor::new(value) }
    }
}

impl vstd::std_specs::convert::FromSpecImpl<Vec3> for DiffuseLight<SolidColor> {
    open spec fn obeys_from_spec() -> bool {
        true
    }

    open spec fn from_spec(value: Vec3) -> Self {
        DiffuseLight { emit: SolidColor { color: value } }
    }
}

} // verus!
