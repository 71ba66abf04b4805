//! Matte surfaces.

use vstd::prelude::*;
use crate::hittable::HitRecord;
use crate::ray::Ray;
use crate::scalar::Scalar;
use crate::texture::solid_color::SolidColor;
use crate::texture::Texture;
use crate::vec::Vec3;

verus! {

pub struct Lambertian<T: Texture> {
    pub albedo: T,
}

/// The density of a direction on the cosine-weighted hemisphere: `density`,
/// the cosine to the normal over pi, for a direction whose cosine is not
/// below zero, and zero behind the surface.
pub open spec fn cosine_density(cosine: Scalar, density: Scalar) -> Scalar {
    if cosine.lt_spec(Scalar { bits: 0 }) {
        Scalar { bits: 0 }
    } else {
        density
    }
}

impl<T: Texture> Lambertian<T> {
    pub fn new(texture: T) -> (r: Lambertian<T>)
        ensures
            r.albedo == texture,
    {
        Lambertian { albedo: texture }
    }

    /// What leaves the surface: a ray from the hit along `direction`, the
    /// normalised sample of the hemisphere about the normal, with the
    /// texture's colour at the hit and the density `pdf` of the sample.
    pub fn scatter(
        &self,
        hit: &HitRecord,
        direction: Vec3,
        pdf: Scalar,
        time: Scalar,
        sines: Scalar,
    ) -> (r: Option<(Ray, Vec3, Scalar)>)
        ensures
            r == Some(
                (
                    Ray { origin: hit.point, direction, time },
                    self.albedo.value_spec(hit.u, hit.v, hit.point, sines),
                    pdf,
                ),
            ),
    {
        let scattered = Ray::new(hit.point, direction, time);
        let albedo = self.albedo.value(hit.u, hit.v, &hit.point, sines);
        Some((scattered, albedo, pdf))
    }

    /// The density with which this surface scatters into a direction whose
    /// cosine to the normal is `cosine`; `density` is that cosine over pi.
    pub fn scattering_pdf(&self, cosine: Scalar, density: Scalar) -> (r: Scalar)
        ensures
            r == cosine_density(cosine, density),
    {
        if cosine.lt(Scalar::zero()) {
            Scalar::zero()
        } else {
            density
        }
    }
}

/// A matte surface of one colour.
impl From<Vec3> for Lambertian<SolidColor> {
    fn from(value: Vec3) -> (r: Self) {
        Lambertian { albedo: SolidColor::new(value) }
    }
}

impl vstd::std_specs::convert::FromSpecImpl<Vec3> for Lambertian<SolidColor> {
    open spec fn obeys_from_spec() -> bool {
        true
    }

    open spec fn from_spec(value: Vec3) -> Self {
        Lambertian { albedo: SolidColor { color: value } }
    }
}

} // verus!
