//! Glass and other clear media that refract.

use vstd::prelude::*;
use crate::material::refracts;
use crate::ray::Ray;
use crate::scalar::Scalar;
use crate::vec::Vec3;

verus! {

#[derive(Clone, Copy, Debug, PartialEq, Eq, Structural)]
pub struct Dielectric {
    pub ref_idx: Scalar,
}

/// On which side of the surface the ray travels, with what depends on it.
///
/// `ni_over_nt` is the ratio of the refraction indices, from the medium
/// that the ray leaves to the one that it enters.
#[derive(Clone, Copy, Debug, PartialEq, Eq, Structural)]
pub struct Interface {
    pub outward_normal: Vec3,
    pub ni_over_nt: Scalar,
    pub cosine: Scalar,
}

impl Dielectric {
    pub fn new(index_of_refraction: Scalar) -> (r: Dielectric)
        ensures
            r.ref_idx == index_of_refraction,
    {
        Dielectric { ref_idx: index_of_refraction }
    }

    /// Whether the ray leaves the medium: it does when it runs along the
    /// normal, its dot product `facing` with the normal being above zero.
    pub open spec fn leaves_medium(facing: Scalar) -> bool {
        (Scalar { bits: 0 }).lt_spec(facing)
    }

    /// The interface for a ray that leaves the medium (`leaving`) or enters
    /// it (`entering`), whichever `facing` says.
    pub open spec fn interface_spec(
        self,
        facing: Scalar,
        normal: Vec3,
        leaving: (Scalar, Scalar),
        entering: (Scalar, Scalar),
    ) -> Interface {
        if Self::leaves_medium(facing) {
            Interface {
                outward_normal: normal.neg_spec(),
                ni_over_nt: leaving.0,
                cosine: leaving.1,
            }
        } else {
            Interface { outward_normal: normal, ni_over_nt: entering.0, cosine: entering.1 }
        }
    }

    /// Picks the interface.  `leaving` and `entering` each hold the index
    /// ratio and the cosine for their case: the index itself and the index
    /// times the cosine of the angle to the normal for a ray that leaves;
    /// the reciprocal of the index and the cosine with its sign turned for
    /// one that enters.
    pub fn interface(
        &self,
        facing: Scalar,
        normal: Vec3,
        leaving: (Scalar, Scalar),
        entering: (Scalar, Scalar),
    ) -> (r: Interface)
        ensures
            r == self.interface_spec(facing, normal, leaving, entering),
    {
        if facing.gt(Scalar::zero()) {
            Interface { outward_normal: normal.neg(), ni_over_nt: leaving.0, cosine: leaving.1 }
        } else {
            Interface { outward_normal: normal, ni_over_nt: entering.0, cosine: entering.1 }
        }
    }

    /// The direction that the scattered ray takes: the refracted one when
    /// there is one and `draw` is not below the reflectance, the reflected
    /// one otherwise.
    pub open spec fn direction_spec(
        refracted: Option<Vec3>,
        reflectance: Scalar,
        draw: Scalar,
        reflected: Vec3,
    ) -> Vec3 {
        match refracted {
            Some(direction) if reflectance.le_spec(draw) => direction,
            _ => reflected,
        }
    }

    /// What leaves the surface at `point`: always a ray, never dimmed.
    ///
    /// `refracted` is the refracted direction unless the light is reflected
    /// as a whole, `reflectance` the share of light that the surface
    /// reflects at this angle, `draw` a uniform sample of `[0, 1)`.
    pub fn scatter(
        &self,
        point: Vec3,
        time: Scalar,
        refracted: Option<Vec3>,
        reflectance: Scalar,
        draw: Scalar,
        reflected: Vec3,
    ) -> (r: Option<(Ray, Vec3)>)
        ensures
            r == Some(
                (
                    Ray {
                        origin: point,
                        direction: Self::direction_spec(refracted, reflectance, draw, reflected),
                        time,
                    },
                    Vec3 {
                        x: Scalar { bits: crate::scalar::ONE_BITS },
                        y: Scalar { bits: crate::scalar::ONE_BITS },
                        z: Scalar { bits: crate::scalar::ONE_BITS },
                    },
                ),
            ),
    {
        let attenuation = Vec3::splat(Scalar::one());
        if let Some(direction) = refracted {
            if draw.ge(reflectance) {
                let scattered = Ray::new(point, direction, time);
                return Some((scattered, attenuation));
            }
        }
        let scattered = Ray::new(point, reflected, time);
        Some((scattered, attenuation))
    }
}

/// A ray that refracts with certainty keeps going: with a reflectance of
/// zero every draw gives the refracted direction.
pub proof fn lemma_no_reflectance_refracts(refracted: Vec3, draw: Scalar, reflected: Vec3)
    requires
        !draw.is_nan(),
        !draw.is_negative() || draw.magnitude() == 0,
    ensures
        Dielectric::direction_spec(Some(refracted), Scalar { bits: 0 }, draw, reflected)
            == refracted,
{
}

/// Light that meets the surface beyond the critical angle is reflected
/// whatever is drawn.
pub proof fn lemma_total_internal_reflection(
    discriminant: Scalar,
    reflectance: Scalar,
    draw: Scalar,
    reflected: Vec3,
)
    requires
        !refracts(discriminant),
    ensures
        Dielectric::direction_spec(None, reflectance, draw, reflected) == reflected,
{
}

} // verus!
