//! Scattering models.  Each model decides here what becomes of a ray at a
//! surface, from the vectors and products that the caller has computed.

use vstd::prelude::*;
use crate::scalar::Scalar;

pub mod dielectric;
pub mod diffuse_light;
pub mod lambertian;
pub mod metal;

verus! {

/// Whether a point drawn from the cube around the origin is kept as a sample
/// of the unit ball (or, in the plane, of the unit disk): it is when its
/// squared length is below one.
pub open spec fn in_unit_ball(length_squared: Scalar) -> bool {
    length_squared.lt_spec(Scalar { bits: crate::scalar::ONE_BITS })
}

/// The test of rejection sampling: whether to keep a point with this
/// squared length.
pub fn accept_sample(length_squared: Scalar) -> (r: bool)
    ensures
        r == in_unit_ball(length_squared),
{
    length_squared.lt(Scalar::one())
}

/// Whether light passes into the second medium: it does when the
/// discriminant of the refraction equation is above zero, and is reflected
/// as a whole when it is not.
pub open spec fn refracts(discriminant: Scalar) -> bool {
    (Scalar { bits: 0 }).lt_spec(discriminant)
}

/// The refracted direction, if the refraction equation has a solution.
pub fn refract<V>(discriminant: Scalar, refracted: V) -> (r: Option<V>)
    ensures
        r == if refracts(discriminant) {
            Some(refracted)
        } else {
            None
        },
{
    if discriminant.gt(Scalar::zero()) {
        Some(refracted)
    } else {
        None
    }
}

} // verus!
