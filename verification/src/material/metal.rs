//! Metal: a mirror, blurred by `fuzzy`.

use vstd::prelude::*;
use crate::ray::Ray;
use crate::scalar::Scalar;
use crate::vec::Vec3;

verus! {

#[derive(Clone, Copy, Debug, PartialEq, Eq, Structural)]
pub struct Metal {
    pub albedo: Vec3,
    pub fuzzy: Scalar,
}

impl Metal {
    /// The blur is a number, and not above one.
    pub open spec fn wf(self) -> bool {
        self.fuzzy.le_spec(Scalar { bits: crate::scalar::ONE_BITS })
    }

    /// A metal with the given colour; a blur above one counts as one, and
    /// so does one that is no number.
    pub fn new(albedo: Vec3, fuzzy: Scalar) -> (r: Metal)
        ensures
            r.albedo == albedo,
            r.fuzzy == fuzzy.min_spec(Scalar { bits: crate::scalar::ONE_BITS }),
            r.wf(),
    {
        Metal { albedo, fuzzy: fuzzy.min(Scalar::one()) }
    }

    /// What leaves the surface at `point`.
    ///
    /// `direction` is the mirrored direction with its blur added, `facing`
    /// its dot product with the surface normal.  A direction that does not
    /// point away from the surface is absorbed.  The density that comes
    /// with the ray is zero: a mirror has none.
    pub open spec fn scatter_spec(
        self,
        point: Vec3,
        direction: Vec3,
        facing: Scalar,
        time: Scalar,
    ) -> Option<(Ray, Vec3, Scalar)> {
        if (Scalar { bits: 0 }).lt_spec(facing) {
            Some((Ray { origin: point, direction, time }, self.albedo, Scalar { bits: 0 }))
        } else {
            None
        }
    }

    pub fn scatter(
        &self,
        point: Vec3,
        direction: Vec3,
        facing: Scalar,
        time: Scalar,
    ) -> (r: Option<(Ray, Vec3, Scalar)>)
        ensures
            r == self.scatter_spec(point, direction, facing, time),
    {
        if facing.gt(Scalar::zero()) {
            Some((Ray::new(point, direction, time), self.albedo, Scalar::zero()))
        } else {
            None
        }
    }
}

} // verus!
