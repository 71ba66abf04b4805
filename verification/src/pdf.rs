//! Strategies for sampling directions, and their densities.

use vstd::prelude::*;
use crate::onb::Onb;
use crate::scalar::Scalar;
use crate::vec::Vec3;

verus! {

/// Directions about a normal, weighted by their cosine to it.
#[derive(Clone, Copy, Debug)]
pub struct CosinePdf {
    pub uvw: Onb,
}

/// Directions towards a primitive, as seen from `origin`.
pub struct HittablePdf<H> {
    pub origin: Vec3,
    pub hittable: H,
}

/// Two strategies, each used for half of the samples.
pub struct MixturePdf<A, B> {
    pub pdf: (A, B),
}

/// The density of a direction under the cosine strategy: `density`, the
/// cosine over pi, where the cosine is above zero, and zero elsewhere.
pub open spec fn cosine_value(cosine: Scalar, density: Scalar) -> Scalar {
    if cosine.le_spec(Scalar { bits: 0 }) {
        Scalar { bits: 0 }
    } else {
        density
    }
}

/// Whether a uniform draw selects the first strategy of a mixture.
pub open spec fn picks_first(draw: Scalar) -> bool {
    draw.lt_spec(Scalar { bits: crate::scalar::HALF_BITS })
}

/// The density that a primitive has as a target of sampling unless it says
/// otherwise: none.
pub fn default_pdf_value() -> (r: Scalar)
    ensures
        r == (Scalar { bits: 0 }),
{
    Scalar::zero()
}

/// The direction that a primitive is sampled in unless it says otherwise:
/// the first unit vector.
pub fn default_random() -> (r: Vec3)
    ensures
        r == Vec3::zero_spec().with_spec(0, Scalar { bits: crate::scalar::ONE_BITS }),
{
    Vec3::unit(0)
}

impl CosinePdf {
    /// The strategy about the axis `w` of `uvw`.
    pub fn new(uvw: Onb) -> (r: CosinePdf)
        ensures
            r.uvw == uvw,
    {
        CosinePdf { uvw }
    }

    /// The density of a direction whose cosine to the normal is `cosine`;
    /// `density` is that cosine over pi.
    pub fn value(&self, cosine: Scalar, density: Scalar) -> (r: Scalar)
        ensures
            r == cosine_value(cosine, density),
    {
        if cosine.le(Scalar::zero()) {
            Scalar::zero()
        } else {
            density
        }
    }
}

impl<H> HittablePdf<H> {
    pub fn new(origin: Vec3, hittable: H) -> (r: HittablePdf<H>)
        ensures
            r.origin == origin,
            r.hittable == hittable,
    {
        HittablePdf { origin, hittable }
    }
}

impl<A, B> MixturePdf<A, B> {
    pub fn new(pdf: (A, B)) -> (r: MixturePdf<A, B>)
        ensures
            r.pdf == pdf,
    {
        MixturePdf { pdf }
    }

    /// A direction from the first strategy where `draw`, a uniform sample
    /// of `[0, 1)`, lies below one half, and from the second elsewhere.
    /// `first` and `second` sample the two strategies; only the one that is
    /// picked is called.
    pub fn generate<F, G>(&self, draw: Scalar, first: F, second: G) -> (r: Vec3) where
        F: FnOnce(&A) -> Vec3,
        G: FnOnce(&B) -> Vec3,

        requires
            call_requires(first, (&self.pdf.0,)),
            call_requires(second, (&self.pdf.1,)),
        ensures
            picks_first(draw) ==> call_ensures(first, (&self.pdf.0,), r),
            !picks_first(draw) ==> call_ensures(second, (&self.pdf.1,), r),
    {
        if draw.lt(Scalar::half()) {
            first(&self.pdf.0)
        } else {
            second(&self.pdf.1)
        }
    }
}

} // verus!
