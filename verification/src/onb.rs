//! Orthonormal bases: a local frame around a normal.

use vstd::prelude::*;
use crate::scalar::Scalar;
use crate::vec::Vec3;

verus! {

/// Pattern of `0.9`, the bound above which a normal counts as lying along
/// the first axis.
pub const NEARLY_ONE_BITS: u32 = 0x3f66_6666;

/// Three axes `u`, `v`, `w`, each of unit length and at right angles to the
/// other two.
#[derive(Clone, Copy, Debug)]
pub struct Onb {
    pub axis: [Vec3; 3],
}

/// The vector that the frame around `w` is completed from: the second unit
/// vector where `w` lies nearly along the first axis, the first unit vector
/// elsewhere, so that it never lies along `w`.
pub open spec fn helper_axis(w: Vec3) -> Vec3 {
    if (Scalar { bits: NEARLY_ONE_BITS }).lt_spec(w.x.abs_spec()) {
        Vec3::zero_spec().with_spec(1, Scalar { bits: crate::scalar::ONE_BITS })
    } else {
        Vec3::zero_spec().with_spec(0, Scalar { bits: crate::scalar::ONE_BITS })
    }
}

impl Onb {
    /// Chooses the vector to cross the unit normal `w` with.
    pub fn helper(w: &Vec3) -> (r: Vec3)
        ensures
            r == helper_axis(*w),
    {
        if w.x.abs().gt(Scalar { bits: NEARLY_ONE_BITS }) {
            Vec3::unit(1)
        } else {
            Vec3::unit(0)
        }
    }

    /// The frame with the axis `w`, the normalised normal; `v` is the
    /// normalised cross product of `w` with its helper, and `u` the cross
    /// product of `w` with `v`.
    pub fn build_from_w(w: Vec3, v: Vec3, u: Vec3) -> (r: Onb)
        ensures
            r.axis@ == seq![u, v, w],
    {
        let r = Onb { axis: [u, v, w] };
        proof {
            assert(r.axis@ =~= seq![u, v, w]);
        }
        r
    }

    pub fn u(&self) -> (r: Vec3)
        ensures
            r == self.axis@[0],
    {
        self.axis[0]
    }

    pub fn v(&self) -> (r: Vec3)
        ensures
            r == self.axis@[1],
    {
        self.axis[1]
    }

    pub fn w(&self) -> (r: Vec3)
        ensures
            r == self.axis@[2],
    {
        self.axis[2]
    }
}

} // verus!
