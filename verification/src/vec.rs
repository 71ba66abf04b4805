//! Triples of numbers: points, directions and colours.

use vstd::prelude::*;
use crate::scalar::Scalar;

verus! {

/// Three numbers, addressed by name or by axis (0, 1, 2).
#[derive(Clone, Copy, Debug, PartialEq, Eq, Structural)]
pub struct Vec3 {
    pub x: Scalar,
    pub y: Scalar,
    pub z: Scalar,
}

impl Vec3 {
    /// The component on `axis`; `z` stands for every axis above 1.
    pub open spec fn at(self, axis: int) -> Scalar {
        if axis == 0 {
            self.x
        } else if axis == 1 {
            self.y
        } else {
            self.z
        }
    }

    /// The triple with the component on `axis` replaced.
    pub open spec fn with_spec(self, axis: int, value: Scalar) -> Vec3 {
        if axis == 0 {
            Vec3 { x: value, ..self }
        } else if axis == 1 {
            Vec3 { y: value, ..self }
        } else {
            Vec3 { z: value, ..self }
        }
    }

    pub open spec fn neg_spec(self) -> Vec3 {
        Vec3 { x: self.x.neg_spec(), y: self.y.neg_spec(), z: self.z.neg_spec() }
    }

    pub open spec fn has_nan(self) -> bool {
        self.x.is_nan() || self.y.is_nan() || self.z.is_nan()
    }

    pub fn new(x: Scalar, y: Scalar, z: Scalar) -> (r: Vec3)
        ensures
            r == (Vec3 { x, y, z }),
    {
        Vec3 { x, y, z }
    }

    pub fn splat(v: Scalar) -> (r: Vec3)
        ensures
            r == (Vec3 { x: v, y: v, z: v }),
    {
        Vec3 { x: v, y: v, z: v }
    }

    /// The triple of zeros: the origin, and black.
    pub fn zero() -> (r: Vec3)
        ensures
            r == (Vec3 { x: Scalar { bits: 0 }, y: Scalar { bits: 0 }, z: Scalar { bits: 0 } }),
    {
        Vec3::splat(Scalar::zero())
    }

    /// The unit vector along `axis`.
    pub fn unit(axis: usize) -> (r: Vec3)
        requires
            axis < 3,
        ensures
            r == Vec3::zero_spec().with_spec(axis as int, Scalar { bits: crate::scalar::ONE_BITS }),
    {
        Vec3::zero().with(axis, Scalar::one())
    }

    pub open spec fn zero_spec() -> Vec3 {
        Vec3 { x: Scalar { bits: 0 }, y: Scalar { bits: 0 }, z: Scalar { bits: 0 } }
    }

    pub fn get(&self, axis: usize) -> (r: Scalar)
        requires
            axis < 3,
        ensures
            r == self.at(axis as int),
    {
        if axis == 0 {
            self.x
        } else if axis == 1 {
            self.y
        } else {
            self.z
        }
    }

    pub fn with(self, axis: usize, value: Scalar) -> (r: Vec3)
        requires
            axis < 3,
        ensures
            r == self.with_spec(axis as int, value),
            r.at(axis as int) == value,
            forall|other: int| 0 <= other < 3 && other != axis ==> r.at(other) == self.at(other),
    {
        if axis == 0 {
            Vec3 { x: value, y: self.y, z: self.z }
        } else if axis == 1 {
            Vec3 { x: self.x, y: value, z: self.z }
        } else {
            Vec3 { x: self.x, y: self.y, z: value }
        }
    }

    pub fn neg(self) -> (r: Vec3)
        ensures
            r == self.neg_spec(),
    {
        Vec3 { x: self.x.neg(), y: self.y.neg(), z: self.z.neg() }
    }
}

} // verus!
