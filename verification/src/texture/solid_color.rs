//! One colour everywhere.

use vstd::prelude::*;
use crate::scalar::Scalar;
use crate::texture::Texture;
use crate::vec::Vec3;

verus! {

#[derive(Clone, Copy, Debug, PartialEq, Eq, Structural)]
pub struct SolidColor {
    pub color: Vec3,
}

impl SolidColor {
    pub fn new(color: Vec3) -> (r: SolidColor)
        ensures
            r.color == color,
    {
        SolidColor { color }
    }
}

impl Texture for SolidColor {
    open spec fn value_spec(&self, u: Scalar, v: Scalar, p: Vec3, sines: Scalar) -> Vec3 {
        self.color
    }

    fn value(&self, u: Scalar, v: Scalar, p: &Vec3, sines: Scalar) -> (r: Vec3) {
        self.color
    }
}

} // verus!
