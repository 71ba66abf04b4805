//! A checkerboard of two textures.

use vstd::prelude::*;
use crate::scalar::Scalar;
use crate::texture::solid_color::SolidColor;
use crate::texture::Texture;
use crate::vec::Vec3;

verus! {

pub struct CheckerTexture<Odd: Texture, Even: Texture> {
    pub odd: Odd,
    pub even: Even,
}

impl<Odd: Texture, Even: Texture> CheckerTexture<Odd, Even> {
    pub fn new(odd: Odd, even: Even) -> (r: CheckerTexture<Odd, Even>)
        ensures
            r.odd == odd,
            r.even == even,
    {
        CheckerTexture { odd, even }
    }
}

/// The checkerboard of two colours, the odd one first.
impl From<(Vec3, Vec3)> for CheckerTexture<SolidColor, SolidColor> {
    fn from(colors: (Vec3, Vec3)) -> (r: Self) {
        CheckerTexture { odd: SolidColor::new(colors.0), even: SolidColor::new(colors.1) }
    }
}

impl vstd::std_specs::convert::FromSpecImpl<(Vec3, Vec3)> for CheckerTexture<SolidColor, SolidColor> {
    open spec fn obeys_from_spec() -> bool {
        true
    }

    open spec fn from_spec(colors: (Vec3, Vec3)) -> Self {
        CheckerTexture { odd: SolidColor { color: colors.0 }, even: SolidColor { color: colors.1 } }
    }
}

impl<Odd: Texture, Even: Texture> Texture for CheckerTexture<Odd, Even> {
    /// The odd texture where `sines` is below zero, the even one elsewhere.
    open spec fn value_spec(&self, u: Scalar, v: Scalar, p: Vec3, sines: Scalar) -> Vec3 {
        if sines.lt_spec(Scalar { bits: 0 }) {
            self.odd.value_spec(u, v, p, sines)
        } else {
            self.even.value_spec(u, v, p, sines)
        }
    }

    fn value(&self, u: Scalar, v: Scalar, p: &Vec3, sines: Scalar) -> (r: Vec3) {
        if sines.lt(Scalar::zero()) {
            self.odd.value(u, v, p, sines)
        } else {
            self.even.value(u, v, p, sines)
        }
    }
}

} // verus!
