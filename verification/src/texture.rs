//! Textures: the colour of a surface at a point.

use vstd::prelude::*;
use crate::scalar::Scalar;
use crate::vec::Vec3;

pub mod checker_texture;
pub mod solid_color;

verus! {

/// A colour for every point of a surface.
///
/// `u` and `v` are the surface coordinates of the point `p`.  `sines` is the
/// product of the sines of ten times each coordinate of `p`, which changes
/// its sign from one cell of a checkerboard to the next.
pub trait Texture {
    spec fn value_spec(&self, u: Scalar, v: Scalar, p: Vec3, sines: Scalar) -> Vec3;

    fn value(&self, u: Scalar, v: Scalar, p: &Vec3, sines: Scalar) -> (r: Vec3)
        ensures
            r == self.value_spec(u, v, *p, sines),
    ;
}

} // verus!
