//! Parametric rays.

use vstd::prelude::*;
use crate::scalar::Scalar;
use crate::vec::Vec3;

verus! {

/// A ray `origin + t * direction`, cast at `time` within the shutter interval.
#[derive(Clone, Copy, Debug, PartialEq, Eq, Structural)]
pub struct Ray {
    pub origin: Vec3,
    pub direction: Vec3,
    pub time: Scalar,
}

impl Ray {
    pub fn new(origin: Vec3, direction: Vec3, time: Scalar) -> (r: Ray)
        ensures
            r == (Ray { origin, direction, time }),
    {
        Ray { origin, direction, time }
    }
}

} // verus!
