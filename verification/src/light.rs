//! Point lights: a position radiating an intensity in every direction.

use vstd::prelude::*;
use crate::tuple::Tuple;
use crate::color::Color;

verus! {

/// A light source at a single point.
#[derive(Clone, Copy, PartialEq, Eq, Structural, Debug)]
pub struct PointLight {
    pub position: Tuple,
    pub intensity: Color,
}

impl PointLight {
    pub fn new(position: Tuple, intensity: Color) -> (l: PointLight)
        ensures
            l.position == position,
            l.intensity == intensity,
    {
        PointLight { position, intensity }
    }
}

} // verus!
