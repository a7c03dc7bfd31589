//! Rays: an origin point and a direction vector.

use vstd::prelude::*;
use crate::fixed::{fx_ok, lemma_fx_mul_bound};
use crate::tuple::{Tuple, V4, v4_add, v4_scale, within_units};

verus! {

/// Model of a ray: origin and direction as unbounded tuples.
pub ghost struct RayV {
    pub origin: V4,
    pub direction: V4,
}

/// A ray cast into the scene. Immutable once constructed.
#[derive(Clone, Copy, PartialEq, Eq, Structural, Debug)]
pub struct Ray {
    pub origin: Tuple,
    pub direction: Tuple,
}

impl View for Ray {
    type V = RayV;

    open spec fn view(&self) -> RayV {
        RayV { origin: self.origin@, direction: self.direction@ }
    }
}

/// The point `t` units along the ray.
pub open spec fn spec_position(r: RayV, t: int) -> V4 {
    v4_add(r.origin, v4_scale(r.direction, t))
}

/// Origin within 1000 world units, direction within 10: the scene scale
/// the fixed-point machine admits.
pub open spec fn ray_ok(r: RayV) -> bool {
    within_units(r.origin, 1_000_000_000int) && within_units(r.direction, 10_000_000int)
}

impl Ray {
    pub fn new(origin: Tuple, direction: Tuple) -> (r: Ray)
        ensures
            r.origin == origin,
            r.direction == direction,
    {
        Ray { origin, direction }
    }

    /// The point `t` units along this ray.
    pub fn position(&self, t: i64) -> (p: Tuple)
        requires
            ray_ok(self@),
            -1_000_000_000 <= t <= 1_000_000_000,
        ensures
            p@ == spec_position(self@, t as int),
    {
        proof {
            lemma_fx_mul_bound(self@.direction.x, t as int, 10_000_000int, 1_000_000_000int);
            lemma_fx_mul_bound(self@.direction.y, t as int, 10_000_000int, 1_000_000_000int);
            lemma_fx_mul_bound(self@.direction.z, t as int, 10_000_000int, 1_000_000_000int);
            lemma_fx_mul_bound(self@.direction.w, t as int, 10_000_000int, 1_000_000_000int);
        }
        let shift = self.direction.scale(t);
        self.origin.plus(&shift)
    }
}

} // verus!
