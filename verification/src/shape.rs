//! The shapes a ray can strike: spheres and planes, picked by enum match.

use vstd::prelude::*;
use crate::fixed::{SCALE, fx_div};
use crate::tuple::{Tuple, V4, v4_sub, v4_norm, v4_dot, within_units};
use crate::material::{Material, material_ok};

verus! {

/// A scene object: its geometry together with its surface material.
#[derive(Clone, Copy, PartialEq, Debug)]
pub enum Shape {
    /// A sphere given by center and radius.
    Sphere { center: Tuple, radius: i64, material: Material },
    /// The plane `y == 0`.
    Plane { material: Material },
}

/// Geometry within the scene scale the fixed-point machine admits:
/// centers within 500 world units, radii from half a unit to 1000.
pub open spec fn shape_ok(s: Shape) -> bool {
    match s {
        Shape::Sphere { center, radius, material } => within_units(center@, 500_000_000int)
            && SCALE as int / 2 <= radius as int <= 1_000_000_000int && material_ok(material),
        Shape::Plane { material } => material_ok(material),
    }
}

/// The material on the shape's surface.
pub open spec fn spec_material_of(s: Shape) -> Material {
    match s {
        Shape::Sphere { material, .. } => material,
        Shape::Plane { material } => material,
    }
}

/// A world point carried into the shape's own space: translated by the
/// center and scaled by the radius for a sphere, unchanged for a plane.
pub open spec fn spec_to_local(s: Shape, p: V4) -> V4 {
    match s {
        Shape::Sphere { center, radius, .. } => V4 {
            x: fx_div(p.x - center@.x, radius as int),
            y: fx_div(p.y - center@.y, radius as int),
            z: fx_div(p.z - center@.z, radius as int),
            w: p.w,
        },
        Shape::Plane { .. } => p,
    }
}

/// The unit surface normal at `p`: radial for a sphere, upward for a plane.
pub open spec fn spec_normal_at(s: Shape, p: V4) -> V4 {
    match s {
        Shape::Sphere { center, .. } => v4_norm(v4_sub(p, center@)),
        Shape::Plane { .. } => V4 { x: 0int, y: SCALE as int, z: 0int, w: 0int },
    }
}

/// The normal at `p` is representable: for a sphere, `p` keeps at least
/// half a unit of distance from the center and stays within scene scale.
pub open spec fn normal_wf(s: Shape, p: V4) -> bool {
    match s {
        Shape::Sphere { center, .. } => within_units(p, 500_000_000int) && v4_dot(
            v4_sub(p, center@),
            v4_sub(p, center@),
        ) >= SCALE as int / 4,
        Shape::Plane { .. } => true,
    }
}

impl Shape {
    /// A unit sphere at the origin with the default material.
    pub fn unit_sphere() -> (s: Shape)
        ensures
            s == (Shape::Sphere {
                center: Tuple { x: 0i64, y: 0i64, z: 0i64, w: SCALE },
                radius: SCALE,
                material: crate::material::spec_default_material(),
            }),
            shape_ok(s),
    {
        Shape::Sphere {
            center: Tuple::point(0, 0, 0),
            radius: SCALE,
            material: Material::default(),
        }
    }

    /// A sphere with the given center, radius and material.
    pub fn sphere(center: Tuple, radius: i64, material: Material) -> (s: Shape)
        ensures
            s == (Shape::Sphere { center, radius, material }),
    {
        Shape::Sphere { center, radius, material }
    }

    pub fn material(&self) -> (m: Material)
        ensures
            m == spec_material_of(*self),
    {
        match self {
            Shape::Sphere { material, .. } => *material,
            Shape::Plane { material } => *material,
        }
    }

    /// Carries a world point into this shape's own space.
    pub fn to_local(&self, p: &Tuple) -> (r: Tuple)
        requires
            shape_ok(*self),
            within_units(p@, 1_000_000_000int),
        ensures
            r@ == spec_to_local(*self, p@),
    {
        match self {
            Shape::Sphere { center, radius, .. } => Tuple {
                x: crate::fixed::div_fx(p.x - center.x, *radius),
                y: crate::fixed::div_fx(p.y - center.y, *radius),
                z: crate::fixed::div_fx(p.z - center.z, *radius),
                w: p.w,
            },
            Shape::Plane { .. } => *p,
        }
    }

    /// Whether the normal at `p` is representable: for a sphere, `p`
    /// keeps at least half a unit of squared distance from the center.
    pub fn normal_defined(&self, p: &Tuple) -> (b: bool)
        requires
            shape_ok(*self),
            within_units(p@, 500_000_000int),
        ensures
            b == normal_wf(*self, p@),
    {
        match self {
            Shape::Sphere { center, .. } => {
                let d = p.minus(center);
                d.dot(&d) >= SCALE / 4
            },
            Shape::Plane { .. } => true,
        }
    }

    /// The unit surface normal at the point `p`; near unit in fixed
    /// point: its squared magnitude lies between three quarters and two.
    pub fn normal_at(&self, p: &Tuple) -> (n: Tuple)
        requires
            shape_ok(*self),
            normal_wf(*self, p@),
        ensures
            n@ == spec_normal_at(*self, p@),
            within_units(n@, 3 * SCALE as int),
            3 * (SCALE as int) / 4 <= v4_dot(n@, n@) <= 2 * SCALE as int,
    {
        match self {
            Shape::Sphere { center, .. } => {
                let d = p.minus(center);
                d.normalize()
            },
            Shape::Plane { .. } => {
                let n = Tuple::vector(0, SCALE, 0);
                proof {
                    assert(v4_dot(n@, n@) == SCALE as int);
                }
                n
            },
        }
    }
}

} // verus!
