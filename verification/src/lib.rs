//! Geometric core of a ray tracer over exact fixed-point arithmetic.
//!
//! Scalars are signed 64-bit integers counting units of `1 / SCALE` of a
//! world unit, so every operation here has an exact, machine-checked
//! meaning: which intersection is the visible hit, how the shading inputs
//! for a hit are derived, what color the Phong model produces, and which
//! ray a camera casts through each pixel.

pub mod fixed;
pub mod tuple;
pub mod color;
pub mod light;
pub mod ray;
pub mod shape;
pub mod material;
pub mod intersection;
pub mod transform;
pub mod canvas;
pub mod world;
pub mod camera;
