//! Surface materials and Phong lighting.

use vstd::prelude::*;
use crate::fixed::{
    SCALE, fx_ok, fx_mul, fx_pow, sdiv, mul_fx, pow_fx, even_floor_scale, lemma_fx_mul_bound,
    lemma_sdiv_mag,
};
use crate::color::{Color, C3, color_within, c3_add, c3_mul, c3_scale};
use crate::tuple::{
    Tuple, V4, v4_sub, v4_neg, v4_norm, v4_dot, v4_reflect, within_units, lemma_dot_bound,
};
use crate::light::PointLight;
use crate::shape::{Shape, shape_ok, spec_to_local};

verus! {

/// A surface pattern: a function from a point in the shape's own space to
/// a color, picked by enum match.
#[derive(Clone, Copy, PartialEq, Debug)]
pub enum PatternKind {
    /// Alternating colors in whole-unit stripes along the x axis.
    Stripe { a: Color, b: Color },
}

/// The pattern's color at a point in the shape's own space.
pub open spec fn spec_pattern_at(p: PatternKind, local: V4) -> C3 {
    match p {
        PatternKind::Stripe { a, b } => if (local.x / (SCALE as int)) % 2int == 0 {
            a@
        } else {
            b@
        },
    }
}

/// Pattern colors within ten units of intensity.
pub open spec fn pattern_ok(p: PatternKind) -> bool {
    match p {
        PatternKind::Stripe { a, b } => color_within(a@, 10_000_000int) && color_within(
            b@,
            10_000_000int,
        ),
    }
}

impl PatternKind {
    /// The pattern's color on `object` at the world point `p`.
    pub fn pattern_at_shape(&self, object: &Shape, p: &Tuple) -> (c: Color)
        requires
            shape_ok(*object),
            within_units(p@, 1_000_000_000int),
        ensures
            c@ == spec_pattern_at(*self, spec_to_local(*object, p@)),
    {
        let local = object.to_local(p);
        match self {
            PatternKind::Stripe { a, b } => if even_floor_scale(local.x) {
                *a
            } else {
                *b
            },
        }
    }
}

/// A Phong material: base color, the four reflection parameters, and an
/// optional pattern standing in for the flat color.
#[derive(Clone, Copy, PartialEq, Debug)]
pub struct Material {
    pub color: Color,
    pub ambient: i64,
    pub diffuse: i64,
    pub specular: i64,
    pub shininess: i64,
    pub pattern: Option<PatternKind>,
}

/// Parameters within the scale the fixed-point machine admits: colors and
/// reflection parameters within ten units, a positive shininess.
pub open spec fn material_ok(m: Material) -> bool {
    color_within(m.color@, 10_000_000int) && 0 <= m.ambient as int <= 10_000_000int && 0
        <= m.diffuse as int <= 10_000_000int && 0 <= m.specular as int <= 10_000_000int && 0
        < m.shininess as int <= crate::fixed::FX_MAX as int && match m.pattern {
        Some(p) => pattern_ok(p),
        None => true,
    }
}

/// The material every shape starts with.
pub open spec fn spec_default_material() -> Material {
    Material {
        color: Color { r: SCALE, g: SCALE, b: SCALE },
        ambient: 100_000i64,
        diffuse: 900_000i64,
        specular: 900_000i64,
        shininess: 200_000_000i64,
        pattern: None,
    }
}

/// The color the lighting model starts from: the pattern evaluated in the
/// object's own space when one is set, the flat color otherwise.
pub open spec fn spec_base_color(m: Material, o: Shape, p: V4) -> C3 {
    match m.pattern {
        Some(pat) => spec_pattern_at(pat, spec_to_local(o, p)),
        None => m.color@,
    }
}

/// The ambient term: base color times light intensity times the ambient
/// parameter. Never suppressed, shadow or not.
pub open spec fn spec_ambient_part(m: Material, o: Shape, l: PointLight, p: V4) -> C3 {
    c3_scale(c3_mul(spec_base_color(m, o, p), l.intensity@), m.ambient as int)
}

/// The full Phong model at the point `p`, seen along `eye`, lit by `l`.
pub open spec fn spec_lighting(
    m: Material,
    o: Shape,
    l: PointLight,
    p: V4,
    eye: V4,
    nrm: V4,
    shadow: bool,
) -> C3 {
    let eff = c3_mul(spec_base_color(m, o, p), l.intensity@);
    let ambient = c3_scale(eff, m.ambient as int);
    let lightv = v4_norm(v4_sub(l.position@, p));
    let ldn = v4_dot(lightv, nrm);
    if shadow || ldn < 0 {
        ambient
    } else {
        let diffuse = c3_scale(c3_scale(eff, m.diffuse as int), ldn);
        let reflectv = v4_reflect(v4_neg(lightv), nrm);
        let rde = v4_dot(reflectv, eye);
        if rde <= 0 {
            c3_add(ambient, diffuse)
        } else {
            let base = if rde > SCALE as int {
                SCALE as int
            } else {
                rde
            };
            let factor = fx_pow(base, ((m.shininess as int) / (SCALE as int)) as nat);
            let specular = c3_scale(c3_scale(l.intensity@, m.specular as int), factor);
            c3_add(ambient, c3_add(diffuse, specular))
        }
    }
}

/// The base color stays within ten units of intensity.
proof fn lemma_base_color_bound(m: Material, o: Shape, p: V4)
    requires
        material_ok(m),
    ensures
        color_within(spec_base_color(m, o, p), 10_000_000int),
{
}

impl Material {
    pub fn new(
        color: Color,
        ambient: i64,
        diffuse: i64,
        specular: i64,
        shininess: i64,
        pattern: Option<PatternKind>,
    ) -> (m: Material)
        ensures
            m == (Material { color, ambient, diffuse, specular, shininess, pattern }),
    {
        Material { color, ambient, diffuse, specular, shininess, pattern }
    }

    /// Phong shading of the point `p` on `object` under the light `light`.
    ///
    /// The caller keeps the scene within 500 world units, hands in the
    /// near-unit eye and normal vectors, and keeps the light at least half
    /// a unit of squared distance from the point, the floor below which
    /// fixed-point normalizing degrades.
    pub fn lighting(
        &self,
        object: &Shape,
        light: &PointLight,
        point: Tuple,
        eyev: Tuple,
        normalv: Tuple,
        in_shadow: bool,
    ) -> (c: Color)
        requires
            material_ok(*self),
            shape_ok(*object),
            within_units(point@, 500_000_000int),
            within_units(light.position@, 500_000_000int),
            color_within(light.intensity@, 10_000_000int),
            within_units(eyev@, 10_000_000int),
            within_units(normalv@, 3 * SCALE as int),
            v4_dot(v4_sub(light.position@, point@), v4_sub(light.position@, point@)) >= SCALE as int
                / 4,
        ensures
            c@ == spec_lighting(*self, *object, *light, point@, eyev@, normalv@, in_shadow),
            in_shadow ==> c@ == spec_ambient_part(*self, *object, *light, point@),
            !in_shadow && v4_dot(v4_norm(v4_sub(light.position@, point@)), normalv@) < 0 ==> c@
                == spec_ambient_part(*self, *object, *light, point@),
    {
        let base = match &self.pattern {
            Some(p) => p.pattern_at_shape(object, &point),
            None => self.color,
        };
        proof {
            lemma_base_color_bound(*self, *object, point@);
            lemma_fx_mul_bound(base@.r, light.intensity@.r, 10_000_000int, 10_000_000int);
            lemma_fx_mul_bound(base@.g, light.intensity@.g, 10_000_000int, 10_000_000int);
            lemma_fx_mul_bound(base@.b, light.intensity@.b, 10_000_000int, 10_000_000int);
        }
        let eff = base.times(&light.intensity);
        proof {
            lemma_fx_mul_bound(eff@.r, self.ambient as int, 100_000_000int, 10_000_000int);
            lemma_fx_mul_bound(eff@.g, self.ambient as int, 100_000_000int, 10_000_000int);
            lemma_fx_mul_bound(eff@.b, self.ambient as int, 100_000_000int, 10_000_000int);
        }
        let ambient = eff.scale(self.ambient);
        let lv = light.position.minus(&point);
        let lightv = lv.normalize();
        let ldn = lightv.dot(&normalv);
        proof {
            lemma_dot_bound(lightv@, normalv@, 3 * SCALE as int);
        }
        if in_shadow {
            return ambient;
        }
        if ldn < 0 {
            return ambient;
        }
        proof {
            lemma_fx_mul_bound(eff@.r, self.diffuse as int, 100_000_000int, 10_000_000int);
            lemma_fx_mul_bound(eff@.g, self.diffuse as int, 100_000_000int, 10_000_000int);
            lemma_fx_mul_bound(eff@.b, self.diffuse as int, 100_000_000int, 10_000_000int);
        }
        let dif0 = eff.scale(self.diffuse);
        proof {
            lemma_fx_mul_bound(dif0@.r, ldn as int, 1_000_000_000int, 36_000_000int);
            lemma_fx_mul_bound(dif0@.g, ldn as int, 1_000_000_000int, 36_000_000int);
            lemma_fx_mul_bound(dif0@.b, ldn as int, 1_000_000_000int, 36_000_000int);
        }
        let diffuse = dif0.scale(ldn);
        let lneg = lightv.negate();
        let reflectv = lneg.reflect(&normalv);
        proof {
            lemma_dot_bound(lneg@, normalv@, 3 * SCALE as int);
            let d2 = 2 * v4_dot(lneg@, normalv@);
            lemma_fx_mul_bound(normalv@.x, d2, 3_000_000int, 72_000_000int);
            lemma_fx_mul_bound(normalv@.y, d2, 3_000_000int, 72_000_000int);
            lemma_fx_mul_bound(normalv@.z, d2, 3_000_000int, 72_000_000int);
            lemma_fx_mul_bound(normalv@.w, d2, 3_000_000int, 72_000_000int);
            assert(within_units(reflectv@, 220_000_000int));
        }
        let rde = reflectv.dot(&eyev);
        proof {
            lemma_dot_bound(reflectv@, eyev@, 220_000_000int);
        }
        let specular = if rde <= 0 {
            Color::black()
        } else {
            let pbase = if rde > SCALE {
                SCALE
            } else {
                rde
            };
            proof {
                lemma_sdiv_mag(self.shininess as int, SCALE as int);
            }
            let n_exp = (self.shininess / SCALE) as u64;
            let factor = pow_fx(pbase, n_exp);
            proof {
                crate::fixed::lemma_fx_pow_unit(pbase as int, n_exp as nat);
                lemma_fx_mul_bound(light.intensity@.r, self.specular as int, 10_000_000int,
                    10_000_000int);
                lemma_fx_mul_bound(light.intensity@.g, self.specular as int, 10_000_000int,
                    10_000_000int);
                lemma_fx_mul_bound(light.intensity@.b, self.specular as int, 10_000_000int,
                    10_000_000int);
            }
            let spc0 = light.intensity.scale(self.specular);
            proof {
                lemma_fx_mul_bound(spc0@.r, factor as int, 100_000_000int, 1_000_000int);
                lemma_fx_mul_bound(spc0@.g, factor as int, 100_000_000int, 1_000_000int);
                lemma_fx_mul_bound(spc0@.b, factor as int, 100_000_000int, 1_000_000int);
            }
            spc0.scale(factor)
        };
        let tail = diffuse.plus(&specular);
        ambient.plus(&tail)
    }
}

impl Default for Material {
    /// White, ambient 0.1, diffuse 0.9, specular 0.9, shininess 200.
    fn default() -> (m: Material)
        ensures
            m == spec_default_material(),
            material_ok(m),
    {
        Material {
            color: Color::white(),
            ambient: 100_000,
            diffuse: 900_000,
            specular: 900_000,
            shininess: 200_000_000,
            pattern: None,
        }
    }
}

} // verus!
