//! Points and vectors in homogeneous coordinates over fixed-point scalars.

use vstd::prelude::*;
use vstd::arithmetic::div_mod::{
    lemma_div_pos_is_pos, lemma_div_is_ordered, lemma_fundamental_div_mod, lemma_div_by_multiple,
};
use crate::fixed::{
    SCALE, FX_MAX, fx_ok, sdiv, fx_mul, fx_div, fx_sqrt, sqrt_floor, is_isqrt, lemma_sqrt_floor,
    lemma_isqrt_unique, mul_fx, div_fx, sqrt_fx, lemma_sdiv_mag,
};

verus! {

/// Mathematical model of a tuple: unbounded unit counts per component.
pub ghost struct V4 {
    pub x: int,
    pub y: int,
    pub z: int,
    pub w: int,
}

/// A point (`w == SCALE`) or vector (`w == 0`) in world space.
#[derive(Clone, Copy, PartialEq, Eq, Structural, Debug)]
pub struct Tuple {
    pub x: i64,
    pub y: i64,
    pub z: i64,
    pub w: i64,
}

impl View for Tuple {
    type V = V4;

    open spec fn view(&self) -> V4 {
        V4 { x: self.x as int, y: self.y as int, z: self.z as int, w: self.w as int }
    }
}

/// All components admissible as operands of products.
pub open spec fn tuple_ok(t: V4) -> bool {
    fx_ok(t.x) && fx_ok(t.y) && fx_ok(t.z) && fx_ok(t.w)
}

/// All components within `m` units of zero.
pub open spec fn within_units(t: V4, m: int) -> bool {
    -m <= t.x <= m && -m <= t.y <= m && -m <= t.z <= m && -m <= t.w <= m
}

pub open spec fn v4_add(a: V4, b: V4) -> V4 {
    V4 { x: a.x + b.x, y: a.y + b.y, z: a.z + b.z, w: a.w + b.w }
}

pub open spec fn v4_sub(a: V4, b: V4) -> V4 {
    V4 { x: a.x - b.x, y: a.y - b.y, z: a.z - b.z, w: a.w - b.w }
}

pub open spec fn v4_neg(a: V4) -> V4 {
    V4 { x: -a.x, y: -a.y, z: -a.z, w: -a.w }
}

/// Component-wise product with the scalar `s`.
pub open spec fn v4_scale(a: V4, s: int) -> V4 {
    V4 { x: fx_mul(a.x, s), y: fx_mul(a.y, s), z: fx_mul(a.z, s), w: fx_mul(a.w, s) }
}

/// The fixed-point dot product: one truncating division of the exact sum.
pub open spec fn v4_dot(a: V4, b: V4) -> int {
    sdiv(a.x * b.x + a.y * b.y + a.z * b.z + a.w * b.w, SCALE as int)
}

/// The reflection of `v` about the normal `n`.
pub open spec fn v4_reflect(v: V4, n: V4) -> V4 {
    v4_sub(v, v4_scale(n, 2 * v4_dot(v, n)))
}

/// The unit count of the magnitude of `v`.
pub open spec fn v4_mag(v: V4) -> int {
    fx_sqrt(v4_dot(v, v))
}

/// `v` scaled to unit length, component by component.
pub open spec fn v4_norm(v: V4) -> V4 {
    let m = v4_mag(v);
    V4 { x: fx_div(v.x, m), y: fx_div(v.y, m), z: fx_div(v.z, m), w: fx_div(v.w, m) }
}

/// Sums of the components of `a` and `b` stay within the machine.
pub open spec fn sum_ok(a: V4, b: V4) -> bool {
    (i64::MIN as int) < a.x + b.x < (i64::MAX as int) && (i64::MIN as int) < a.y + b.y
        < (i64::MAX as int) && (i64::MIN as int) < a.z + b.z < (i64::MAX as int) && (
    i64::MIN as int) < a.w + b.w < (i64::MAX as int)
}

impl Tuple {
    /// A location in space: `w` is one.
    pub fn point(x: i64, y: i64, z: i64) -> (r: Tuple)
        ensures
            r@ == (V4 { x: x as int, y: y as int, z: z as int, w: SCALE as int }),
    {
        Tuple { x, y, z, w: SCALE }
    }

    /// A direction in space: `w` is zero.
    pub fn vector(x: i64, y: i64, z: i64) -> (r: Tuple)
        ensures
            r@ == (V4 { x: x as int, y: y as int, z: z as int, w: 0int }),
    {
        Tuple { x, y, z, w: 0 }
    }

    pub fn plus(&self, o: &Tuple) -> (r: Tuple)
        requires
            sum_ok(self@, o@),
        ensures
            r@ == v4_add(self@, o@),
    {
        Tuple { x: self.x + o.x, y: self.y + o.y, z: self.z + o.z, w: self.w + o.w }
    }

    pub fn minus(&self, o: &Tuple) -> (r: Tuple)
        requires
            sum_ok(self@, v4_neg(o@)),
            o@.x > i64::MIN as int && o@.y > i64::MIN as int && o@.z > i64::MIN as int && o@.w
                > i64::MIN as int,
        ensures
            r@ == v4_sub(self@, o@),
    {
        Tuple { x: self.x - o.x, y: self.y - o.y, z: self.z - o.z, w: self.w - o.w }
    }

    pub fn negate(&self) -> (r: Tuple)
        requires
            self@.x > i64::MIN as int && self@.y > i64::MIN as int && self@.z > i64::MIN as int
                && self@.w > i64::MIN as int,
        ensures
            r@ == v4_neg(self@),
    {
        Tuple { x: -self.x, y: -self.y, z: -self.z, w: -self.w }
    }

    /// Multiplies every component by the scalar `s`.
    pub fn scale(&self, s: i64) -> (r: Tuple)
        requires
            tuple_ok(self@),
            fx_ok(s as int),
        ensures
            r@ == v4_scale(self@, s as int),
    {
        Tuple {
            x: mul_fx(self.x, s),
            y: mul_fx(self.y, s),
            z: mul_fx(self.z, s),
            w: mul_fx(self.w, s),
        }
    }

    /// The dot product of two tuples.
    pub fn dot(&self, o: &Tuple) -> (r: i64)
        requires
            tuple_ok(self@),
            tuple_ok(o@),
        ensures
            r as int == v4_dot(self@, o@),
    {
        proof {
            lemma_prod_bound(self@.x, o@.x);
            lemma_prod_bound(self@.y, o@.y);
            lemma_prod_bound(self@.z, o@.z);
            lemma_prod_bound(self@.w, o@.w);
        }
        let s: i128 = (self.x as i128) * (o.x as i128) + (self.y as i128) * (o.y as i128) + (
        self.z as i128) * (o.z as i128) + (self.w as i128) * (o.w as i128);
        let q: i128 = if s >= 0 {
            proof {
                lemma_div_pos_is_pos(s as int, SCALE as int);
                lemma_div_is_ordered(s as int, 9000000000000000000000000int, SCALE as int);
            }
            s / (SCALE as i128)
        } else {
            proof {
                lemma_div_pos_is_pos(-(s as int), SCALE as int);
                lemma_div_is_ordered(-(s as int), 9000000000000000000000000int, SCALE as int);
            }
            -((-s) / (SCALE as i128))
        };
        q as i64
    }

    /// The reflection of this vector about the normal `n`.
    pub fn reflect(&self, n: &Tuple) -> (r: Tuple)
        requires
            within_units(self@, 10_000_000int),
            within_units(n@, 10_000_000int),
        ensures
            r@ == v4_reflect(self@, n@),
    {
        let d = self.dot(n);
        proof {
            lemma_dot_bound(self@, n@, 10_000_000int);
        }
        let shift = n.scale(2 * d);
        proof {
            crate::fixed::lemma_fx_mul_bound(n@.x, 2 * d as int, 10_000_000int,
                800_000_000int);
            crate::fixed::lemma_fx_mul_bound(n@.y, 2 * d as int, 10_000_000int,
                800_000_000int);
            crate::fixed::lemma_fx_mul_bound(n@.z, 2 * d as int, 10_000_000int,
                800_000_000int);
            crate::fixed::lemma_fx_mul_bound(n@.w, 2 * d as int, 10_000_000int,
                800_000_000int);
        }
        self.minus(&shift)
    }

    /// The magnitude of this tuple, rounded down.
    pub fn magnitude(&self) -> (r: i64)
        requires
            within_units(self@, 1_000_000_000int),
        ensures
            r as int == v4_mag(self@),
            r >= 0,
    {
        let d = self.dot(self);
        proof {
            lemma_self_dot_nonneg(self@);
            lemma_dot_bound(self@, self@, 1_000_000_000int);
        }
        sqrt_fx(d)
    }

    /// The cross product of this vector with `o`.
    pub fn cross(&self, o: &Tuple) -> (r: Tuple)
        requires
            within_units(self@, 1_000_000_000int),
            within_units(o@, 1_000_000_000int),
        ensures
            r@ == v4_cross(self@, o@),
    {
        proof {
            lemma_cross_bound(self@, o@, 1_000_000_000int, 1_000_000_000int);
        }
        Tuple {
            x: mul_fx(self.y, o.z) - mul_fx(self.z, o.y),
            y: mul_fx(self.z, o.x) - mul_fx(self.x, o.z),
            z: mul_fx(self.x, o.y) - mul_fx(self.y, o.x),
            w: 0,
        }
    }

    /// This tuple scaled to unit length. The squared magnitude must reach
    /// a quarter, the floor below which fixed-point normalizing degrades;
    /// the result is near unit: its squared magnitude lies between three
    /// quarters and two.
    pub fn normalize(&self) -> (r: Tuple)
        requires
            within_units(self@, 1_000_000_000int),
            v4_dot(self@, self@) >= SCALE as int / 4,
        ensures
            r@ == v4_norm(self@),
            within_units(r@, 3 * SCALE as int),
            3 * (SCALE as int) / 4 <= v4_dot(r@, r@) <= 2 * SCALE as int,
    {
        let d = self.dot(self);
        proof {
            lemma_self_dot_nonneg(self@);
            lemma_dot_bound(self@, self@, 1_000_000_000int);
        }
        let m = sqrt_fx(d);
        proof {
            lemma_norm_bounds(self@, d as int, m as int);
            lemma_norm_unit(self@);
        }
        Tuple {
            x: div_fx(self.x, m),
            y: div_fx(self.y, m),
            z: div_fx(self.z, m),
            w: div_fx(self.w, m),
        }
    }
}

/// The cross product of two vectors, each product rounded once.
pub open spec fn v4_cross(a: V4, b: V4) -> V4 {
    V4 {
        x: fx_mul(a.y, b.z) - fx_mul(a.z, b.y),
        y: fx_mul(a.z, b.x) - fx_mul(a.x, b.z),
        z: fx_mul(a.x, b.y) - fx_mul(a.y, b.x),
        w: 0int,
    }
}

/// Components of a cross product are within twice the operand bounds.
pub proof fn lemma_cross_bound(a: V4, b: V4, ma: int, mb: int)
    requires
        within_units(a, ma),
        within_units(b, mb),
        0 <= ma,
        0 <= mb,
    ensures
        within_units(v4_cross(a, b), 2 * ((ma * mb) / (SCALE as int))),
{
    crate::fixed::lemma_fx_mul_bound(a.y, b.z, ma, mb);
    crate::fixed::lemma_fx_mul_bound(a.z, b.y, ma, mb);
    crate::fixed::lemma_fx_mul_bound(a.z, b.x, ma, mb);
    crate::fixed::lemma_fx_mul_bound(a.x, b.z, ma, mb);
    crate::fixed::lemma_fx_mul_bound(a.x, b.y, ma, mb);
    crate::fixed::lemma_fx_mul_bound(a.y, b.x, ma, mb);
    vstd::arithmetic::div_mod::lemma_div_pos_is_pos(ma * mb, SCALE as int);
}

/// One normalized component: `m q` keeps within `a SCALE` and loses at
/// most one divisor step, where `q = sdiv(a SCALE, m)`.
proof fn lemma_unit_comp(a: int, m: int)
    requires
        m >= 1,
    ensures
        (m * m) * (sdiv(a * (SCALE as int), m) * sdiv(a * (SCALE as int), m)) <= (a * (
        SCALE as int)) * (a * (SCALE as int)),
        (m * m) * (sdiv(a * (SCALE as int), m) * sdiv(a * (SCALE as int), m)) >= (a * (
        SCALE as int)) * (a * (SCALE as int)) - 2 * (m * ((SCALE as int) * (if a < 0 {
            -a
        } else {
            a
        }))),
{
    let sc = SCALE as int;
    let x = a * sc;
    let q = sdiv(x, m);
    if a >= 0 {
        assert(x >= 0) by (nonlinear_arith)
            requires
                a >= 0,
                x == a * sc,
                sc == 1000000int,
        ;
        lemma_fundamental_div_mod(x, m);
        vstd::arithmetic::div_mod::lemma_mod_bound(x, m);
        let rho = x % m;
        assert((m * m) * (q * q) <= x * x && (m * m) * (q * q) >= x * x - 2 * (m * x))
            by (nonlinear_arith)
            requires
                x == m * q + rho,
                0 <= rho < m,
                x >= 0,
                m >= 1,
        ;
        assert(2 * (m * x) == 2 * (m * (sc * a))) by (nonlinear_arith)
            requires
                x == a * sc,
        ;
    } else {
        assert(x < 0) by (nonlinear_arith)
            requires
                a < 0,
                x == a * sc,
                sc == 1000000int,
        ;
        let u = -x;
        lemma_fundamental_div_mod(u, m);
        vstd::arithmetic::div_mod::lemma_mod_bound(u, m);
        let p = u / m;
        let rho = u % m;
        assert(q == -p);
        assert((m * m) * (q * q) <= x * x && (m * m) * (q * q) >= x * x - 2 * (m * u))
            by (nonlinear_arith)
            requires
                u == m * p + rho,
                0 <= rho < m,
                u >= 0,
                m >= 1,
                q == -p,
                x == -u,
        ;
        assert(2 * (m * u) == 2 * (m * (sc * (-a)))) by (nonlinear_arith)
            requires
                u == -(a * sc),
        ;
    }
}

/// A normalized in-range vector is near unit: its fixed-point squared
/// magnitude lies between three quarters and two.
pub proof fn lemma_norm_unit(v: V4)
    requires
        within_units(v, 1_000_000_000int),
        v4_dot(v, v) >= SCALE as int / 4,
    ensures
        3 * (SCALE as int) / 4 <= v4_dot(v4_norm(v), v4_norm(v)),
        v4_dot(v4_norm(v), v4_norm(v)) <= 2 * SCALE as int,
{
    let sc = SCALE as int;
    let d = v4_dot(v, v);
    let m = fx_sqrt(d);
    let s = v.x * v.x + v.y * v.y + v.z * v.z + v.w * v.w;
    lemma_self_dot_nonneg(v);
    lemma_sqrt_floor(d * sc);
    assert(is_isqrt(d * sc, m));
    lemma_fundamental_div_mod(s, sc);
    vstd::arithmetic::div_mod::lemma_mod_bound(s, sc);
    // The exact square sum brackets d * sc.
    assert(d * sc <= s && s <= d * sc + sc - 1);
    assert(m >= sc / 2) by (nonlinear_arith)
        requires
            d >= sc / 4,
            sc == 1000000int,
            m >= 0,
            d * sc < (m + 1) * (m + 1),
    ;
    // Components are within m + sc.
    assert(v.x * v.x >= 0 && v.y * v.y >= 0 && v.z * v.z >= 0 && v.w * v.w >= 0)
        by (nonlinear_arith);
    assert(-(m + sc) <= v.x <= m + sc && -(m + sc) <= v.y <= m + sc && -(m + sc) <= v.z <= m
        + sc && -(m + sc) <= v.w <= m + sc) by (nonlinear_arith)
        requires
            v.x * v.x <= s && v.y * v.y <= s && v.z * v.z <= s && v.w * v.w <= s,
            s <= d * sc + sc - 1,
            d * sc < (m + 1) * (m + 1),
            m >= sc / 2,
            sc == 1000000int,
    ;
    lemma_unit_comp(v.x, m);
    lemma_unit_comp(v.y, m);
    lemma_unit_comp(v.z, m);
    lemma_unit_comp(v.w, m);
    let qx = sdiv(v.x * sc, m);
    let qy = sdiv(v.y * sc, m);
    let qz = sdiv(v.z * sc, m);
    let qw = sdiv(v.w * sc, m);
    let t = qx * qx + qy * qy + qz * qz + qw * qw;
    let ax = if v.x < 0 { -v.x } else { v.x };
    let ay = if v.y < 0 { -v.y } else { v.y };
    let az = if v.z < 0 { -v.z } else { v.z };
    let aw = if v.w < 0 { -v.w } else { v.w };
    // Rewrite each squared product, distribute the sums, then add the
    // four component inequalities linearly.
    assert((v.x * sc) * (v.x * sc) == (sc * sc) * (v.x * v.x) && (v.y * sc) * (v.y * sc) == (sc
        * sc) * (v.y * v.y) && (v.z * sc) * (v.z * sc) == (sc * sc) * (v.z * v.z) && (v.w * sc) * (
    v.w * sc) == (sc * sc) * (v.w * v.w)) by (nonlinear_arith);
    assert((m * m) * t == (m * m) * (qx * qx) + (m * m) * (qy * qy) + (m * m) * (qz * qz) + (m
        * m) * (qw * qw)) by (nonlinear_arith)
        requires
            t == qx * qx + qy * qy + qz * qz + qw * qw,
    ;
    assert((sc * sc) * s == (sc * sc) * (v.x * v.x) + (sc * sc) * (v.y * v.y) + (sc * sc) * (v.z
        * v.z) + (sc * sc) * (v.w * v.w)) by (nonlinear_arith)
        requires
            s == v.x * v.x + v.y * v.y + v.z * v.z + v.w * v.w,
    ;
    assert(2 * (m * (sc * (ax + ay + az + aw))) == 2 * (m * (sc * ax)) + 2 * (m * (sc * ay)) + 2
        * (m * (sc * az)) + 2 * (m * (sc * aw))) by (nonlinear_arith);
    assert((m * m) * t <= (sc * sc) * s);
    assert((m * m) * t >= (sc * sc) * s - 2 * (m * (sc * (ax + ay + az + aw))));
    // Squeeze t between sc^2 - 24 sc and 2 sc^2.
    assert(t <= 2 * (sc * sc)) by (nonlinear_arith)
        requires
            (m * m) * t <= (sc * sc) * s,
            s <= d * sc + sc - 1,
            d * sc < (m + 1) * (m + 1),
            m >= sc / 2,
            sc == 1000000int,
    ;
    assert(t >= (sc * sc) - 24 * sc) by (nonlinear_arith)
        requires
            (m * m) * t >= (sc * sc) * s - 2 * (m * (sc * (ax + ay + az + aw))),
            ax + ay + az + aw <= 4 * (m + sc),
            s >= d * sc,
            d * sc >= m * m,
            m >= sc / 2,
            sc == 1000000int,
    ;
    // Pass to the truncating fixed-point dot of the normalized vector.
    assert(t >= 0) by (nonlinear_arith)
        requires
            t == qx * qx + qy * qy + qz * qz + qw * qw,
    ;
    assert(v4_dot(v4_norm(v), v4_norm(v)) == t / sc);
    lemma_div_is_ordered((sc * sc) - 24 * sc, t, sc);
    lemma_div_is_ordered(t, 2 * (sc * sc), sc);
    assert((sc * sc) - 24 * sc == 999976000000int && 2 * (sc * sc) == 2000000000000int);
    assert(999976000000int / 1000000int == 999976int);
    assert(2000000000000int / 1000000int == 2000000int);
}

/// A normalized in-range vector stays within three units per component.
pub proof fn lemma_norm_within(v: V4)
    requires
        within_units(v, 1_000_000_000int),
        v4_dot(v, v) >= SCALE as int / 4,
    ensures
        within_units(v4_norm(v), 3 * SCALE as int),
{
    lemma_norm_bounds(v, v4_dot(v, v), fx_sqrt(v4_dot(v, v)));
}

/// Negating a vector keeps its dot product with itself.
pub proof fn lemma_dot_neg_self(a: V4)
    ensures
        v4_dot(v4_neg(a), v4_neg(a)) == v4_dot(a, a),
{
    assert((-a.x) * (-a.x) == a.x * a.x && (-a.y) * (-a.y) == a.y * a.y && (-a.z) * (-a.z) == a.z
        * a.z && (-a.w) * (-a.w) == a.w * a.w) by (nonlinear_arith);
}

/// Negating one side of a dot product negates its value.
pub proof fn lemma_dot_neg(a: V4, b: V4)
    ensures
        v4_dot(v4_neg(a), b) == -v4_dot(a, b),
{
    assert((-a.x) * b.x == -(a.x * b.x) && (-a.y) * b.y == -(a.y * b.y) && (-a.z) * b.z == -(a.z
        * b.z) && (-a.w) * b.w == -(a.w * b.w)) by (nonlinear_arith);
    crate::fixed::lemma_sdiv_neg(a.x * b.x + a.y * b.y + a.z * b.z + a.w * b.w, SCALE as int);
}

/// A product of two admissible scalars stays within fixed bounds.
proof fn lemma_prod_bound(a: int, b: int)
    requires
        fx_ok(a),
        fx_ok(b),
    ensures
        -2250000000000000000000000int <= a * b <= 2250000000000000000000000int,
{
    assert(-2250000000000000000000000int <= a * b <= 2250000000000000000000000int)
        by (nonlinear_arith)
        requires
            fx_ok(a),
            fx_ok(b),
    ;
}

/// The dot product of tuples within `m` units is within `4 m^2 / SCALE`.
pub proof fn lemma_dot_bound(a: V4, b: V4, m: int)
    requires
        within_units(a, m),
        within_units(b, m),
        0 <= m,
    ensures
        -(4 * (m * m) / (SCALE as int)) <= v4_dot(a, b) <= 4 * (m * m) / (SCALE as int),
{
    let s = a.x * b.x + a.y * b.y + a.z * b.z + a.w * b.w;
    assert(-(m * m) <= a.x * b.x <= m * m && -(m * m) <= a.y * b.y <= m * m && -(m * m) <= a.z
        * b.z <= m * m && -(m * m) <= a.w * b.w <= m * m) by (nonlinear_arith)
        requires
            within_units(a, m),
            within_units(b, m),
            0 <= m,
    ;
    assert(-(4 * (m * m)) <= s <= 4 * (m * m));
    lemma_div_pos_is_pos(4 * (m * m), SCALE as int);
    if s >= 0 {
        lemma_div_pos_is_pos(s, SCALE as int);
        lemma_div_is_ordered(s, 4 * (m * m), SCALE as int);
    } else {
        lemma_div_pos_is_pos(-s, SCALE as int);
        lemma_div_is_ordered(-s, 4 * (m * m), SCALE as int);
    }
}

/// The dot product of a tuple with itself is nonnegative.
pub proof fn lemma_self_dot_nonneg(a: V4)
    ensures
        v4_dot(a, a) >= 0,
        a.x * a.x + a.y * a.y + a.z * a.z + a.w * a.w >= 0,
{
    assert(a.x * a.x + a.y * a.y + a.z * a.z + a.w * a.w >= 0) by (nonlinear_arith);
    lemma_div_pos_is_pos(a.x * a.x + a.y * a.y + a.z * a.z + a.w * a.w, SCALE as int);
}

/// Bounds used by `normalize`: the magnitude is at least half a unit and
/// each normalized component is within three units.
pub proof fn lemma_norm_bounds(v: V4, d: int, m: int)
    requires
        tuple_ok(v),
        d == v4_dot(v, v),
        d >= SCALE as int / 4,
        m == fx_sqrt(d),
    ensures
        m >= SCALE as int / 2,
        -(3 * SCALE as int) <= fx_div(v.x, m) <= 3 * SCALE as int,
        -(3 * SCALE as int) <= fx_div(v.y, m) <= 3 * SCALE as int,
        -(3 * SCALE as int) <= fx_div(v.z, m) <= 3 * SCALE as int,
        -(3 * SCALE as int) <= fx_div(v.w, m) <= 3 * SCALE as int,
{
    let sc = SCALE as int;
    let s = v.x * v.x + v.y * v.y + v.z * v.z + v.w * v.w;
    lemma_self_dot_nonneg(v);
    assert(v.x * v.x >= 0 && v.y * v.y >= 0 && v.z * v.z >= 0 && v.w * v.w >= 0)
        by (nonlinear_arith);
    assert(v.x * v.x <= s && v.y * v.y <= s && v.z * v.z <= s && v.w * v.w <= s);
    lemma_sqrt_floor(d * sc);
    assert(is_isqrt(d * sc, m));
    // m is at least half a unit.
    assert(m >= sc / 2) by (nonlinear_arith)
        requires
            d >= sc / 4,
            sc == 1000000int,
            m >= 0,
            d * sc < (m + 1) * (m + 1),
    ;
    // The exact squared magnitude exceeds d * SCALE by less than SCALE.
    lemma_fundamental_div_mod(s, sc);
    assert(s <= d * sc + sc - 1);
    lemma_norm_comp(v.x, s, d, m);
    lemma_norm_comp(v.y, s, d, m);
    lemma_norm_comp(v.z, s, d, m);
    lemma_norm_comp(v.w, s, d, m);
}

/// One component of a normalized tuple is within three units.
proof fn lemma_norm_comp(a: int, s: int, d: int, m: int)
    requires
        s >= a * a,
        s <= d * (SCALE as int) + SCALE as int - 1,
        m >= SCALE as int / 2,
        is_isqrt(d * (SCALE as int), m),
    ensures
        -(3 * SCALE as int) <= fx_div(a, m) <= 3 * SCALE as int,
{
    let sc = SCALE as int;
    // a * a < (m + sc)^2, so |a| < m + sc, so |a * sc| <= 3 * m * sc.
    assert(-(3 * m) <= a <= 3 * m) by (nonlinear_arith)
        requires
            a * a <= s,
            s <= d * sc + sc - 1,
            d * sc < (m + 1) * (m + 1),
            m >= sc / 2,
            sc == 1000000int,
    ;
    assert(-(3 * m * sc) <= a * sc <= 3 * m * sc) by (nonlinear_arith)
        requires
            -(3 * m) <= a <= 3 * m,
            sc == 1000000int,
    ;
    lemma_div_by_multiple(3 * sc, m);
    assert((3 * sc * m) / m == 3 * sc);
    if a >= 0 {
        lemma_div_pos_is_pos(a * sc, m);
        lemma_div_is_ordered(a * sc, 3 * sc * m, m);
        assert(fx_div(a, m) == (a * sc) / m);
    } else {
        lemma_div_pos_is_pos(-(a * sc), m);
        lemma_div_is_ordered(-(a * sc), 3 * sc * m, m);
        assert(fx_div(a, m) == -((-(a * sc)) / m));
    }
}

} // verus!
