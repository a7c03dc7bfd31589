//! Colors as red, green and blue fixed-point intensities.

use vstd::prelude::*;
use crate::fixed::{SCALE, fx_ok, fx_mul, mul_fx};

verus! {

/// Mathematical model of a color: unbounded unit counts per channel.
pub ghost struct C3 {
    pub r: int,
    pub g: int,
    pub b: int,
}

/// A color; channels count units of `1 / SCALE`, with no clamping.
#[derive(Clone, Copy, PartialEq, Eq, Structural, Debug)]
pub struct Color {
    pub r: i64,
    pub g: i64,
    pub b: i64,
}

impl View for Color {
    type V = C3;

    open spec fn view(&self) -> C3 {
        C3 { r: self.r as int, g: self.g as int, b: self.b as int }
    }
}

/// All channels admissible as operands of products.
pub open spec fn color_ok(c: C3) -> bool {
    fx_ok(c.r) && fx_ok(c.g) && fx_ok(c.b)
}

/// All channels within `m` units of zero.
pub open spec fn color_within(c: C3, m: int) -> bool {
    -m <= c.r <= m && -m <= c.g <= m && -m <= c.b <= m
}

pub open spec fn c3_add(a: C3, b: C3) -> C3 {
    C3 { r: a.r + b.r, g: a.g + b.g, b: a.b + b.b }
}

/// The component-wise (Hadamard) product of two colors.
pub open spec fn c3_mul(a: C3, b: C3) -> C3 {
    C3 { r: fx_mul(a.r, b.r), g: fx_mul(a.g, b.g), b: fx_mul(a.b, b.b) }
}

/// Every channel scaled by the scalar `s`.
pub open spec fn c3_scale(a: C3, s: int) -> C3 {
    C3 { r: fx_mul(a.r, s), g: fx_mul(a.g, s), b: fx_mul(a.b, s) }
}

/// Channel sums of `a` and `b` stay within the machine.
pub open spec fn c3_sum_ok(a: C3, b: C3) -> bool {
    (i64::MIN as int) < a.r + b.r < (i64::MAX as int) && (i64::MIN as int) < a.g + b.g
        < (i64::MAX as int) && (i64::MIN as int) < a.b + b.b < (i64::MAX as int)
}

impl Color {
    pub fn new(r: i64, g: i64, b: i64) -> (c: Color)
        ensures
            c@ == (C3 { r: r as int, g: g as int, b: b as int }),
    {
        Color { r, g, b }
    }

    /// The absence of light.
    pub fn black() -> (c: Color)
        ensures
            c@ == (C3 { r: 0int, g: 0int, b: 0int }),
    {
        Color { r: 0, g: 0, b: 0 }
    }

    /// Full intensity on every channel.
    pub fn white() -> (c: Color)
        ensures
            c@ == (C3 { r: SCALE as int, g: SCALE as int, b: SCALE as int }),
    {
        Color { r: SCALE, g: SCALE, b: SCALE }
    }

    pub fn plus(&self, o: &Color) -> (c: Color)
        requires
            c3_sum_ok(self@, o@),
        ensures
            c@ == c3_add(self@, o@),
    {
        Color { r: self.r + o.r, g: self.g + o.g, b: self.b + o.b }
    }

    /// The component-wise product of two colors.
    pub fn times(&self, o: &Color) -> (c: Color)
        requires
            color_ok(self@),
            color_ok(o@),
        ensures
            c@ == c3_mul(self@, o@),
    {
        Color { r: mul_fx(self.r, o.r), g: mul_fx(self.g, o.g), b: mul_fx(self.b, o.b) }
    }

    /// Every channel scaled by the scalar `s`.
    pub fn scale(&self, s: i64) -> (c: Color)
        requires
            color_ok(self@),
            fx_ok(s as int),
        ensures
            c@ == c3_scale(self@, s as int),
    {
        Color { r: mul_fx(self.r, s), g: mul_fx(self.g, s), b: mul_fx(self.b, s) }
    }
}

} // verus!
