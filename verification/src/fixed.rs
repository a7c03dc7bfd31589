//! Fixed-point scalars: signed 64-bit counts of `1 / SCALE` world units.
//!
//! Every operation is specified exactly, down to its truncating rounding,
//! so the geometric code built on top can state what it computes without
//! appeal to real-number arithmetic.

use vstd::prelude::*;
use vstd::arithmetic::div_mod::{
    lemma_div_pos_is_pos, lemma_div_nonincreasing, lemma_div_is_ordered,
};

verus! {

/// Number of units that stand for one world unit (1.0).
pub const SCALE: i64 = 1_000_000;

/// Shadow-bias offset in units: 1e-4 of a world unit.
pub const EPSILON: i64 = 100;

/// Largest unit count accepted as an operand of a product or quotient.
pub const FX_MAX: i64 = 1_500_000_000_000;

/// A scalar small enough that a product of two such fits the machine.
pub open spec fn fx_ok(a: int) -> bool {
    -(FX_MAX as int) <= a <= FX_MAX as int
}

/// Division truncating toward zero, as the machine divides; `b > 0`.
pub open spec fn sdiv(a: int, b: int) -> int
    recommends
        b > 0,
{
    if a >= 0 {
        a / b
    } else {
        -((-a) / b)
    }
}

/// The unit count of the product of two fixed-point scalars.
pub open spec fn fx_mul(a: int, b: int) -> int {
    sdiv(a * b, SCALE as int)
}

/// The unit count of the quotient of two fixed-point scalars.
pub open spec fn fx_div(a: int, b: int) -> int
    recommends
        b != 0,
{
    if b >= 0 {
        sdiv(a * (SCALE as int), b)
    } else {
        sdiv(-(a * (SCALE as int)), -b)
    }
}

/// Truncating division shrinks magnitude and keeps sign.
pub proof fn lemma_sdiv_mag(a: int, b: int)
    requires
        b > 0,
    ensures
        a >= 0 ==> 0 <= sdiv(a, b) <= a,
        a < 0 ==> a <= sdiv(a, b) <= 0,
{
    if a >= 0 {
        lemma_div_pos_is_pos(a, b);
        lemma_div_nonincreasing(a, b);
    } else {
        lemma_div_pos_is_pos(-a, b);
        lemma_div_nonincreasing(-a, b);
    }
}

/// Truncating division is monotone in the dividend.
pub proof fn lemma_sdiv_ordered(a1: int, a2: int, b: int)
    requires
        a1 <= a2,
        b > 0,
    ensures
        sdiv(a1, b) <= sdiv(a2, b),
{
    if a1 >= 0 {
        lemma_div_is_ordered(a1, a2, b);
    } else if a2 < 0 {
        lemma_div_is_ordered(-a2, -a1, b);
    } else {
        lemma_div_pos_is_pos(-a1, b);
        lemma_div_pos_is_pos(a2, b);
    }
}

/// Truncating division is odd: negating the dividend negates the result.
pub proof fn lemma_sdiv_neg(a: int, b: int)
    requires
        b > 0,
    ensures
        sdiv(-a, b) == -sdiv(a, b),
{
}

/// Truncation rounds no lower than the Euclidean floor, by at most one.
pub proof fn lemma_sdiv_vs_floor(x: int, b: int)
    requires
        b > 0,
    ensures
        x / b <= sdiv(x, b) <= x / b + 1,
{
    if x < 0 {
        vstd::arithmetic::div_mod::lemma_fundamental_div_mod(-x, b);
        vstd::arithmetic::div_mod::lemma_mod_bound(-x, b);
        let a = (-x) / b;
        let r = (-x) % b;
        if r == 0 {
            assert(x == (-a) * b + 0) by (nonlinear_arith)
                requires
                    -x == b * a + r,
                    r == 0,
            ;
            vstd::arithmetic::div_mod::lemma_fundamental_div_mod_converse(x, b, -a, 0);
        } else {
            assert(x == (-a - 1) * b + (b - r)) by (nonlinear_arith)
                requires
                    -x == b * a + r,
            ;
            vstd::arithmetic::div_mod::lemma_fundamental_div_mod_converse(x, b, -a - 1, b - r);
        }
    }
}

/// Fixed-point product, truncated toward zero.
pub fn mul_fx(a: i64, b: i64) -> (r: i64)
    requires
        fx_ok(a as int),
        fx_ok(b as int),
    ensures
        r as int == fx_mul(a as int, b as int),
{
    proof {
        assert((a as int) * (b as int) <= (FX_MAX as int) * (FX_MAX as int)
            && (a as int) * (b as int) >= -((FX_MAX as int) * (FX_MAX as int)))
            by (nonlinear_arith)
            requires
                fx_ok(a as int),
                fx_ok(b as int),
        ;
    }
    let p: i128 = (a as i128) * (b as i128);
    let q: i128 = if p >= 0 {
        proof {
            lemma_div_pos_is_pos(p as int, SCALE as int);
            lemma_div_is_ordered(p as int, 2250000000000000000000000int, SCALE as int);
        }
        p / (SCALE as i128)
    } else {
        proof {
            lemma_div_pos_is_pos(-(p as int), SCALE as int);
            lemma_div_is_ordered(-(p as int), 2250000000000000000000000int, SCALE as int);
        }
        -((-p) / (SCALE as i128))
    };
    q as i64
}

/// Fixed-point quotient, truncated toward zero.
pub fn div_fx(a: i64, b: i64) -> (r: i64)
    requires
        fx_ok(a as int),
        b != 0,
    ensures
        r as int == fx_div(a as int, b as int),
{
    proof {
        assert(-(1500000000000000000int) <= (a as int) * (SCALE as int) <= 1500000000000000000int)
            by (nonlinear_arith)
            requires
                fx_ok(a as int),
        ;
    }
    let num: i128 = (a as i128) * (SCALE as i128);
    let (n2, d2): (i128, i128) = if b < 0 {
        (-num, -(b as i128))
    } else {
        (num, b as i128)
    };
    let q: i128 = if n2 >= 0 {
        proof {
            lemma_div_pos_is_pos(n2 as int, d2 as int);
            lemma_div_nonincreasing(n2 as int, d2 as int);
        }
        n2 / d2
    } else {
        proof {
            lemma_div_pos_is_pos(-(n2 as int), d2 as int);
            lemma_div_nonincreasing(-(n2 as int), d2 as int);
        }
        -((-n2) / d2)
    };
    q as i64
}

/// The whole-unit floor of a scalar: Euclidean division by SCALE.
pub fn floor_div_scale(x: i64) -> (q: i64)
    ensures
        q as int == (x as int) / (SCALE as int),
{
    let q0 = x / SCALE;
    let r0 = x % SCALE;
    proof {
        let xi = x as int;
        let sc = SCALE as int;
        lemma_sdiv_mag(xi, sc);
        if xi < 0 {
            vstd::arithmetic::div_mod::lemma_fundamental_div_mod(-xi, sc);
            vstd::arithmetic::div_mod::lemma_mod_bound(-xi, sc);
            let a = (-xi) / sc;
            let r = (-xi) % sc;
            if r == 0 {
                vstd::arithmetic::div_mod::lemma_fundamental_div_mod_converse(xi, sc, -a, 0);
            } else {
                assert(xi == (-a - 1) * sc + (sc - r)) by (nonlinear_arith)
                    requires
                        -xi == a * sc + r,
                ;
                vstd::arithmetic::div_mod::lemma_fundamental_div_mod_converse(
                    xi,
                    sc,
                    -a - 1,
                    sc - r,
                );
            }
        }
    }
    if r0 < 0 {
        q0 - 1
    } else {
        q0
    }
}

/// Whether the whole-unit floor of a scalar is even.
pub fn even_floor_scale(x: i64) -> (b: bool)
    ensures
        b == (((x as int) / (SCALE as int)) % 2int == 0),
{
    let q = floor_div_scale(x);
    let qa = if q < 0 {
        -q
    } else {
        q
    };
    proof {
        let qi = q as int;
        if qi < 0 {
            vstd::arithmetic::div_mod::lemma_fundamental_div_mod(qi, 2);
            vstd::arithmetic::div_mod::lemma_mod_bound(qi, 2);
            let t = qi / 2;
            let e = qi % 2;
            if e == 0 {
                vstd::arithmetic::div_mod::lemma_fundamental_div_mod_converse(-qi, 2, -t, 0);
            } else {
                assert(-qi == (-t - 1) * 2 + 1) by (nonlinear_arith)
                    requires
                        qi == t * 2 + e,
                        e == 1,
                ;
                vstd::arithmetic::div_mod::lemma_fundamental_div_mod_converse(-qi, 2, -t - 1, 1);
            }
        }
    }
    qa % 2 == 0
}

/// `r` is the integer square root of `n`, rounded down.
pub open spec fn is_isqrt(n: int, r: int) -> bool {
    0 <= r && r * r <= n && n < (r + 1) * (r + 1)
}

/// The integer square root of `n`, rounded down.
pub closed spec fn sqrt_floor(n: int) -> int {
    choose|r: int| is_isqrt(n, r)
}

/// Every nonnegative integer has an integer square root.
pub proof fn lemma_isqrt_exists(n: int) -> (r: int)
    requires
        n >= 0,
    ensures
        is_isqrt(n, r),
    decreases n,
{
    if n == 0 {
        assert(is_isqrt(0, 0)) by (nonlinear_arith);
        0
    } else {
        let p = lemma_isqrt_exists(n - 1);
        if (p + 1) * (p + 1) <= n {
            assert(is_isqrt(n, p + 1)) by (nonlinear_arith)
                requires
                    n - 1 < (p + 1) * (p + 1),
                    (p + 1) * (p + 1) <= n,
                    p >= 0,
            ;
            p + 1
        } else {
            assert(is_isqrt(n, p)) by (nonlinear_arith)
                requires
                    p * p <= n - 1,
                    !((p + 1) * (p + 1) <= n),
                    p >= 0,
            ;
            p
        }
    }
}

/// The integer square root is unique.
pub proof fn lemma_isqrt_unique(n: int, r1: int, r2: int)
    requires
        is_isqrt(n, r1),
        is_isqrt(n, r2),
    ensures
        r1 == r2,
{
    assert(r1 == r2) by (nonlinear_arith)
        requires
            0 <= r1 && r1 * r1 <= n && n < (r1 + 1) * (r1 + 1),
            0 <= r2 && r2 * r2 <= n && n < (r2 + 1) * (r2 + 1),
    ;
}

/// `sqrt_floor` satisfies its defining property on nonnegative input.
pub proof fn lemma_sqrt_floor(n: int)
    requires
        n >= 0,
    ensures
        is_isqrt(n, sqrt_floor(n)),
{
    let r = lemma_isqrt_exists(n);
    assert(is_isqrt(n, r));
}

/// Integer square root by bisection.
fn isqrt_u128(n: u128) -> (r: u128)
    requires
        n <= 0xffffffffffffffffffffffffu128,
    ensures
        is_isqrt(n as int, r as int),
{
    if n == 0 {
        assert(is_isqrt(0, 0)) by (nonlinear_arith);
        return 0;
    }
    let mut lo: u128 = 0;
    let mut hi: u128 = if n >= 18446744073709551615u128 {
        proof {
            assert((18446744073709551616int) * (18446744073709551616int) > n);
        }
        18446744073709551616u128
    } else {
        proof {
            assert(((n + 1) as int) * (((n + 1)) as int) > n) by (nonlinear_arith)
                requires
                    n >= 0,
            ;
        }
        n + 1
    };
    while lo + 1 < hi
        invariant
            0 <= lo < hi,
            (lo as int) * (lo as int) <= n as int,
            (n as int) < (hi as int) * (hi as int),
            hi <= 18446744073709551616u128,
        decreases hi - lo,
    {
        let mid: u128 = lo + (hi - lo) / 2;
        proof {
            assert((mid as int) * (mid as int) < 0x100000000000000000000000000000000int)
                by (nonlinear_arith)
                requires
                    0 <= mid as int <= 18446744073709551615int,
            ;
        }
        if mid * mid <= n {
            lo = mid;
        } else {
            hi = mid;
        }
    }
    lo
}

/// The unit count of the square root of a nonnegative fixed-point scalar.
pub open spec fn fx_sqrt(a: int) -> int {
    sqrt_floor(a * (SCALE as int))
}

/// Fixed-point square root, rounded down.
pub fn sqrt_fx(a: i64) -> (r: i64)
    requires
        0 <= a <= 4_000_000_000_000_000_000i64,
    ensures
        r as int == fx_sqrt(a as int),
        r >= 0,
{
    proof {
        assert((a as int) * (SCALE as int) <= 4000000000000000000000000int) by (nonlinear_arith)
            requires
                0 <= a as int <= 4000000000000000000int,
        ;
    }
    let n: u128 = (a as u128) * (SCALE as u128);
    let s = isqrt_u128(n);
    proof {
        lemma_sqrt_floor(n as int);
        lemma_isqrt_unique(n as int, s as int, sqrt_floor(n as int));
        assert((s as int) * (s as int) <= 4000000000000000000000000int);
        assert(s as int <= 2000000000000int) by (nonlinear_arith)
            requires
                (s as int) * (s as int) <= 4000000000000000000000000int,
                s >= 0,
        ;
    }
    s as i64
}

/// A fixed-point product of bounded scalars is bounded.
pub proof fn lemma_fx_mul_bound(a: int, b: int, m1: int, m2: int)
    requires
        -m1 <= a <= m1,
        -m2 <= b <= m2,
        0 <= m1,
        0 <= m2,
    ensures
        -((m1 * m2) / (SCALE as int)) <= fx_mul(a, b) <= (m1 * m2) / (SCALE as int),
{
    assert(-(m1 * m2) <= a * b <= m1 * m2) by (nonlinear_arith)
        requires
            -m1 <= a <= m1,
            -m2 <= b <= m2,
            0 <= m1,
            0 <= m2,
    ;
    lemma_div_pos_is_pos(m1 * m2, SCALE as int);
    if a * b >= 0 {
        lemma_div_pos_is_pos(a * b, SCALE as int);
        lemma_div_is_ordered(a * b, m1 * m2, SCALE as int);
    } else {
        lemma_div_pos_is_pos(-(a * b), SCALE as int);
        lemma_div_is_ordered(-(a * b), m1 * m2, SCALE as int);
    }
}

/// Argument range on which the sine and cosine series are evaluated:
/// half a field of view, at most a right angle and a little slack.
pub open spec fn trig_arg_ok(x: int) -> bool {
    0 <= x <= 1_600_000int
}

/// Truncated Maclaurin series for the sine of `x` (units of 1/SCALE radians).
pub open spec fn spec_sin(x: int) -> int {
    let x2 = fx_mul(x, x);
    let x3 = fx_mul(x2, x);
    let x5 = fx_mul(x3, x2);
    let x7 = fx_mul(x5, x2);
    let x9 = fx_mul(x7, x2);
    let x11 = fx_mul(x9, x2);
    x - sdiv(x3, 6) + sdiv(x5, 120) - sdiv(x7, 5040) + sdiv(x9, 362880) - sdiv(
        x11,
        39916800,
    )
}

/// Truncated Maclaurin series for the cosine of `x`.
pub open spec fn spec_cos(x: int) -> int {
    let x2 = fx_mul(x, x);
    let x4 = fx_mul(x2, x2);
    let x6 = fx_mul(x4, x2);
    let x8 = fx_mul(x6, x2);
    let x10 = fx_mul(x8, x2);
    let x12 = fx_mul(x10, x2);
    (SCALE as int) - sdiv(x2, 2) + sdiv(x4, 24) - sdiv(x6, 720) + sdiv(x8, 40320) - sdiv(
        x10,
        3628800,
    ) + sdiv(x12, 479001600)
}

/// The tangent of `x` as the ratio of the two series.
pub open spec fn spec_tan(x: int) -> int
    recommends
        spec_cos(x) != 0,
{
    fx_div(spec_sin(x), spec_cos(x))
}

/// Sine by series evaluation.
pub fn sin_fx(x: i64) -> (r: i64)
    requires
        trig_arg_ok(x as int),
    ensures
        r as int == spec_sin(x as int),
        -500_000_000 <= r <= 500_000_000,
{
    let x2 = mul_fx(x, x);
    proof { lemma_fx_mul_bound(x as int, x as int, 1600000, 1600000); }
    let x3 = mul_fx(x2, x);
    proof { lemma_fx_mul_bound(x2 as int, x as int, 2560000, 1600000); }
    let x5 = mul_fx(x3, x2);
    proof { lemma_fx_mul_bound(x3 as int, x2 as int, 4096000, 2560000); }
    let x7 = mul_fx(x5, x2);
    proof { lemma_fx_mul_bound(x5 as int, x2 as int, 10485760, 2560000); }
    let x9 = mul_fx(x7, x2);
    proof { lemma_fx_mul_bound(x7 as int, x2 as int, 26843545, 2560000); }
    let x11 = mul_fx(x9, x2);
    proof { lemma_fx_mul_bound(x9 as int, x2 as int, 68719475, 2560000); }
    x - x3 / 6 + x5 / 120 - x7 / 5040 + x9 / 362880 - x11 / 39916800
}

/// Cosine by series evaluation.
pub fn cos_fx(x: i64) -> (r: i64)
    requires
        trig_arg_ok(x as int),
    ensures
        r as int == spec_cos(x as int),
        -500_000_000 <= r <= 500_000_000,
{
    let x2 = mul_fx(x, x);
    proof { lemma_fx_mul_bound(x as int, x as int, 1600000, 1600000); }
    let x4 = mul_fx(x2, x2);
    proof { lemma_fx_mul_bound(x2 as int, x2 as int, 2560000, 2560000); }
    let x6 = mul_fx(x4, x2);
    proof { lemma_fx_mul_bound(x4 as int, x2 as int, 6553600, 2560000); }
    let x8 = mul_fx(x6, x2);
    proof { lemma_fx_mul_bound(x6 as int, x2 as int, 16777216, 2560000); }
    let x10 = mul_fx(x8, x2);
    proof { lemma_fx_mul_bound(x8 as int, x2 as int, 42949673, 2560000); }
    let x12 = mul_fx(x10, x2);
    proof { lemma_fx_mul_bound(x10 as int, x2 as int, 109951163, 2560000); }
    SCALE - x2 / 2 + x4 / 24 - x6 / 720 + x8 / 40320 - x10 / 3628800 + x12 / 479001600
}

/// Tangent by series evaluation; `None` when the cosine series is not
/// positive, which happens only at the edge of the admitted argument range.
pub fn tan_fx(x: i64) -> (r: Option<i64>)
    requires
        trig_arg_ok(x as int),
    ensures
        r is None <==> spec_cos(x as int) <= 0,
        r is Some ==> r->0 as int == spec_tan(x as int),
{
    let s = sin_fx(x);
    let c = cos_fx(x);
    if c <= 0 {
        None
    } else {
        Some(div_fx(s, c))
    }
}

/// The unit count of `b` raised to the `n`th power.
pub open spec fn fx_pow(b: int, n: nat) -> int
    decreases n,
{
    if n == 0 {
        SCALE as int
    } else {
        fx_mul(b, fx_pow(b, (n - 1) as nat))
    }
}

/// A power of a scalar in `[0, 1]` stays in `[0, 1]`.
pub proof fn lemma_fx_pow_unit(b: int, n: nat)
    requires
        0 <= b <= SCALE as int,
    ensures
        0 <= fx_pow(b, n) <= SCALE as int,
    decreases n,
{
    if n > 0 {
        lemma_fx_pow_unit(b, (n - 1) as nat);
        let p = fx_pow(b, (n - 1) as nat);
        assert(0 <= b * p <= 1000000000000int) by (nonlinear_arith)
            requires
                0 <= b <= 1000000int,
                0 <= p <= 1000000int,
        ;
        lemma_div_pos_is_pos(b * p, SCALE as int);
        lemma_div_is_ordered(b * p, 1000000000000int, SCALE as int);
    }
}

/// Fixed-point power with a base in `[0, 1]` and an integer exponent.
pub fn pow_fx(b: i64, n: u64) -> (r: i64)
    requires
        0 <= b <= SCALE,
    ensures
        r as int == fx_pow(b as int, n as nat),
{
    let mut r: i64 = SCALE;
    let mut i: u64 = 0;
    while i < n
        invariant
            0 <= b <= SCALE,
            i <= n,
            r as int == fx_pow(b as int, i as nat),
            0 <= r <= SCALE,
        decreases n - i,
    {
        proof {
            lemma_fx_pow_unit(b as int, (i + 1) as nat);
        }
        r = mul_fx(b, r);
        i = i + 1;
    }
    r
}

} // verus!
