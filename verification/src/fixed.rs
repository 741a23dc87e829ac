//! Saturating fixed-point scalars.
//!
//! A coordinate is an `i64` counting micro-units: one drawing unit is
//! `FX_ONE`. Every operation clamps its result into `[FX_MIN, FX_MAX]`, so
//! coordinate arithmetic never overflows and never panics. The range bound
//! `FX_MAX < 2^62` keeps differences of two coordinates inside `i64` and
//! products of two differences inside `i128`.

use vstd::prelude::*;

verus! {

use vstd::arithmetic::div_mod::lemma_fundamental_div_mod_converse;

/// Number of micro-units in one drawing unit.
pub const FX_ONE: i64 = 1_000_000;

/// Largest representable coordinate (2^62 - 1 micro-units).
pub const FX_MAX: i64 = 4_611_686_018_427_387_903;

/// Smallest representable coordinate.
pub const FX_MIN: i64 = -4_611_686_018_427_387_903;

/// A value lies in the representable coordinate range.
pub open spec fn fx_ok(v: int) -> bool {
    FX_MIN <= v <= FX_MAX
}

/// Clamp a mathematical integer into the representable coordinate range.
pub open spec fn fx_clamp(v: int) -> int {
    if v > FX_MAX {
        FX_MAX as int
    } else if v < FX_MIN {
        FX_MIN as int
    } else {
        v
    }
}

/// The value of a fixed-point product: the mathematical product scaled back
/// down by `FX_ONE` (rounding toward negative infinity), then clamped.
pub open spec fn fx_mul_val(a: int, b: int) -> int {
    fx_clamp((a * b) / (FX_ONE as int))
}

/// Clamping is monotone.
pub proof fn lemma_fx_clamp_monotone(a: int, b: int)
    requires
        a <= b,
    ensures
        fx_clamp(a) <= fx_clamp(b),
{
}

/// A whole number of drawing units as a fixed-point coordinate.
pub fn fx_from_int(units: i32) -> (r: i64)
    ensures
        r == units * (FX_ONE as int),
        fx_ok(r as int),
{
    (units as i64) * FX_ONE
}

/// Saturating addition of two coordinates.
pub fn fx_add(a: i64, b: i64) -> (r: i64)
    requires
        fx_ok(a as int),
        fx_ok(b as int),
    ensures
        r == fx_clamp(a + b),
        fx_ok(r as int),
{
    let s: i64 = a + b;
    if s > FX_MAX {
        FX_MAX
    } else if s < FX_MIN {
        FX_MIN
    } else {
        s
    }
}

/// Saturating subtraction of two coordinates.
pub fn fx_sub(a: i64, b: i64) -> (r: i64)
    requires
        fx_ok(a as int),
        fx_ok(b as int),
    ensures
        r == fx_clamp(a - b),
        fx_ok(r as int),
{
    let s: i64 = a - b;
    if s > FX_MAX {
        FX_MAX
    } else if s < FX_MIN {
        FX_MIN
    } else {
        s
    }
}

/// Negation of a coordinate.
pub fn fx_neg(a: i64) -> (r: i64)
    requires
        fx_ok(a as int),
    ensures
        r == -(a as int),
        fx_ok(r as int),
{
    -a
}

/// The smaller of two coordinates.
pub fn fx_min(a: i64, b: i64) -> (r: i64)
    ensures
        r == if a <= b { a as int } else { b as int },
{
    if a <= b {
        a
    } else {
        b
    }
}

/// The larger of two coordinates.
pub fn fx_max(a: i64, b: i64) -> (r: i64)
    ensures
        r == if a >= b { a as int } else { b as int },
{
    if a >= b {
        a
    } else {
        b
    }
}

/// Absolute value of a coordinate.
pub fn fx_abs(a: i64) -> (r: i64)
    requires
        fx_ok(a as int),
    ensures
        r == if a >= 0 { a as int } else { -(a as int) },
        fx_ok(r as int),
        r >= 0,
{
    if a >= 0 {
        a
    } else {
        -a
    }
}

/// Euclidean division of a negated nonnegative number, in terms of division
/// of the number itself.
proof fn lemma_div_neg(m: int, d: int)
    requires
        m >= 0,
        d > 0,
    ensures
        (-m) / d == if m % d == 0 {
            -(m / d)
        } else {
            -(m / d) - 1
        },
{
    let q = m / d;
    let r = m % d;
    vstd::arithmetic::div_mod::lemma_fundamental_div_mod(m, d);
    vstd::arithmetic::div_mod::lemma_mod_pos_bound(m, d);
    if r == 0 {
        assert((-q) * d == -(q * d)) by (nonlinear_arith);
        lemma_fundamental_div_mod_converse(-m, d, -q, 0);
    } else {
        assert((-q - 1) * d == -(q * d) - d) by (nonlinear_arith);
        lemma_fundamental_div_mod_converse(-m, d, -q - 1, d - r);
    }
}

/// Dividing by a positive number cannot grow the magnitude.
pub proof fn lemma_div_abs_bound(a: int, d: int, m: int)
    requires
        d > 0,
        0 <= m,
        -m <= a <= m,
    ensures
        -m <= a / d <= m,
{
    vstd::arithmetic::div_mod::lemma_fundamental_div_mod(a, d);
    vstd::arithmetic::div_mod::lemma_mod_bound(a, d);
    assert(-m <= a / d <= m) by (nonlinear_arith)
        requires
            a == d * (a / d) + a % d,
            0 <= a % d < d,
            d > 0,
            0 <= m,
            -m <= a <= m,
    ;
}

/// Euclidean remainder of a negated nonnegative number.
proof fn lemma_mod_neg(m: int, d: int)
    requires
        m >= 0,
        d > 0,
    ensures
        (-m) % d == if m % d == 0 {
            0
        } else {
            d - m % d
        },
{
    let q = m / d;
    let r = m % d;
    vstd::arithmetic::div_mod::lemma_fundamental_div_mod(m, d);
    vstd::arithmetic::div_mod::lemma_mod_pos_bound(m, d);
    if r == 0 {
        assert((-q) * d == -(q * d)) by (nonlinear_arith);
        lemma_fundamental_div_mod_converse(-m, d, -q, 0);
    } else {
        assert((-q - 1) * d == -(q * d) - d) by (nonlinear_arith);
        lemma_fundamental_div_mod_converse(-m, d, -q - 1, d - r);
    }
}

/// Division of an `i64` by a positive divisor, rounding toward negative
/// infinity (the rounding of spec-level `/`).
pub fn fx_div_floor(a: i64, d: i64) -> (q: i64)
    requires
        d > 0,
        a > i64::MIN,
    ensures
        q == a / d,
{
    let t: i64 = a / d;
    if a >= 0 {
        t
    } else {
        let r: i64 = a % d;
        proof {
            lemma_div_neg(-(a as int), d as int);
        }
        if r == 0 {
            t
        } else {
            t - 1
        }
    }
}

/// Euclidean remainder by a positive divisor: the result is in `[0, d)`.
pub fn fx_mod_euclid(a: i64, d: i64) -> (r: i64)
    requires
        d > 0,
        a > i64::MIN,
    ensures
        r == a % d,
        0 <= r < d,
{
    let m: i64 = a % d;
    proof {
        vstd::arithmetic::div_mod::lemma_mod_bound(a as int, d as int);
        if a < 0 {
            lemma_mod_neg(-(a as int), d as int);
        }
    }
    if a >= 0 {
        m
    } else if m == 0 {
        0
    } else {
        m + d
    }
}

/// Division of an `i128` by a positive divisor, rounding toward negative
/// infinity (the rounding of spec-level `/`).
fn div_floor_i128(p: i128, d: i128) -> (q: i128)
    requires
        d > 0,
        p > i128::MIN,
    ensures
        q == (p as int) / (d as int),
{
    let t: i128 = p / d;
    if p >= 0 {
        t
    } else {
        let r: i128 = p % d;
        proof {
            lemma_div_neg(-(p as int), d as int);
        }
        if r == 0 {
            t
        } else {
            t - 1
        }
    }
}

/// Clamp an `i128` into the representable coordinate range.
fn clamp_i128(v: i128) -> (r: i64)
    ensures
        r == fx_clamp(v as int),
        fx_ok(r as int),
{
    if v > FX_MAX as i128 {
        FX_MAX
    } else if v < FX_MIN as i128 {
        FX_MIN
    } else {
        v as i64
    }
}

/// Saturating fixed-point multiplication: `a * b / FX_ONE`, rounded toward
/// negative infinity and clamped.
pub fn fx_mul(a: i64, b: i64) -> (r: i64)
    requires
        fx_ok(a as int),
        fx_ok(b as int),
    ensures
        r == fx_mul_val(a as int, b as int),
        fx_ok(r as int),
{
    proof {
        assert(-((FX_MAX as int) * (FX_MAX as int)) <= (a as int) * (b as int) <= (FX_MAX as int)
            * (FX_MAX as int)) by (nonlinear_arith)
            requires
                FX_MIN <= a <= FX_MAX,
                FX_MIN <= b <= FX_MAX,
                FX_MIN == -FX_MAX,
        ;
    }
    let p: i128 = (a as i128) * (b as i128);
    let q: i128 = div_floor_i128(p, FX_ONE as i128);
    clamp_i128(q)
}

/// Saturating fixed-point division by a positive divisor:
/// `a * FX_ONE / b`, rounded toward negative infinity and clamped.
pub fn fx_div(a: i64, b: i64) -> (r: i64)
    requires
        fx_ok(a as int),
        1 <= b,
    ensures
        r == fx_clamp((a as int * (FX_ONE as int)) / (b as int)),
        fx_ok(r as int),
{
    let p: i128 = (a as i128) * (FX_ONE as i128);
    proof {
        assert(-5_000_000_000_000_000_000_000_000 <= (a as int) * (FX_ONE as int)
            <= 5_000_000_000_000_000_000_000_000) by (nonlinear_arith)
            requires
                FX_MIN <= a <= FX_MAX,
        ;
    }
    let q: i128 = div_floor_i128(p, b as i128);
    clamp_i128(q)
}

/// The midpoint of two coordinates, rounded toward negative infinity.
/// The result always lies between the two inputs.
pub fn fx_avg(a: i64, b: i64) -> (r: i64)
    requires
        fx_ok(a as int),
        fx_ok(b as int),
    ensures
        r == (a + b) / 2,
        fx_ok(r as int),
        if a <= b {
            a <= r <= b
        } else {
            b <= r <= a
        },
{
    let s: i64 = a + b;
    let t: i64 = s / 2;
    let r: i64 = if s >= 0 {
        t
    } else {
        let m: i64 = s % 2;
        proof {
            lemma_div_neg(-(s as int), 2);
        }
        if m == 0 {
            t
        } else {
            t - 1
        }
    };
    proof {
        vstd::arithmetic::div_mod::lemma_fundamental_div_mod(s as int, 2);
    }
    r
}

/// Half of a nonnegative coordinate, rounded down.
pub fn fx_half(a: i64) -> (r: i64)
    requires
        0 <= a,
    ensures
        r == a / 2,
        0 <= r <= a,
{
    a / 2
}

} // verus!
