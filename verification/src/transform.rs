//! 2D affine transforms: translation, scale, rotation about an anchor.
//!
//! Rotation angles are fixed-point radians. Sine and cosine are computed by
//! range reduction and a short Taylor polynomial, entirely in integer
//! arithmetic; the polynomials are themselves the specification of the two
//! functions, so callers know the exact value returned for every angle.

use vstd::prelude::*;

verus! {

use crate::fixed::{
    FX_ONE,
    fx_ok,
    fx_clamp,
    fx_mul_val,
    fx_add,
    fx_sub,
    fx_mul,
    fx_div_floor,
    fx_mod_euclid,
    lemma_div_abs_bound,
};
use crate::geom::{Vec2, vec2_ok};

/// Fixed-point 2*pi.
pub const FX_TWO_PI: i64 = 6_283_185;

/// Fixed-point pi.
pub const FX_PI: i64 = 3_141_593;

/// Fixed-point pi/2.
pub const FX_HALF_PI: i64 = 1_570_796;

/// An angle reduced into `(-FX_PI, FX_PI]`: the representative, modulo a
/// full turn, that the trigonometry works on.
pub open spec fn spec_angle_norm(a: int) -> int {
    let m = a % (FX_TWO_PI as int);
    if m > FX_PI {
        m - FX_TWO_PI
    } else {
        m
    }
}

/// The sine Taylor polynomial `x - x^3/6 + x^5/120` in fixed point,
/// meaningful for `|x| <= FX_HALF_PI`.
pub open spec fn spec_sin_poly(x: int) -> int {
    let one = FX_ONE as int;
    let x2 = (x * x) / one;
    let x3 = (x2 * x) / one;
    let x5 = (x3 * x2) / one;
    x - x3 / 6 + x5 / 120
}

/// The cosine Taylor polynomial `1 - x^2/2 + x^4/24 - x^6/720` in fixed
/// point, meaningful for `|x| <= FX_HALF_PI`.
pub open spec fn spec_cos_poly(x: int) -> int {
    let one = FX_ONE as int;
    let x2 = (x * x) / one;
    let x4 = (x2 * x2) / one;
    let x6 = (x4 * x2) / one;
    one - x2 / 2 + x4 / 24 - x6 / 720
}

/// Clamp a value into `[-FX_ONE, FX_ONE]`.
pub open spec fn spec_unit_clamp(v: int) -> int {
    if v > FX_ONE {
        FX_ONE as int
    } else if v < -FX_ONE {
        -FX_ONE as int
    } else {
        v
    }
}

/// The fixed-point sine of an angle: reduce to `(-FX_PI, FX_PI]`, fold into
/// `[-FX_HALF_PI, FX_HALF_PI]` by `sin(pi - x) == sin(x)`, then evaluate the
/// Taylor polynomial and clamp into the unit range.
pub open spec fn spec_sin(a: int) -> int {
    let x = spec_angle_norm(a);
    let y = if x > FX_HALF_PI {
        FX_PI - x
    } else if x < -FX_HALF_PI {
        -FX_PI - x
    } else {
        x
    };
    spec_unit_clamp(spec_sin_poly(y))
}

/// The fixed-point cosine of an angle: reduce, use `cos(x) == -cos(pi - x)`
/// outside the primary range, evaluate the Taylor polynomial, clamp.
pub open spec fn spec_cos(a: int) -> int {
    let x = spec_angle_norm(a);
    if x > FX_HALF_PI {
        -spec_unit_clamp(spec_cos_poly(FX_PI - x))
    } else if x < -FX_HALF_PI {
        -spec_unit_clamp(spec_cos_poly((-FX_PI - x)))
    } else {
        spec_unit_clamp(spec_cos_poly(x))
    }
}

/// Multiply two small fixed-point values and scale back down by `FX_ONE`,
/// rounding toward negative infinity. Exact integer counterpart of the
/// products inside the Taylor polynomials.
fn poly_mul(a: i64, b: i64) -> (r: i64)
    requires
        -20_000_000 <= a <= 20_000_000,
        -20_000_000 <= b <= 20_000_000,
    ensures
        r == (a * b) / (FX_ONE as int),
        -400_000_000 <= r <= 400_000_000,
{
    proof {
        assert(-400_000_000_000_000 <= (a as int) * (b as int) <= 400_000_000_000_000)
            by (nonlinear_arith)
            requires
                -20_000_000 <= a <= 20_000_000,
                -20_000_000 <= b <= 20_000_000,
        ;
        vstd::arithmetic::div_mod::lemma_div_is_ordered(
            -400_000_000_000_000,
            (a as int) * (b as int),
            FX_ONE as int,
        );
        vstd::arithmetic::div_mod::lemma_div_is_ordered(
            (a as int) * (b as int),
            400_000_000_000_000,
            FX_ONE as int,
        );
        assert(-400_000_000_000_000int / 1_000_000 == -400_000_000) by (nonlinear_arith);
        assert(400_000_000_000_000int / 1_000_000 == 400_000_000) by (nonlinear_arith);
    }
    let p: i64 = a * b;
    fx_div_floor(p, FX_ONE)
}

/// Bound the quotient of a bounded product.
proof fn lemma_poly_mul_bound(a: int, b: int, m: int, n: int)
    requires
        -m <= a <= m,
        -n <= b <= n,
        0 <= m,
        0 <= n,
    ensures
        -(m * n) / (FX_ONE as int) <= (a * b) / (FX_ONE as int) <= (m * n) / (FX_ONE as int),
{
    assert(-(m * n) <= a * b <= m * n) by (nonlinear_arith)
        requires
            -m <= a <= m,
            -n <= b <= n,
            0 <= m,
            0 <= n,
    ;
    vstd::arithmetic::div_mod::lemma_div_is_ordered(-(m * n), a * b, FX_ONE as int);
    vstd::arithmetic::div_mod::lemma_div_is_ordered(a * b, m * n, FX_ONE as int);
}

/// Clamp into the unit range `[-FX_ONE, FX_ONE]`.
fn unit_clamp(v: i64) -> (r: i64)
    requires
        i64::MIN < v,
    ensures
        r == spec_unit_clamp(v as int),
        -FX_ONE <= r <= FX_ONE,
{
    if v > FX_ONE {
        FX_ONE
    } else if v < -FX_ONE {
        -FX_ONE
    } else {
        v
    }
}

/// Reduce an angle into `(-FX_PI, FX_PI]`.
fn angle_norm(a: i64) -> (r: i64)
    requires
        fx_ok(a as int),
    ensures
        r == spec_angle_norm(a as int),
        -FX_PI < r <= FX_PI,
{
    let m = fx_mod_euclid(a, FX_TWO_PI);
    if m > FX_PI {
        m - FX_TWO_PI
    } else {
        m
    }
}

/// Evaluate the sine polynomial for `|y| <= FX_HALF_PI`.
fn sin_poly(y: i64) -> (r: i64)
    requires
        -FX_HALF_PI <= y <= FX_HALF_PI,
    ensures
        r == spec_sin_poly(y as int),
        -1_000_000_000 <= r <= 1_000_000_000,
{
    let x2 = poly_mul(y, y);
    proof {
        assert((y as int) * (y as int) >= 0) by (nonlinear_arith);
        lemma_poly_mul_bound(y as int, y as int, FX_HALF_PI as int, FX_HALF_PI as int);
        vstd::arithmetic::div_mod::lemma_div_pos_is_pos((y as int) * (y as int), FX_ONE as int);
        assert((FX_HALF_PI as int) * (FX_HALF_PI as int) / (FX_ONE as int) < 2_500_000)
            by (nonlinear_arith);
    }
    let x3 = poly_mul(x2, y);
    proof {
        lemma_poly_mul_bound(y as int, x2 as int, FX_HALF_PI as int, 2_500_000);
        assert((FX_HALF_PI as int) * 2_500_000 / (FX_ONE as int) < 4_000_000) by (nonlinear_arith);
        assert((x2 as int) * (y as int) == (y as int) * (x2 as int)) by (nonlinear_arith);
    }
    let x5 = poly_mul(x3, x2);
    let t3 = fx_div_floor(x3, 6);
    let t5 = fx_div_floor(x5, 120);
    proof {
        lemma_div_abs_bound(x3 as int, 6, 400_000_000);
        lemma_div_abs_bound(x5 as int, 120, 400_000_000);
    }
    let r = y - t3 + t5;
    r
}

/// Evaluate the cosine polynomial for `|y| <= FX_HALF_PI`.
fn cos_poly(y: i64) -> (r: i64)
    requires
        -FX_HALF_PI <= y <= FX_HALF_PI,
    ensures
        r == spec_cos_poly(y as int),
        -2_000_000_000 <= r <= 2_000_000_000,
{
    let x2 = poly_mul(y, y);
    proof {
        assert((y as int) * (y as int) >= 0) by (nonlinear_arith);
        lemma_poly_mul_bound(y as int, y as int, FX_HALF_PI as int, FX_HALF_PI as int);
        vstd::arithmetic::div_mod::lemma_div_pos_is_pos((y as int) * (y as int), FX_ONE as int);
        assert((FX_HALF_PI as int) * (FX_HALF_PI as int) / (FX_ONE as int) < 2_500_000)
            by (nonlinear_arith);
    }
    let x4 = poly_mul(x2, x2);
    proof {
        assert((x2 as int) * (x2 as int) >= 0) by (nonlinear_arith);
        lemma_poly_mul_bound(x2 as int, x2 as int, 2_500_000, 2_500_000);
        vstd::arithmetic::div_mod::lemma_div_pos_is_pos((x2 as int) * (x2 as int), FX_ONE as int);
        assert(2_500_000int * 2_500_000 / (FX_ONE as int) < 7_000_000) by (nonlinear_arith);
    }
    let x6 = poly_mul(x4, x2);
    let t2 = fx_div_floor(x2, 2);
    let t4 = fx_div_floor(x4, 24);
    let t6 = fx_div_floor(x6, 720);
    proof {
        lemma_div_abs_bound(x2 as int, 2, 400_000_000);
        lemma_div_abs_bound(x4 as int, 24, 400_000_000);
        lemma_div_abs_bound(x6 as int, 720, 400_000_000);
    }
    let r = FX_ONE - t2 + t4 - t6;
    r
}

/// Fixed-point sine of an angle in fixed-point radians.
pub fn sin_fx(a: i64) -> (r: i64)
    requires
        fx_ok(a as int),
    ensures
        r == spec_sin(a as int),
        -FX_ONE <= r <= FX_ONE,
{
    let x = angle_norm(a);
    let y = if x > FX_HALF_PI {
        FX_PI - x
    } else if x < -FX_HALF_PI {
        -FX_PI - x
    } else {
        x
    };
    unit_clamp(sin_poly(y))
}

/// Fixed-point cosine of an angle in fixed-point radians.
pub fn cos_fx(a: i64) -> (r: i64)
    requires
        fx_ok(a as int),
    ensures
        r == spec_cos(a as int),
        -FX_ONE <= r <= FX_ONE,
{
    let x = angle_norm(a);
    if x > FX_HALF_PI {
        -unit_clamp(cos_poly(FX_PI - x))
    } else if x < -FX_HALF_PI {
        -unit_clamp(cos_poly(-FX_PI - x))
    } else {
        unit_clamp(cos_poly(x))
    }
}

/// Sine of zero is zero and cosine of zero is one.
pub proof fn lemma_trig_at_zero()
    ensures
        spec_sin(0) == 0,
        spec_cos(0) == FX_ONE,
{
    assert(0int % (FX_TWO_PI as int) == 0) by (nonlinear_arith);
    assert(spec_sin_poly(0) == 0) by (nonlinear_arith);
    assert(spec_cos_poly(0) == FX_ONE) by (nonlinear_arith);
}

/// A 2D transform: translate by `position`, scale and rotate about
/// `anchor`. Scale factors are fixed point (`FX_ONE` is unit scale) and
/// `rotation` is in fixed-point radians.
#[derive(Clone, Copy, Debug, PartialEq, Eq, Structural)]
pub struct Transform2D {
    pub position: Vec2,
    pub scale: Vec2,
    pub rotation: i64,
    pub anchor: Vec2,
}

/// All components of a transform are in the representable range.
pub open spec fn transform_ok(t: Transform2D) -> bool {
    &&& vec2_ok(t.position)
    &&& vec2_ok(t.scale)
    &&& fx_ok(t.rotation as int)
    &&& vec2_ok(t.anchor)
}

/// The identity transform as a value.
pub open spec fn spec_identity() -> Transform2D {
    Transform2D {
        position: Vec2 { x: 0, y: 0 },
        scale: Vec2 { x: FX_ONE as i64, y: FX_ONE as i64 },
        rotation: 0,
        anchor: Vec2 { x: 0, y: 0 },
    }
}

/// The image of a point under a transform: translate so the anchor is the
/// origin, scale, rotate, translate back, then apply the position offset.
/// A zero rotation skips the rotation step exactly.
pub open spec fn spec_transform_point(t: Transform2D, p: Vec2) -> Vec2 {
    let dx = fx_clamp(p.x - t.anchor.x);
    let dy = fx_clamp(p.y - t.anchor.y);
    let sx = fx_mul_val(dx, t.scale.x as int);
    let sy = fx_mul_val(dy, t.scale.y as int);
    let (rx, ry) = if t.rotation == 0 {
        (sx, sy)
    } else {
        let c = spec_cos(t.rotation as int);
        let s = spec_sin(t.rotation as int);
        (
            fx_clamp(fx_mul_val(sx, c) - fx_mul_val(sy, s)),
            fx_clamp(fx_mul_val(sx, s) + fx_mul_val(sy, c)),
        )
    };
    Vec2 {
        x: fx_clamp(fx_clamp(rx + t.anchor.x) + t.position.x) as i64,
        y: fx_clamp(fx_clamp(ry + t.anchor.y) + t.position.y) as i64,
    }
}

impl Transform2D {
    pub fn new(position: Vec2, scale: Vec2, rotation: i64, anchor: Vec2) -> (t: Transform2D)
        ensures
            t == (Transform2D { position, scale, rotation, anchor }),
    {
        Transform2D { position, scale, rotation, anchor }
    }

    /// No translation, unit scale, no rotation.
    pub fn identity() -> (t: Transform2D)
        ensures
            t == spec_identity(),
            transform_ok(t),
    {
        Transform2D {
            position: Vec2 { x: 0, y: 0 },
            scale: Vec2 { x: FX_ONE, y: FX_ONE },
            rotation: 0,
            anchor: Vec2 { x: 0, y: 0 },
        }
    }

    /// The identity transform moved to a position.
    pub fn from_position(position: Vec2) -> (t: Transform2D)
        ensures
            t == (Transform2D { position, ..spec_identity() }),
    {
        Transform2D { position, ..Self::identity() }
    }

    pub fn with_position(self, position: Vec2) -> (t: Transform2D)
        ensures
            t == (Transform2D { position, ..self }),
    {
        Transform2D { position, ..self }
    }

    pub fn with_scale(self, scale: Vec2) -> (t: Transform2D)
        ensures
            t == (Transform2D { scale, ..self }),
    {
        Transform2D { scale, ..self }
    }

    pub fn with_rotation(self, rotation: i64) -> (t: Transform2D)
        ensures
            t == (Transform2D { rotation, ..self }),
    {
        Transform2D { rotation, ..self }
    }

    pub fn with_anchor(self, anchor: Vec2) -> (t: Transform2D)
        ensures
            t == (Transform2D { anchor, ..self }),
    {
        Transform2D { anchor, ..self }
    }

    /// Apply the transform to a point.
    pub fn transform_point(&self, point: Vec2) -> (r: Vec2)
        requires
            transform_ok(*self),
            vec2_ok(point),
        ensures
            r == spec_transform_point(*self, point),
            vec2_ok(r),
    {
        let dx = fx_sub(point.x, self.anchor.x);
        let dy = fx_sub(point.y, self.anchor.y);
        let sx = fx_mul(dx, self.scale.x);
        let sy = fx_mul(dy, self.scale.y);
        let (rx, ry) = if self.rotation == 0 {
            (sx, sy)
        } else {
            let c = cos_fx(self.rotation);
            let s = sin_fx(self.rotation);
            (fx_sub(fx_mul(sx, c), fx_mul(sy, s)), fx_add(fx_mul(sx, s), fx_mul(sy, c)))
        };
        Vec2 {
            x: fx_add(fx_add(rx, self.anchor.x), self.position.x),
            y: fx_add(fx_add(ry, self.anchor.y), self.position.y),
        }
    }
}

/// The identity transform maps every representable point to itself.
pub proof fn lemma_identity_transform_point(p: Vec2)
    requires
        vec2_ok(p),
    ensures
        spec_transform_point(spec_identity(), p) == p,
{
    let one = FX_ONE as int;
    vstd::arithmetic::div_mod::lemma_div_multiples_vanish(p.x as int, one);
    vstd::arithmetic::div_mod::lemma_div_multiples_vanish(p.y as int, one);
    assert((p.x as int) * one == one * (p.x as int)) by (nonlinear_arith);
    assert((p.y as int) * one == one * (p.y as int)) by (nonlinear_arith);
}

} // verus!
