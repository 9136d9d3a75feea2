//! Angles on the unit circle in fixed point: a full turn is `TAU_UNITS`
//! (about a micro-radian per unit), so a heading is a `u32` in
//! `[0, TAU_UNITS)`. Sine and cosine come from the Bhaskara quadratic in
//! milli-units; bearings from a quadratic arctangent fit.

use vstd::prelude::*;

verus! {

/// One full turn. Divisible by four, so the quarter turns are exact.
pub const TAU_UNITS: u32 = 6283184;

/// Half a turn.
pub const HALF_TURN: u32 = 3141592;

/// A quarter turn; also the width of a creature's vision cone.
pub const QUARTER_TURN: u32 = 1570796;

/// An eighth of a turn; half the vision cone.
pub const EIGHTH_TURN: u32 = 785398;

/// The representative of `a` in `[0, TAU_UNITS)`, congruent modulo a turn.
pub open spec fn norm_angle_spec(a: int) -> int {
    a % (TAU_UNITS as int)
}

pub fn norm_angle(a: i64) -> (r: u32)
    requires
        -1000000000000 <= a <= 1000000000000,
    ensures
        r == norm_angle_spec(a as int),
        r < TAU_UNITS,
{
    let m: i64 = a % (TAU_UNITS as i64);
    if m < 0 {
        (m + TAU_UNITS as i64) as u32
    } else {
        m as u32
    }
}

/// Sine on `[0, HALF_TURN]` by Bhaskara's quadratic, in milli-units.
/// Equal to the real sine at `0`, the quarter turn and the half turn,
/// and within two milli-units elsewhere; never above `1000`.
pub open spec fn bhaskara_spec(x: int) -> int {
    (16000 * (x * ((HALF_TURN as int) - x))) / (5 * (HALF_TURN as int) * (HALF_TURN as int) - 4
        * (x * ((HALF_TURN as int) - x)))
}

pub open spec fn sin_milli_spec(t: int) -> int {
    if t <= HALF_TURN as int {
        bhaskara_spec(t)
    } else {
        -bhaskara_spec(t - HALF_TURN as int)
    }
}

pub open spec fn cos_milli_spec(t: int) -> int {
    sin_milli_spec((t + QUARTER_TURN as int) % (TAU_UNITS as int))
}

fn bhaskara(x: u32) -> (r: i64)
    requires
        x <= HALF_TURN,
    ensures
        r == bhaskara_spec(x as int),
        0 <= r <= 1000,
{
    let xe: i64 = x as i64;
    proof {
        assert(0 <= (xe as int) * (HALF_TURN as int - xe as int)
            && 4 * ((xe as int) * (HALF_TURN as int - xe as int)) <= (HALF_TURN as int) * (
        HALF_TURN as int)) by (nonlinear_arith)
            requires 0 <= xe as int, (xe as int) <= (HALF_TURN as int);
        assert((HALF_TURN as int) * (HALF_TURN as int) < 9870000000000) by (nonlinear_arith);
    }
    let p: i64 = xe * (HALF_TURN as i64 - xe);
    let num: i64 = 16000 * p;
    let den: i64 = 5 * (HALF_TURN as i64) * (HALF_TURN as i64) - 4 * p;
    proof {
        assert(0 <= num / den <= 1000) by (nonlinear_arith)
            requires 0 <= num <= 1000 * den, den > 0;
    }
    num / den
}

pub fn sin_milli(t: u32) -> (r: i64)
    requires
        t < TAU_UNITS,
    ensures
        r == sin_milli_spec(t as int),
        -1000 <= r <= 1000,
{
    if t <= HALF_TURN {
        bhaskara(t)
    } else {
        -bhaskara(t - HALF_TURN)
    }
}

pub fn cos_milli(t: u32) -> (r: i64)
    requires
        t < TAU_UNITS,
    ensures
        r == cos_milli_spec(t as int),
        -1000 <= r <= 1000,
{
    let shifted: u32 = if t < TAU_UNITS - QUARTER_TURN {
        t + QUARTER_TURN
    } else {
        t - (TAU_UNITS - QUARTER_TURN)
    };
    proof {
        assert(shifted == ((t + QUARTER_TURN) as int) % (TAU_UNITS as int));
    }
    sin_milli(shifted)
}

/// Arctangent of `z / 1000` for `z` in `[0, 1000]`, in angle units on
/// `[0, EIGHTH_TURN]`: the fit `z * pi/4 + 0.273 * z * (1 - z)`.
pub open spec fn atan_oct_spec(z: int) -> int {
    (z * (EIGHTH_TURN as int) + 273 * z * (1000 - z)) / 1000
}

fn atan_oct(z: i64) -> (r: i64)
    requires
        0 <= z <= 1000,
    ensures
        r == atan_oct_spec(z as int),
        0 <= r <= EIGHTH_TURN,
{
    proof {
        assert(0 <= z * (EIGHTH_TURN as int) + 273 * z * (1000 - z)
            && z * (EIGHTH_TURN as int) + 273 * z * (1000 - z) <= 1000 * (EIGHTH_TURN as int))
            by (nonlinear_arith)
            requires 0 <= z <= 1000;
    }
    (z * (EIGHTH_TURN as i64) + 273 * z * (1000 - z)) / 1000
}

/// First-quadrant bearing of the vector `(ax, ay)` with both components
/// non-negative, in `[0, QUARTER_TURN]`.
pub open spec fn atan_quad_spec(ay: int, ax: int) -> int {
    if ay <= ax {
        if ax == 0 {
            0
        } else {
            atan_oct_spec((ay * 1000) / ax)
        }
    } else {
        (QUARTER_TURN as int) - atan_oct_spec((ax * 1000) / ay)
    }
}

/// The bearing of the vector `(dx, dy)` from the positive x axis,
/// counter-clockwise in `[0, TAU_UNITS)`; `0` for the zero vector.
pub open spec fn atan2_units_spec(dy: int, dx: int) -> int {
    let ax = if dx >= 0 { dx } else { -dx };
    let ay = if dy >= 0 { dy } else { -dy };
    let q = atan_quad_spec(ay, ax);
    if dx >= 0 && dy >= 0 {
        q
    } else if dx < 0 && dy >= 0 {
        (HALF_TURN as int) - q
    } else if dx < 0 {
        (HALF_TURN as int) + q
    } else if q == 0 {
        0
    } else {
        (TAU_UNITS as int) - q
    }
}

fn atan_quad(ay: i64, ax: i64) -> (r: i64)
    requires
        0 <= ay <= 100000000000,
        0 <= ax <= 100000000000,
    ensures
        r == atan_quad_spec(ay as int, ax as int),
        0 <= r <= QUARTER_TURN,
{
    if ay <= ax {
        if ax == 0 {
            0
        } else {
            let z: i64 = (ay * 1000) / ax;
            proof {
                assert(0 <= (ay as int * 1000) / (ax as int) <= 1000) by (nonlinear_arith)
                    requires 0 <= ay as int, (ay as int) <= (ax as int), (ax as int) > 0;
            }
            atan_oct(z)
        }
    } else {
        let z: i64 = (ax * 1000) / ay;
        proof {
            assert(0 <= (ax as int * 1000) / (ay as int) <= 1000) by (nonlinear_arith)
                requires 0 <= ax as int, (ax as int) < (ay as int);
        }
        (QUARTER_TURN as i64) - atan_oct(z)
    }
}

pub fn atan2_units(dy: i64, dx: i64) -> (r: u32)
    requires
        -100000000000 <= dy <= 100000000000,
        -100000000000 <= dx <= 100000000000,
    ensures
        r == atan2_units_spec(dy as int, dx as int),
        r < TAU_UNITS,
{
    let ax: i64 = if dx >= 0 { dx } else { -dx };
    let ay: i64 = if dy >= 0 { dy } else { -dy };
    let q: i64 = atan_quad(ay, ax);
    if dx >= 0 && dy >= 0 {
        q as u32
    } else if dx < 0 && dy >= 0 {
        (HALF_TURN as i64 - q) as u32
    } else if dx < 0 {
        (HALF_TURN as i64 + q) as u32
    } else if q == 0 {
        0
    } else {
        (TAU_UNITS as i64 - q) as u32
    }
}

} // verus!
