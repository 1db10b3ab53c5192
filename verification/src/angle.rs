//! Angles: degrees, radians, and the sine, cosine and tangent.
//!
//! The functions are evaluated at eighteen decimal places and rounded to
//! the nearest raw unit once, at the end.

use crate::fixed::{quot, Fixed, LIMIT, SCALE};
use vstd::prelude::*;

verus! {

/// Units of the finer scale in one whole.
pub const WIDE: i128 = 1_000_000_000_000_000_000;

/// The number pi at the finer scale.
pub const PI_WIDE: i128 = 3_141_592_653_589_793_238;

/// Half of pi at the finer scale, less one unit: added to an angle before
/// it is divided by pi, so that a right angle itself holds no half turn.
pub const HALF_PI_WIDE: i128 = 1_570_796_326_794_896_618;

/// Degrees in half a turn, in raw units.
pub const HALF_TURN: i128 = 180_000_000_000;

/// Terms of the sine and cosine series that are summed.
pub const SERIES_TERMS: u32 = 12;

/// More half turns than any angle of the range holds.
pub const TURNS_BOUND: i128 = 4_000_000_000;

/// More, at the finer scale, than any angle of the range.
pub const ANGLE_BOUND: i128 = 10_000_000_000_000_000_000_000_000_000;

/// Clamps `v` into `-bound ..= bound`.
pub open spec fn clamp(v: int, bound: int) -> int {
    if v > bound {
        bound
    } else if v < -bound {
        -bound
    } else {
        v
    }
}

/// Quotient of `n` by a positive `d`, rounded to the nearest integer,
/// halves away from zero.
pub open spec fn round_quot(n: int, d: int) -> int
    recommends
        d > 0,
{
    if n >= 0 {
        (2 * n + d) / (2 * d)
    } else {
        -((2 * (-n) + d) / (2 * d))
    }
}

/// The angle in radians at the finer scale: pi times the degrees, over 180.
pub open spec fn wide_of_degrees(degrees: Fixed) -> int {
    quot(degrees@ * PI_WIDE, HALF_TURN as int)
}

/// An angle in radians at the finer scale.
pub open spec fn wide_of_radians(x: Fixed) -> int {
    x@ * SCALE
}

/// The whole number of half turns nearest to an angle; the one nearer to
/// zero where two are equally near.
pub open spec fn half_turns(xw: int) -> int {
    clamp(
        quot(
            xw + (if xw >= 0 {
                HALF_PI_WIDE as int
            } else {
                -HALF_PI_WIDE
            }),
            PI_WIDE as int,
        ),
        TURNS_BOUND as int,
    )
}

/// What is left of an angle without its half turns: between a right angle
/// to either side.
pub open spec fn reduced(xw: int) -> int {
    clamp(xw - half_turns(xw) * PI_WIDE, PI_WIDE as int)
}

/// Whether a number is odd.
pub open spec fn is_odd(k: int) -> bool {
    quot(k, 2) * 2 != k
}

/// The nested form `1 - y/(f(f+1)) * (1 - y/((f+2)(f+3)) * (...))` with
/// `terms` levels, at the finer scale: the cosine series of `x` for
/// `y = x^2` and `f = 1`, and the sine series over `x` for `f = 2`.
pub open spec fn series(y: int, first: int, terms: nat) -> int
    decreases terms,
{
    if terms == 0 {
        WIDE as int
    } else {
        clamp(
            WIDE - quot(
                quot(y, first * (first + 1)) * series(y, first + 2, (terms - 1) as nat),
                WIDE as int,
            ),
            4 * WIDE,
        )
    }
}

/// The cosine of an angle, both at the finer scale: the series of the
/// reduced angle, negated for an odd number of half turns.
#[verifier::opaque]
pub open spec fn cos_wide(xw: int) -> int {
    let r = reduced(xw);
    let c = series(quot(r * r, WIDE as int), 1, SERIES_TERMS as nat);
    if is_odd(half_turns(xw)) {
        -c
    } else {
        c
    }
}

/// The sine of an angle, both at the finer scale.
#[verifier::opaque]
pub open spec fn sin_wide(xw: int) -> int {
    let r = reduced(xw);
    let s = quot(r * series(quot(r * r, WIDE as int), 2, SERIES_TERMS as nat), WIDE as int);
    if is_odd(half_turns(xw)) {
        -s
    } else {
        s
    }
}

/// The tangent of an angle at the finer scale: the sine over the cosine,
/// rounded to the nearest raw unit; where the cosine is zero, the limit of
/// the range with the sign of the sine.
pub open spec fn tan_wide(xw: int) -> Fixed {
    let s = sin_wide(xw);
    let c = cos_wide(xw);
    if c > 0 {
        Fixed::of(round_quot(s * SCALE, c))
    } else if c < 0 {
        Fixed::of(round_quot(-s * SCALE, -c))
    } else if s < 0 {
        Fixed::of(-LIMIT)
    } else {
        Fixed::of(LIMIT as int)
    }
}

/// The angle in radians, to the nearest raw unit.
pub open spec fn to_radians_spec(degrees: Fixed) -> Fixed {
    Fixed::of(round_quot(wide_of_degrees(degrees), SCALE as int))
}

/// The cosine of an angle in radians, to the nearest raw unit of the
/// series.
pub open spec fn cos_spec(x: Fixed) -> Fixed {
    Fixed::of(round_quot(cos_wide(wide_of_radians(x)), SCALE as int))
}

/// The sine of an angle in radians, to the nearest raw unit of the series.
pub open spec fn sin_spec(x: Fixed) -> Fixed {
    Fixed::of(round_quot(sin_wide(wide_of_radians(x)), SCALE as int))
}

/// The tangent of an angle in radians.
pub open spec fn tan_spec(x: Fixed) -> Fixed {
    tan_wide(wide_of_radians(x))
}

/// The tangent of an angle in degrees.
pub open spec fn tan_degrees_spec(degrees: Fixed) -> Fixed {
    tan_wide(wide_of_degrees(degrees))
}

fn wide_clamp(v: i128, bound: i128) -> (r: i128)
    requires
        0 <= bound,
    ensures
        r == clamp(v as int, bound as int),
        -bound <= r <= bound,
{
    if v > bound {
        bound
    } else if v < -bound {
        -bound
    } else {
        v
    }
}

fn wide_quot(n: i128, d: i128) -> (q: i128)
    requires
        d > 0,
        n > i128::MIN,
    ensures
        q == quot(n as int, d as int),
        n >= 0 ==> 0 <= q <= n,
        n < 0 ==> n <= q <= 0,
{
    if n >= 0 {
        proof {
            assert(0 <= n / d <= n) by (nonlinear_arith)
                requires
                    n >= 0,
                    d >= 1,
            ;
        }
        n / d
    } else {
        let m: i128 = -n;
        proof {
            assert(0 <= m / d <= m) by (nonlinear_arith)
                requires
                    m >= 0,
                    d >= 1,
            ;
        }
        -(m / d)
    }
}

fn wide_round(n: i128, d: i128) -> (q: i128)
    requires
        d > 0,
        d <= 0x1000_0000_0000_0000_0000_0000_0000_0000,
        -0x1000_0000_0000_0000_0000_0000_0000_0000 <= n <= 0x1000_0000_0000_0000_0000_0000_0000_0000,
    ensures
        q == round_quot(n as int, d as int),
{
    if n >= 0 {
        let top: i128 = 2 * n + d;
        let den: i128 = 2 * d;
        proof {
            assert(0 <= top / den <= top) by (nonlinear_arith)
                requires
                    top >= 0,
                    den >= 1,
            ;
        }
        top / den
    } else {
        let top: i128 = 2 * (-n) + d;
        let den: i128 = 2 * d;
        proof {
            assert(0 <= top / den <= top) by (nonlinear_arith)
                requires
                    top >= 0,
                    den >= 1,
            ;
        }
        -(top / den)
    }
}

fn degrees_to_wide(degrees: Fixed) -> (xw: i128)
    ensures
        xw == wide_of_degrees(degrees),
        -ANGLE_BOUND <= xw <= ANGLE_BOUND,
{
    let d: i128 = degrees.to_raw() as i128;
    proof {
        assert(-30_000_000_000_000_000_000_000_000_000_000_000_000 <= d * PI_WIDE
            <= 30_000_000_000_000_000_000_000_000_000_000_000_000) by (nonlinear_arith)
            requires
                -LIMIT <= d <= LIMIT,
        ;
    }
    let n: i128 = d * PI_WIDE;
    let q: i128 = wide_quot(n, HALF_TURN);
    proof {
        let m = if n >= 0 {
            n as int
        } else {
            -n
        };
        assert(m / 180_000_000_000 <= 10_000_000_000_000_000_000_000_000_000) by (nonlinear_arith)
            requires
                0 <= m <= 30_000_000_000_000_000_000_000_000_000_000_000_000,
        ;
    }
    q
}

fn radians_to_wide(x: Fixed) -> (xw: i128)
    ensures
        xw == wide_of_radians(x),
        -ANGLE_BOUND <= xw <= ANGLE_BOUND,
{
    let r: i128 = x.to_raw() as i128;
    proof {
        assert(-ANGLE_BOUND <= r * SCALE <= ANGLE_BOUND) by (nonlinear_arith)
            requires
                -LIMIT <= r <= LIMIT,
        ;
    }
    r * (SCALE as i128)
}

fn sum_series(y: i128, first: u32) -> (r: i128)
    requires
        0 <= y <= 10_000_000_000_000_000_000,
        1 <= first <= 2,
    ensures
        r == series(y as int, first as int, SERIES_TERMS as nat),
        -4 * WIDE <= r <= 4 * WIDE,
{
    let mut acc: i128 = WIDE;
    let mut i: u32 = SERIES_TERMS;
    while i > 0
        invariant
            i <= SERIES_TERMS,
            1 <= first <= 2,
            0 <= y <= 10_000_000_000_000_000_000,
            -4 * WIDE <= acc <= 4 * WIDE,
            acc == series(y as int, first + 2 * i, (SERIES_TERMS - i) as nat),
        decreases i,
    {
        i = i - 1;
        let f: u32 = first + 2 * i;
        proof {
            assert(2 <= f * (f + 1) <= 31 * 32) by (nonlinear_arith)
                requires
                    1 <= f <= 31,
            ;
        }
        let q: i128 = wide_quot(y, (f * (f + 1)) as i128);
        proof {
            assert(-40_000_000_000_000_000_000_000_000_000_000_000_000 <= q * acc
                <= 40_000_000_000_000_000_000_000_000_000_000_000_000) by (nonlinear_arith)
                requires
                    0 <= q <= 10_000_000_000_000_000_000,
                    -4_000_000_000_000_000_000 <= acc <= 4_000_000_000_000_000_000,
            ;
        }
        let step: i128 = wide_quot(q * acc, WIDE);
        acc = wide_clamp(WIDE - step, 4 * WIDE);
    }
    acc
}

/// The sine and the cosine of an angle, all at the finer scale.
fn sin_cos_wide(xw: i128) -> (r: (i128, i128))
    requires
        -ANGLE_BOUND <= xw <= ANGLE_BOUND,
    ensures
        r.0 == sin_wide(xw as int),
        r.1 == cos_wide(xw as int),
        -13_000_000_000_000_000_000 <= r.0 <= 13_000_000_000_000_000_000,
        -4 * WIDE <= r.1 <= 4 * WIDE,
{
    proof {
        reveal(sin_wide);
        reveal(cos_wide);
    }
    let shifted: i128 = if xw >= 0 {
        xw + HALF_PI_WIDE
    } else {
        xw - HALF_PI_WIDE
    };
    let k: i128 = wide_clamp(wide_quot(shifted, PI_WIDE), TURNS_BOUND);
    proof {
        assert(-13_000_000_000_000_000_000_000_000_000 <= k * PI_WIDE
            <= 13_000_000_000_000_000_000_000_000_000) by (nonlinear_arith)
            requires
                -4_000_000_000 <= k <= 4_000_000_000,
        ;
    }
    let r: i128 = wide_clamp(xw - k * PI_WIDE, PI_WIDE);
    proof {
        assert(0 <= r * r <= 10_000_000_000_000_000_000_000_000_000_000_000_000) by (nonlinear_arith)
            requires
                -3_141_592_653_589_793_238 <= r <= 3_141_592_653_589_793_238,
        ;
    }
    let y: i128 = wide_quot(r * r, WIDE);
    let c: i128 = sum_series(y, 1);
    let t: i128 = sum_series(y, 2);
    proof {
        assert(-13_000_000_000_000_000_000_000_000_000_000_000_000 <= r * t
            <= 13_000_000_000_000_000_000_000_000_000_000_000_000) by (nonlinear_arith)
            requires
                -3_141_592_653_589_793_238 <= r <= 3_141_592_653_589_793_238,
                -4_000_000_000_000_000_000 <= t <= 4_000_000_000_000_000_000,
        ;
    }
    let s: i128 = wide_quot(r * t, WIDE);
    let odd: bool = wide_quot(k, 2) * 2 != k;
    if odd {
        (-s, -c)
    } else {
        (s, c)
    }
}

fn tan_of_wide(xw: i128) -> (r: Fixed)
    requires
        -ANGLE_BOUND <= xw <= ANGLE_BOUND,
    ensures
        r == tan_wide(xw as int),
{
    let (s, c) = sin_cos_wide(xw);
    proof {
        assert(-13_000_000_000_000_000_000_000_000_000 <= s * SCALE
            <= 13_000_000_000_000_000_000_000_000_000) by (nonlinear_arith)
            requires
                -13_000_000_000_000_000_000 <= s <= 13_000_000_000_000_000_000,
        ;
    }
    if c > 0 {
        Fixed::saturate(wide_round(s * (SCALE as i128), c))
    } else if c < 0 {
        Fixed::saturate(wide_round(-s * (SCALE as i128), -c))
    } else if s < 0 {
        Fixed::max_value().neg()
    } else {
        Fixed::max_value()
    }
}

/// Converts degrees to radians.
pub fn to_radians(degrees: Fixed) -> (r: Fixed)
    ensures
        r == to_radians_spec(degrees),
{
    Fixed::saturate(wide_round(degrees_to_wide(degrees), SCALE as i128))
}

/// The cosine of an angle in radians.
pub fn cos(x: Fixed) -> (r: Fixed)
    ensures
        r == cos_spec(x),
{
    let (s, c) = sin_cos_wide(radians_to_wide(x));
    Fixed::saturate(wide_round(c, SCALE as i128))
}

/// The sine of an angle in radians.
pub fn sin(x: Fixed) -> (r: Fixed)
    ensures
        r == sin_spec(x),
{
    let (s, c) = sin_cos_wide(radians_to_wide(x));
    Fixed::saturate(wide_round(s, SCALE as i128))
}

/// The tangent of an angle in radians.
pub fn tan(x: Fixed) -> (r: Fixed)
    ensures
        r == tan_spec(x),
{
    tan_of_wide(radians_to_wide(x))
}

/// The tangent of an angle in degrees.
pub fn tan_degrees(degrees: Fixed) -> (r: Fixed)
    ensures
        r == tan_degrees_spec(degrees),
{
    tan_of_wide(degrees_to_wide(degrees))
}

} // verus!
