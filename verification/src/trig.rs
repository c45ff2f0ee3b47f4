//! Sine and cosine of an angle given in millionths of a degree.
//!
//! The values are integers that count units of `1 / TRIG_ONE`. An angle is
//! first reduced to one turn, then to a quarter turn, then to an eighth, on
//! which the sine is summed from its power series. The sine of the
//! complement, and with it the cosine, is the square root of what the square
//! of the sine leaves of one. The reduction is exact, so the values at the
//! multiples of a quarter turn hold exactly, and the squares of sine and
//! cosine add up to one within two units of the scale.

use vstd::prelude::*;
use vstd::arithmetic::div_mod::lemma_fundamental_div_mod_converse;
use vstd::arithmetic::div_mod::lemma_fundamental_div_mod;
use crate::fixed::{integer_sqrt, is_sqrt, lemma_sqrt_exists, lemma_sqrt_unique, spec_sqrt};

verus! {

/// The integer that stands for the value one.
pub const TRIG_ONE: i64 = 1_000_000_000_000_000_000;

/// A full turn, in millionths of a degree.
pub const FULL_TURN: i64 = 360_000_000;

/// Half a turn.
pub const HALF_TURN: i64 = 180_000_000;

/// A quarter of a turn.
pub const QUARTER_TURN: i64 = 90_000_000;

/// An eighth of a turn.
pub const EIGHTH_TURN: i64 = 45_000_000;

/// The number pi, in units of `1 / TRIG_ONE`.
pub const PI_SCALED: i64 = 3_141_592_653_589_793_238;

/// The sine of an eighth of a turn, half the square root of two.
pub const SIN_EIGHTH_TURN: i64 = 707_106_781_186_547_524;

/// The product of two scaled values, itself scaled, rounded down.
pub open spec fn scaled_product(a: int, b: int) -> int {
    a * b / (TRIG_ONE as int)
}

/// An angle of at most an eighth of a turn, in radians, scaled.
pub open spec fn radians(angle: int) -> int {
    angle * PI_SCALED / (HALF_TURN as int)
}

/// One step of a power series in nested form: `1 - square * inner / divisor`.
pub open spec fn series_step(square: int, inner: int, divisor: int) -> int {
    TRIG_ONE - scaled_product(square, inner) / divisor
}

/// The sine of `x` radians by its power series up to the term of degree 15,
/// `x (1 - x^2/(2*3) (1 - x^2/(4*5) (1 - ...)))`.
#[verifier::opaque]
pub open spec fn sine_series(x: int) -> int {
    let square = scaled_product(x, x);
    let t7 = series_step(square, TRIG_ONE as int, 210);
    let t6 = series_step(square, t7, 156);
    let t5 = series_step(square, t6, 110);
    let t4 = series_step(square, t5, 72);
    let t3 = series_step(square, t4, 42);
    let t2 = series_step(square, t3, 20);
    let t1 = series_step(square, t2, 6);
    scaled_product(x, t1)
}

/// The sine of an angle of at most an eighth of a turn: the series, and at
/// the eighth itself the known value.
pub open spec fn eighth_sine(angle: int) -> int {
    if angle == EIGHTH_TURN {
        SIN_EIGHTH_TURN as int
    } else {
        sine_series(radians(angle))
    }
}

/// The sine of the complement of an angle whose sine is `sine`: the square
/// root of one less the square of `sine`.
pub open spec fn co_sine(sine: int) -> int {
    spec_sqrt(TRIG_ONE * TRIG_ONE - sine * sine)
}

/// The sine of an angle in the first quarter turn, both ends included. Up to
/// an eighth of a turn it is `eighth_sine`; above, the `co_sine` of that of
/// the complement.
pub open spec fn quadrant_sine(angle: int) -> int {
    if angle <= EIGHTH_TURN {
        eighth_sine(angle)
    } else {
        co_sine(eighth_sine(QUARTER_TURN - angle))
    }
}

/// The sine of an angle within one turn, from the sine on the first quarter:
/// the second quarter mirrors the first, the second half negates the first.
pub open spec fn turn_sine(turn: int) -> int {
    let quarter = turn / (QUARTER_TURN as int);
    let rest = turn % (QUARTER_TURN as int);
    if quarter == 0 {
        quadrant_sine(rest)
    } else if quarter == 1 {
        quadrant_sine(QUARTER_TURN - rest)
    } else if quarter == 2 {
        -quadrant_sine(rest)
    } else {
        -quadrant_sine(QUARTER_TURN - rest)
    }
}

/// The sine of any angle.
pub open spec fn spec_sin(angle: int) -> int {
    turn_sine(angle % (FULL_TURN as int))
}

/// The cosine of any angle: the sine a quarter turn ahead.
pub open spec fn spec_cos(angle: int) -> int {
    spec_sin(angle + QUARTER_TURN)
}

/// How far the squares of a sine and a cosine may fall short of one.
pub open spec fn square_slack() -> int {
    2 * TRIG_ONE + 1
}

/// The scaled product of two values between zero and one lies between zero
/// and either of them.
pub proof fn lemma_scaled_product_bounds(a: int, b: int)
    requires
        0 <= a <= TRIG_ONE,
        0 <= b <= TRIG_ONE,
    ensures
        0 <= scaled_product(a, b) <= a,
        scaled_product(a, b) <= b,
{
    let one = TRIG_ONE as int;
    assert(0 <= a * b <= a * one && a * b <= one * b) by (nonlinear_arith)
        requires
            0 <= a <= one,
            0 <= b <= one,
    ;
    lemma_fundamental_div_mod(a * b, one);
    let q = a * b / one;
    assert(0 <= q <= a && q <= b) by (nonlinear_arith)
        requires
            one > 0,
            a * b == one * q + (a * b) % one,
            0 <= (a * b) % one < one,
            0 <= a * b <= a * one,
            a * b <= one * b,
    ;
}

/// A step of a series stays between zero and one.
pub proof fn lemma_series_step_bounds(square: int, inner: int, divisor: int)
    requires
        0 <= square <= TRIG_ONE,
        0 <= inner <= TRIG_ONE,
        divisor >= 1,
    ensures
        0 <= series_step(square, inner, divisor) <= TRIG_ONE,
{
    lemma_scaled_product_bounds(square, inner);
    let p = scaled_product(square, inner);
    lemma_fundamental_div_mod(p, divisor);
    assert(0 <= p / divisor <= p) by (nonlinear_arith)
        requires
            divisor >= 1,
            p >= 0,
            p == divisor * (p / divisor) + p % divisor,
            0 <= p % divisor < divisor,
    ;
}

/// On the first eighth of a turn the sine lies between zero and one, and at
/// the angle zero it is zero.
pub proof fn lemma_eighth_sine(angle: int)
    requires
        0 <= angle <= EIGHTH_TURN,
    ensures
        0 <= eighth_sine(angle) <= TRIG_ONE,
        angle == 0 ==> eighth_sine(angle) == 0,
{
    reveal(sine_series);
    let x = radians(angle);
    assert(0 <= x <= TRIG_ONE);
    lemma_scaled_product_bounds(x, x);
    let square = scaled_product(x, x);
    let one = TRIG_ONE as int;
    lemma_series_step_bounds(square, one, 210);
    let s7 = series_step(square, one, 210);
    lemma_series_step_bounds(square, s7, 156);
    let s6 = series_step(square, s7, 156);
    lemma_series_step_bounds(square, s6, 110);
    let s5 = series_step(square, s6, 110);
    lemma_series_step_bounds(square, s5, 72);
    let s4 = series_step(square, s5, 72);
    lemma_series_step_bounds(square, s4, 42);
    let s3 = series_step(square, s4, 42);
    lemma_series_step_bounds(square, s3, 20);
    let s2 = series_step(square, s3, 20);
    lemma_series_step_bounds(square, s2, 6);
    let s1 = series_step(square, s2, 6);
    lemma_scaled_product_bounds(x, s1);
    if angle == 0 {
        assert(x == 0);
        assert(0 * s1 == 0);
        assert(scaled_product(0, s1) == 0);
    }
}

/// The `co_sine` of a sine between zero and one lies between zero and one,
/// is one for the sine zero, and its square and the square of the sine add up
/// to one within `square_slack`.
pub proof fn lemma_co_sine(sine: int)
    requires
        0 <= sine <= TRIG_ONE,
    ensures
        0 <= co_sine(sine) <= TRIG_ONE,
        sine == 0 ==> co_sine(sine) == TRIG_ONE,
        -square_slack() <= sine * sine + co_sine(sine) * co_sine(sine) - TRIG_ONE * TRIG_ONE <= 0,
{
    let one = TRIG_ONE as int;
    let left = one * one - sine * sine;
    assert(0 <= left <= one * one) by (nonlinear_arith)
        requires
            0 <= sine <= one,
            left == one * one - sine * sine,
    ;
    lemma_sqrt_exists(left);
    let root = co_sine(sine);
    assert(is_sqrt(left, root));
    assert(root <= one) by (nonlinear_arith)
        requires
            0 <= root,
            root * root <= one * one,
            one > 0,
    ;
    assert((root + 1) * (root + 1) == root * root + 2 * root + 1) by (nonlinear_arith);
    if sine == 0 {
        assert(sine * sine == 0);
        assert(is_sqrt(one * one, one)) by (nonlinear_arith)
            requires
                one > 0,
        ;
        lemma_sqrt_unique(one * one, one, root);
    }
}

/// The sine on the first quarter turn lies between zero and one, and takes
/// exactly these two values at its ends. Its square and the square of the
/// sine of the complement add up to one within `square_slack`.
pub proof fn lemma_quadrant_sine(angle: int)
    requires
        0 <= angle <= QUARTER_TURN,
    ensures
        0 <= quadrant_sine(angle) <= TRIG_ONE,
        angle == 0 ==> quadrant_sine(angle) == 0,
        angle == QUARTER_TURN ==> quadrant_sine(angle) == TRIG_ONE,
        -square_slack() <= quadrant_sine(angle) * quadrant_sine(angle) + quadrant_sine(
            QUARTER_TURN - angle,
        ) * quadrant_sine(QUARTER_TURN - angle) - TRIG_ONE * TRIG_ONE <= 0,
{
    let near = if angle <= EIGHTH_TURN {
        angle
    } else {
        QUARTER_TURN - angle
    };
    lemma_eighth_sine(near);
    let sine = eighth_sine(near);
    lemma_co_sine(sine);
    if angle == EIGHTH_TURN {
        let half = SIN_EIGHTH_TURN as int;
        assert(half * half == 499_999_999_999_999_999_433_120_466_710_530_576) by (nonlinear_arith)
            requires
                half == 707_106_781_186_547_524,
        ;
        assert(TRIG_ONE * TRIG_ONE == 1_000_000_000_000_000_000_000_000_000_000_000_000)
            by (nonlinear_arith);
    } else if angle < EIGHTH_TURN {
        assert(quadrant_sine(angle) == sine);
        assert(quadrant_sine(QUARTER_TURN - angle) == co_sine(sine));
    } else {
        assert(quadrant_sine(angle) == co_sine(sine));
        assert(quadrant_sine(QUARTER_TURN - angle) == sine);
    }
}

/// Sine and cosine of an angle, from the sine `near` of what the angle
/// exceeds a multiple of a quarter turn by, and the sine `far` of the
/// complement of that: they are `near` and `far` in one of the four ways in
/// which a quarter turn arranges them.
pub proof fn lemma_sin_cos_in_quadrant(angle: int)
    ensures
        ({
            let rest = (angle % (FULL_TURN as int)) % (QUARTER_TURN as int);
            let near = quadrant_sine(rest);
            let far = quadrant_sine(QUARTER_TURN - rest);
            let s = spec_sin(angle);
            let c = spec_cos(angle);
            ||| s == near && c == far
            ||| s == far && c == -near
            ||| s == -near && c == -far
            ||| s == -far && c == near
        }),
{
    let turn = angle % (FULL_TURN as int);
    let quarter = turn / (QUARTER_TURN as int);
    let rest = turn % (QUARTER_TURN as int);
    let ahead = (angle + QUARTER_TURN) % (FULL_TURN as int);
    assert(0 <= quarter <= 3);
    if quarter < 3 {
        assert(ahead == turn + QUARTER_TURN);
        assert(ahead / (QUARTER_TURN as int) == quarter + 1);
        assert(ahead % (QUARTER_TURN as int) == rest);
    } else {
        assert(ahead == turn + QUARTER_TURN - FULL_TURN);
        assert(ahead / (QUARTER_TURN as int) == 0);
        assert(ahead % (QUARTER_TURN as int) == rest);
    }
}

/// Sine and cosine lie between minus one and one.
pub proof fn lemma_sin_cos_bounds(angle: int)
    ensures
        -TRIG_ONE <= spec_sin(angle) <= TRIG_ONE,
        -TRIG_ONE <= spec_cos(angle) <= TRIG_ONE,
{
    let rest = (angle % (FULL_TURN as int)) % (QUARTER_TURN as int);
    lemma_sin_cos_in_quadrant(angle);
    lemma_quadrant_sine(rest);
    lemma_quadrant_sine(QUARTER_TURN - rest);
}

/// At the multiples of a quarter turn sine and cosine are exactly 0, 1 or -1.
pub proof fn lemma_sin_cos_at_quarter_turns(angle: int)
    requires
        angle % (QUARTER_TURN as int) == 0,
    ensures
        angle % (FULL_TURN as int) == 0 ==> spec_sin(angle) == 0 && spec_cos(angle) == TRIG_ONE,
        angle % (FULL_TURN as int) == QUARTER_TURN ==> spec_sin(angle) == TRIG_ONE && spec_cos(
            angle,
        ) == 0,
        angle % (FULL_TURN as int) == HALF_TURN ==> spec_sin(angle) == 0 && spec_cos(angle)
            == -TRIG_ONE,
        angle % (FULL_TURN as int) == HALF_TURN + QUARTER_TURN ==> spec_sin(angle) == -TRIG_ONE
            && spec_cos(angle) == 0,
{
    lemma_quadrant_sine(0);
    lemma_quadrant_sine(QUARTER_TURN as int);
}

/// Within a turn, half a turn ahead the sine changes its sign.
proof fn lemma_turn_sine_half_turn(turn: int)
    requires
        0 <= turn < HALF_TURN,
    ensures
        turn_sine(turn + HALF_TURN) == -turn_sine(turn),
{
    let quarter = turn / (QUARTER_TURN as int);
    let rest = turn % (QUARTER_TURN as int);
    assert(quarter == 0 || quarter == 1);
    assert((turn + HALF_TURN) / (QUARTER_TURN as int) == quarter + 2);
    assert((turn + HALF_TURN) % (QUARTER_TURN as int) == rest);
}

/// Within a turn, the sine of the angle that completes the turn is the
/// negated sine.
proof fn lemma_turn_sine_reflected(turn: int)
    requires
        0 < turn < FULL_TURN,
    ensures
        turn_sine(FULL_TURN - turn) == -turn_sine(turn),
        turn_sine(0) == 0,
{
    lemma_quadrant_sine(0);
    let quarter = turn / (QUARTER_TURN as int);
    let rest = turn % (QUARTER_TURN as int);
    assert(0 <= quarter <= 3);
    assert(0int / (QUARTER_TURN as int) == 0 && 0int % (QUARTER_TURN as int) == 0);
    if rest == 0 {
        assert((FULL_TURN - turn) / (QUARTER_TURN as int) == 4 - quarter);
        assert((FULL_TURN - turn) % (QUARTER_TURN as int) == 0);
    } else {
        assert((FULL_TURN - turn) / (QUARTER_TURN as int) == 3 - quarter);
        assert((FULL_TURN - turn) % (QUARTER_TURN as int) == QUARTER_TURN - rest);
    }
}

/// Half a turn ahead the sine changes its sign.
proof fn lemma_sin_half_turn(angle: int)
    ensures
        spec_sin(angle + HALF_TURN) == -spec_sin(angle),
{
    let turn = angle % (FULL_TURN as int);
    if turn < HALF_TURN {
        assert((angle + HALF_TURN) % (FULL_TURN as int) == turn + HALF_TURN);
        lemma_turn_sine_half_turn(turn);
    } else {
        assert((angle + HALF_TURN) % (FULL_TURN as int) == turn - HALF_TURN);
        lemma_turn_sine_half_turn(turn - HALF_TURN);
    }
}

/// The sine is odd.
proof fn lemma_sin_odd(angle: int)
    ensures
        spec_sin(-angle) == -spec_sin(angle),
{
    let turn = angle % (FULL_TURN as int);
    if turn == 0 {
        assert((-angle) % (FULL_TURN as int) == 0);
        lemma_turn_sine_reflected(1);
    } else {
        assert((-angle) % (FULL_TURN as int) == FULL_TURN - turn);
        lemma_turn_sine_reflected(turn);
    }
}

/// The sine is odd and the cosine is even: the opposite angle turns the
/// other way.
pub proof fn lemma_sin_odd_cos_even(angle: int)
    ensures
        spec_sin(-angle) == -spec_sin(angle),
        spec_cos(-angle) == spec_cos(angle),
{
    lemma_sin_odd(angle);
    lemma_sin_odd(angle - QUARTER_TURN);
    lemma_sin_half_turn(angle - QUARTER_TURN);
}

/// The squares of the sine and the cosine of an angle add up to one, within
/// `square_slack`; and one of the two is larger than a half in magnitude.
pub proof fn lemma_squares_add_up(angle: int)
    ensures
        -square_slack() <= spec_sin(angle) * spec_sin(angle) + spec_cos(angle) * spec_cos(angle)
            - TRIG_ONE * TRIG_ONE <= 0,
        2 * spec_sin(angle) > TRIG_ONE || 2 * spec_sin(angle) < -TRIG_ONE || 2 * spec_cos(angle)
            > TRIG_ONE || 2 * spec_cos(angle) < -TRIG_ONE,
{
    let rest = (angle % (FULL_TURN as int)) % (QUARTER_TURN as int);
    let near = quadrant_sine(rest);
    let far = quadrant_sine(QUARTER_TURN - rest);
    let s = spec_sin(angle);
    let c = spec_cos(angle);
    let one = TRIG_ONE as int;
    lemma_sin_cos_in_quadrant(angle);
    lemma_quadrant_sine(rest);
    assert(s * s + c * c == near * near + far * far) by (nonlinear_arith)
        requires
            (s == near && c == far) || (s == far && c == -near) || (s == -near && c == -far) || (s
                == -far && c == near),
    ;
    assert(2 * s > one || 2 * s < -one || 2 * c > one || 2 * c < -one) by (nonlinear_arith)
        requires
            s * s + c * c >= one * one - 2 * one - 1,
            one == 1_000_000_000_000_000_000,
    {
        if -one <= 2 * s <= one && -one <= 2 * c <= one {
            assert(4 * (s * s) <= one * one);
            assert(4 * (c * c) <= one * one);
        }
    }
}

/// One step of a series.
fn eval_series_step(square: i128, inner: i128, divisor: i128) -> (r: i128)
    requires
        0 <= square <= TRIG_ONE,
        0 <= inner <= TRIG_ONE,
        divisor >= 1,
    ensures
        r == series_step(square as int, inner as int, divisor as int),
        0 <= r <= TRIG_ONE,
{
    proof {
        lemma_series_step_bounds(square as int, inner as int, divisor as int);
        lemma_unit_product_fits(square as int, inner as int);
    }
    TRIG_ONE as i128 - (square * inner / TRIG_ONE as i128) / divisor
}

/// The product of two values between zero and one fits the wide integers.
proof fn lemma_unit_product_fits(a: int, b: int)
    requires
        0 <= a <= TRIG_ONE,
        0 <= b <= TRIG_ONE,
    ensures
        0 <= a * b <= 1_000_000_000_000_000_000_000_000_000_000_000_000,
{
    assert(0 <= a * b <= 1_000_000_000_000_000_000 * 1_000_000_000_000_000_000)
        by (nonlinear_arith)
        requires
            0 <= a <= 1_000_000_000_000_000_000,
            0 <= b <= 1_000_000_000_000_000_000,
    ;
}

/// The sine series at an angle of at most an eighth of a turn.
fn eval_sine_series(angle: i64) -> (r: i64)
    requires
        0 <= angle <= EIGHTH_TURN,
    ensures
        r == sine_series(radians(angle as int)),
{
    let one: i128 = TRIG_ONE as i128;
    assert(0 <= angle * PI_SCALED <= 45_000_000 * 3_141_592_653_589_793_238) by (nonlinear_arith)
        requires
            0 <= angle <= 45_000_000,
            PI_SCALED == 3_141_592_653_589_793_238,
    ;
    let x: i128 = angle as i128 * PI_SCALED as i128 / HALF_TURN as i128;
    proof {
        reveal(sine_series);
        assert(0 <= x <= TRIG_ONE);
        lemma_unit_product_fits(x as int, x as int);
        lemma_scaled_product_bounds(x as int, x as int);
    }
    let square: i128 = x * x / one;
    let s7 = eval_series_step(square, one, 210);
    let s6 = eval_series_step(square, s7, 156);
    let s5 = eval_series_step(square, s6, 110);
    let s4 = eval_series_step(square, s5, 72);
    let s3 = eval_series_step(square, s4, 42);
    let s2 = eval_series_step(square, s3, 20);
    let s1 = eval_series_step(square, s2, 6);
    proof {
        lemma_unit_product_fits(x as int, s1 as int);
        lemma_scaled_product_bounds(x as int, s1 as int);
    }
    let sine: i128 = x * s1 / one;
    sine as i64
}

/// The sine on the first eighth of a turn.
fn eval_eighth_sine(angle: i64) -> (r: i64)
    requires
        0 <= angle <= EIGHTH_TURN,
    ensures
        r == eighth_sine(angle as int),
        0 <= r <= TRIG_ONE,
{
    proof {
        lemma_eighth_sine(angle as int);
    }
    if angle == EIGHTH_TURN {
        SIN_EIGHTH_TURN
    } else {
        eval_sine_series(angle)
    }
}

/// The sine on the first quarter turn.
fn eval_quadrant_sine(angle: i64) -> (r: i64)
    requires
        0 <= angle <= QUARTER_TURN,
    ensures
        r == quadrant_sine(angle as int),
        0 <= r <= TRIG_ONE,
{
    proof {
        lemma_quadrant_sine(angle as int);
    }
    if angle <= EIGHTH_TURN {
        eval_eighth_sine(angle)
    } else {
        let sine: i128 = eval_eighth_sine(QUARTER_TURN - angle) as i128;
        let one: i128 = TRIG_ONE as i128;
        proof {
            lemma_unit_product_fits(sine as int, sine as int);
            lemma_unit_product_fits(one as int, one as int);
            assert(sine * sine <= one * one) by (nonlinear_arith)
                requires
                    0 <= sine <= one,
            ;
        }
        let root: u128 = integer_sqrt((one * one - sine * sine) as u128);
        root as i64
    }
}

/// The sine within one turn.
fn eval_turn_sine(turn: i64) -> (r: i64)
    requires
        0 <= turn < FULL_TURN,
    ensures
        r == turn_sine(turn as int),
        -TRIG_ONE <= r <= TRIG_ONE,
{
    let quarter: i64 = turn / QUARTER_TURN;
    let rest: i64 = turn % QUARTER_TURN;
    if quarter == 0 {
        eval_quadrant_sine(rest)
    } else if quarter == 1 {
        eval_quadrant_sine(QUARTER_TURN - rest)
    } else if quarter == 2 {
        -eval_quadrant_sine(rest)
    } else {
        -eval_quadrant_sine(QUARTER_TURN - rest)
    }
}

/// Reduces an angle to one turn.
fn reduce(angle: i128) -> (turn: i64)
    requires
        i64::MIN <= angle <= i64::MAX + QUARTER_TURN,
    ensures
        turn == angle as int % (FULL_TURN as int),
        0 <= turn < FULL_TURN,
{
    let full: i128 = FULL_TURN as i128;
    if angle >= 0 {
        (angle % full) as i64
    } else {
        let back: i128 = (-angle) % full;
        proof {
            lemma_fundamental_div_mod(-angle as int, full as int);
            let laps = (-angle as int) / (full as int);
            assert(full * (-laps - 1) == -(full * laps) - full) by (nonlinear_arith);
            assert(full * (-laps) == -(full * laps)) by (nonlinear_arith);
            if back == 0 {
                lemma_fundamental_div_mod_converse(angle as int, full as int, -laps, 0);
            } else {
                lemma_fundamental_div_mod_converse(
                    angle as int,
                    full as int,
                    -laps - 1,
                    full - back,
                );
            }
        }
        if back == 0 {
            0
        } else {
            (full - back) as i64
        }
    }
}

/// The sine of an angle in millionths of a degree.
pub fn sin(angle: i64) -> (r: i64)
    ensures
        r == spec_sin(angle as int),
        -TRIG_ONE <= r <= TRIG_ONE,
{
    eval_turn_sine(reduce(angle as i128))
}

/// The cosine of an angle in millionths of a degree.
pub fn cos(angle: i64) -> (r: i64)
    ensures
        r == spec_cos(angle as int),
        -TRIG_ONE <= r <= TRIG_ONE,
{
    eval_turn_sine(reduce(angle as i128 + QUARTER_TURN as i128))
}

} // verus!
