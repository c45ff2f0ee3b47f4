//! Fixed-point arithmetic.
//!
//! Every physical quantity of the simulation (a length, a speed, a force, a
//! mass, an angle in degrees, a time step) is a signed integer that counts
//! millionths of its unit. Results are rounded to the nearest millionth, ties
//! away from zero. Sums and products saturate at `LIMIT` on either side, so
//! they are defined for all operands and never wrap.

use vstd::prelude::*;
use vstd::arithmetic::div_mod::lemma_fundamental_div_mod_converse;
use vstd::arithmetic::div_mod::lemma_fundamental_div_mod;

verus! {

/// The integer that stands for one whole unit.
pub const SCALE: i64 = 1_000_000;

/// The largest magnitude a stored quantity takes: a million whole units.
pub const LIMIT: i64 = 1_000_000_000_000;

/// The number of decimal digits behind the point.
pub const DIGITS: i32 = 6;

/// `v` lies within the saturation bounds.
pub open spec fn in_range(v: int) -> bool {
    -LIMIT <= v <= LIMIT
}

/// `v` saturated to `[-LIMIT, LIMIT]`.
pub open spec fn clamp(v: int) -> int {
    if v > LIMIT {
        LIMIT as int
    } else if v < -LIMIT {
        -LIMIT as int
    } else {
        v
    }
}

/// The absolute value of `v`.
pub open spec fn magnitude(v: int) -> int {
    if v < 0 {
        -v
    } else {
        v
    }
}

/// The integer nearest to the quotient `n / d` for a positive `d`; a quotient
/// that lies exactly between two integers goes to the one farther from zero.
pub open spec fn round_div(n: int, d: int) -> int {
    if n >= 0 {
        (2 * n + d) / (2 * d)
    } else {
        -((2 * (-n) + d) / (2 * d))
    }
}

/// The product of two fixed-point numbers, rounded and saturated.
pub open spec fn spec_fx_mul(a: int, b: int) -> int {
    clamp(round_div(a * b, SCALE as int))
}

/// `a * b / d` with a single rounding at the end, saturated.
pub open spec fn spec_fx_mul_div(a: int, b: int, d: int) -> int {
    clamp(round_div(a * b, d))
}

/// Ten to the power `k`.
pub open spec fn pow10(k: nat) -> int
    decreases k,
{
    if k == 0 {
        1
    } else {
        10 * pow10((k - 1) as nat)
    }
}

/// `number` rounded to `precision` decimal digits. A fixed-point number has
/// `DIGITS` of them, so asking for that many or more changes nothing.
pub open spec fn spec_round_to_precision(number: int, precision: int) -> int {
    if precision >= DIGITS {
        number
    } else {
        let unit = pow10((DIGITS - precision) as nat);
        round_div(number, unit) * unit
    }
}

/// The quotient that `round_div` picks differs from the exact one by at most a
/// half: it is a nearest integer.
pub proof fn lemma_round_div_nearest(n: int, d: int)
    requires
        d > 0,
    ensures
        -d <= 2 * n - 2 * d * round_div(n, d) <= d,
{
    let m = magnitude(n);
    let q = (2 * m + d) / (2 * d);
    lemma_fundamental_div_mod(2 * m + d, 2 * d);
    assert(0 <= (2 * m + d) % (2 * d) < 2 * d);
    assert(2 * m + d == (2 * d) * q + (2 * m + d) % (2 * d));
    assert(2 * d * q == (2 * d) * q) by (nonlinear_arith);
    assert(2 * d * (-q) == -(2 * d * q)) by (nonlinear_arith);
}

/// Rounding is symmetric about zero.
pub proof fn lemma_round_div_odd(n: int, d: int)
    requires
        d > 0,
    ensures
        round_div(-n, d) == -round_div(n, d),
{
    if n == 0 {
        assert((2 * 0 + d) / (2 * d) == 0) by (nonlinear_arith)
            requires
                d > 0,
        ;
    }
}

/// A multiple of the divisor is divided exactly.
pub proof fn lemma_round_div_exact(q: int, d: int)
    requires
        d > 0,
    ensures
        round_div(q * d, d) == q,
{
    let m = magnitude(q);
    assert(m * d >= 0) by (nonlinear_arith)
        requires
            m >= 0,
            d > 0,
    ;
    assert(2 * (m * d) + d == (2 * d) * m + d) by (nonlinear_arith);
    lemma_fundamental_div_mod_converse(2 * (m * d) + d, 2 * d, m, d);
    if q >= 0 {
        assert(q * d == m * d);
    } else {
        assert(-(q * d) == m * d) by (nonlinear_arith)
            requires
                m == -q,
        ;
        assert(q * d < 0) by (nonlinear_arith)
            requires
                q < 0,
                d > 0,
        ;
    }
}

/// Rounding keeps the order of the numerators.
pub proof fn lemma_round_div_monotonic(a: int, b: int, d: int)
    requires
        d > 0,
        a <= b,
    ensures
        round_div(a, d) <= round_div(b, d),
{
    lemma_round_div_nearest(a, d);
    lemma_round_div_nearest(b, d);
    let qa = round_div(a, d);
    let qb = round_div(b, d);
    if qa > qb {
        // Both quotients are within a half of numerators in the other order,
        // which forces the numerators to coincide.
        assert(2 * d * qa - 2 * d * qb >= 2 * d) by (nonlinear_arith)
            requires
                qa >= qb + 1,
                d > 0,
        ;
        assert(a == b);
    }
}

/// Every power of ten is positive.
pub proof fn lemma_pow10_positive(k: nat)
    ensures
        pow10(k) > 0,
    decreases k,
{
    if k > 0 {
        lemma_pow10_positive((k - 1) as nat);
    }
}

/// Powers of ten multiply by adding their exponents.
pub proof fn lemma_pow10_adds(a: nat, b: nat)
    ensures
        pow10(a + b) == pow10(a) * pow10(b),
    decreases a,
{
    if a == 0 {
        assert(pow10(0) * pow10(b) == pow10(b)) by (nonlinear_arith)
            requires
                pow10(0) == 1,
        ;
    } else {
        lemma_pow10_adds((a - 1) as nat, b);
        let x = pow10((a - 1) as nat);
        let y = pow10(b);
        assert((10 * x) * y == 10 * (x * y)) by (nonlinear_arith);
    }
}

/// `LIMIT` is the twelfth power of ten.
pub proof fn lemma_pow10_limit()
    ensures
        pow10(12) == LIMIT,
{
    reveal_with_fuel(pow10, 13);
}

/// Rounding to a number of digits a second time changes nothing.
pub proof fn lemma_round_to_precision_idempotent(number: int, precision: int)
    ensures
        spec_round_to_precision(spec_round_to_precision(number, precision), precision)
            == spec_round_to_precision(number, precision),
{
    if precision < DIGITS {
        let unit = pow10((DIGITS - precision) as nat);
        lemma_pow10_positive((DIGITS - precision) as nat);
        lemma_round_div_exact(round_div(number, unit), unit);
    }
}

/// Rounding a number within the saturation bounds leaves it within them.
pub proof fn lemma_round_to_precision_in_range(number: int, precision: int)
    requires
        in_range(number),
    ensures
        in_range(spec_round_to_precision(number, precision)),
        DIGITS - precision > 12 ==> spec_round_to_precision(number, precision) == 0,
{
    if precision < DIGITS {
        let k = (DIGITS - precision) as nat;
        let unit = pow10(k);
        lemma_pow10_positive(k);
        lemma_pow10_limit();
        if k <= 12 {
            let rest = pow10((12 - k) as nat);
            lemma_pow10_adds((12 - k) as nat, k);
            assert(rest * unit == LIMIT);
            lemma_round_div_exact(rest, unit);
            lemma_round_div_exact(-rest, unit);
            assert((-rest) * unit == -(rest * unit)) by (nonlinear_arith);
            lemma_round_div_monotonic(number, LIMIT as int, unit);
            lemma_round_div_monotonic(-LIMIT as int, number, unit);
            let q = round_div(number, unit);
            assert(-rest <= q <= rest);
            assert(-(rest * unit) <= q * unit <= rest * unit) by (nonlinear_arith)
                requires
                    -rest <= q <= rest,
                    unit > 0,
            ;
        } else {
            lemma_pow10_adds((k - 12) as nat, 12);
            lemma_pow10_positive((k - 13) as nat);
            let head = pow10((k - 12) as nat);
            assert(head >= 10);
            assert(unit >= 10 * LIMIT) by (nonlinear_arith)
                requires
                    unit == head * LIMIT,
                    head >= 10,
            ;
            let m = magnitude(number);
            assert((2 * m + unit) / (2 * unit) == 0) by (nonlinear_arith)
                requires
                    0 <= 2 * m + unit < 2 * unit,
            ;
            assert(0 * unit == 0);
        }
    }
}

/// The magnitude of a product is at most the product of the bounds on the
/// magnitudes of its factors.
pub proof fn lemma_product_magnitude(a: int, b: int, bound_a: int, bound_b: int)
    requires
        -bound_a <= a <= bound_a,
        -bound_b <= b <= bound_b,
    ensures
        -(bound_a * bound_b) <= a * b <= bound_a * bound_b,
{
    assert(-(bound_a * bound_b) <= a * b <= bound_a * bound_b) by (nonlinear_arith)
        requires
            -bound_a <= a <= bound_a,
            -bound_b <= b <= bound_b,
    ;
}

/// A rounded quotient is bounded as its numerator is: if the numerator's
/// magnitude is at most `bound * d`, the quotient's is at most `bound`.
pub proof fn lemma_round_div_magnitude(n: int, d: int, bound: int)
    requires
        d > 0,
        -(bound * d) <= n <= bound * d,
    ensures
        -bound <= round_div(n, d) <= bound,
{
    assert(bound >= 0) by (nonlinear_arith)
        requires
            d > 0,
            -(bound * d) <= bound * d,
    ;
    lemma_round_div_exact(bound, d);
    lemma_round_div_exact(-bound, d);
    assert((-bound) * d == -(bound * d)) by (nonlinear_arith);
    lemma_round_div_monotonic(n, bound * d, d);
    lemma_round_div_monotonic((-bound) * d, n, d);
}

/// Numerators that are more than the divisor apart have different rounded
/// quotients.
pub proof fn lemma_round_div_apart(low: int, high: int, d: int)
    requires
        d > 0,
        high - low > d,
    ensures
        round_div(low, d) < round_div(high, d),
{
    lemma_round_div_nearest(low, d);
    lemma_round_div_nearest(high, d);
    let q_low = round_div(low, d);
    let q_high = round_div(high, d);
    assert(q_low < q_high) by (nonlinear_arith)
        requires
            d > 0,
            2 * d * q_low <= 2 * low + d,
            2 * d * q_high >= 2 * high - d,
            high - low > d,
    ;
}

/// A common positive factor of numerator and divisor does not change the
/// rounded quotient.
pub proof fn lemma_round_div_cancels(n: int, d: int, k: int)
    requires
        d > 0,
        k > 0,
    ensures
        round_div(n * k, d * k) == round_div(n, d),
{
    let m = magnitude(n);
    let q = (2 * m + d) / (2 * d);
    let r = (2 * m + d) % (2 * d);
    lemma_fundamental_div_mod(2 * m + d, 2 * d);
    assert(d * k > 0) by (nonlinear_arith)
        requires
            d > 0,
            k > 0,
    ;
    assert(m * k >= 0) by (nonlinear_arith)
        requires
            m >= 0,
            k > 0,
    ;
    assert(2 * (m * k) + d * k == (2 * (d * k)) * q + r * k) by (nonlinear_arith)
        requires
            2 * m + d == (2 * d) * q + r,
    ;
    assert(0 <= r * k < 2 * (d * k)) by (nonlinear_arith)
        requires
            0 <= r < 2 * d,
            k > 0,
    ;
    lemma_fundamental_div_mod_converse(2 * (m * k) + d * k, 2 * (d * k), q, r * k);
    if n >= 0 {
        assert(n * k == m * k);
    } else {
        assert(-(n * k) == m * k) by (nonlinear_arith)
            requires
                m == -n,
        ;
        assert(n * k < 0) by (nonlinear_arith)
            requires
                n < 0,
                k > 0,
        ;
    }
}

/// Saturates a wide intermediate result.
pub fn saturate(v: i128) -> (r: i64)
    ensures
        r == clamp(v as int),
{
    if v > LIMIT as i128 {
        LIMIT
    } else if v < -(LIMIT as i128) {
        -LIMIT
    } else {
        v as i64
    }
}

/// Divides with rounding to the nearest integer, ties away from zero.
pub fn rounded_quotient(n: i128, d: i128) -> (q: i128)
    requires
        d > 0,
        n > i128::MIN,
    ensures
        q == round_div(n as int, d as int),
{
    let m: i128 = if n < 0 {
        -n
    } else {
        n
    };
    let whole: i128 = m / d;
    let rest: i128 = m % d;
    proof {
        lemma_fundamental_div_mod(m as int, d as int);
        assert(2 * (d * whole) == (2 * d) * whole) by (nonlinear_arith);
        assert((2 * d) * (whole + 1) == (2 * d) * whole + 2 * d) by (nonlinear_arith);
        if rest >= d - rest {
            lemma_fundamental_div_mod_converse(2 * m + d, 2 * d, whole + 1, 2 * rest - d);
            assert(whole < i128::MAX) by (nonlinear_arith)
                requires
                    d >= 2,
                    whole >= 0,
                    m == d * whole + rest,
                    rest >= 1,
                    m <= i128::MAX,
            ;
        } else {
            lemma_fundamental_div_mod_converse(2 * m + d, 2 * d, whole as int, 2 * rest + d);
        }
    }
    let up: i128 = if rest >= d - rest {
        whole + 1
    } else {
        whole
    };
    if n < 0 {
        -up
    } else {
        up
    }
}

/// The saturating sum of two fixed-point numbers.
pub fn fx_add(a: i64, b: i64) -> (r: i64)
    ensures
        r == clamp(a + b),
{
    saturate(a as i128 + b as i128)
}

/// The saturating difference of two fixed-point numbers.
pub fn fx_sub(a: i64, b: i64) -> (r: i64)
    ensures
        r == clamp(a - b),
{
    saturate(a as i128 - b as i128)
}

/// The product of two fixed-point numbers.
pub fn fx_mul(a: i64, b: i64) -> (r: i64)
    ensures
        r == spec_fx_mul(a as int, b as int),
{
    fx_mul_div(a, b, SCALE)
}

/// `a * b / d`, rounded once.
pub fn fx_mul_div(a: i64, b: i64, d: i64) -> (r: i64)
    requires
        d > 0,
    ensures
        r == spec_fx_mul_div(a as int, b as int, d as int),
{
    assert(-0x4000_0000_0000_0000_0000_0000_0000_0000 <= a * b
        <= 0x4000_0000_0000_0000_0000_0000_0000_0000) by (nonlinear_arith)
        requires
            -0x8000_0000_0000_0000 <= a <= 0x8000_0000_0000_0000,
            -0x8000_0000_0000_0000 <= b <= 0x8000_0000_0000_0000,
    ;
    let product: i128 = (a as i128) * (b as i128);
    let quotient: i128 = rounded_quotient(product, d as i128);
    saturate(quotient)
}

/// Rounds a fixed-point number to `precision` decimal digits.
pub fn round_to_precision(number: i64, precision: i32) -> (r: i64)
    requires
        in_range(number as int),
    ensures
        r == spec_round_to_precision(number as int, precision as int),
        in_range(r as int),
        spec_round_to_precision(r as int, precision as int) == r,
{
    proof {
        lemma_round_to_precision_idempotent(number as int, precision as int);
        lemma_round_to_precision_in_range(number as int, precision as int);
        lemma_pow10_limit();
    }
    if precision >= DIGITS {
        return number;
    }
    let places: i64 = DIGITS as i64 - precision as i64;
    if places > 12 {
        return 0;
    }
    let mut unit: i64 = 1;
    let mut done: i64 = 0;
    while done < places
        invariant
            0 <= done <= places <= 12,
            unit == pow10(done as nat),
            0 < unit <= pow10(12),
            pow10(12) == LIMIT,
        decreases places - done,
    {
        proof {
            lemma_pow10_adds((11 - done) as nat, (done + 1) as nat);
            lemma_pow10_positive((11 - done) as nat);
            let ahead = pow10((11 - done) as nat);
            assert(10 * unit <= ahead * (10 * unit)) by (nonlinear_arith)
                requires
                    ahead >= 1,
                    unit > 0,
            ;
        }
        unit = unit * 10;
        done = done + 1;
    }
    let quotient: i128 = rounded_quotient(number as i128, unit as i128);
    (quotient * unit as i128) as i64
}

/// `r` is the integer square root of `n`: the largest number whose square
/// does not exceed `n`.
pub open spec fn is_sqrt(n: int, r: int) -> bool {
    0 <= r && r * r <= n < (r + 1) * (r + 1)
}

/// The integer square root of `n`.
pub open spec fn spec_sqrt(n: int) -> int {
    choose|r: int| is_sqrt(n, r)
}

/// A number has at most one integer square root.
pub proof fn lemma_sqrt_unique(n: int, a: int, b: int)
    requires
        is_sqrt(n, a),
        is_sqrt(n, b),
    ensures
        a == b,
        spec_sqrt(n) == a,
{
    assert(a == b) by (nonlinear_arith)
        requires
            0 <= a,
            0 <= b,
            a * a <= n < (a + 1) * (a + 1),
            b * b <= n < (b + 1) * (b + 1),
    ;
    let c = spec_sqrt(n);
    assert(is_sqrt(n, c));
    assert(a == c) by (nonlinear_arith)
        requires
            0 <= a,
            0 <= c,
            a * a <= n < (a + 1) * (a + 1),
            c * c <= n < (c + 1) * (c + 1),
    ;
}

/// Every number that is not negative has an integer square root.
pub proof fn lemma_sqrt_exists(n: int)
    requires
        n >= 0,
    ensures
        is_sqrt(n, spec_sqrt(n)),
    decreases n,
{
    if n == 0 {
        assert(is_sqrt(0, 0));
    } else {
        lemma_sqrt_exists(n - 1);
        let r = spec_sqrt(n - 1);
        if (r + 1) * (r + 1) <= n {
            assert(n < (r + 2) * (r + 2)) by (nonlinear_arith)
                requires
                    n - 1 < (r + 1) * (r + 1),
                    r >= 0,
            ;
            assert(r + 1 + 1 == r + 2);
            assert(is_sqrt(n, r + 1));
        } else {
            assert(is_sqrt(n, r));
        }
    }
}

/// The largest argument `integer_sqrt` takes.
pub const SQRT_ARG_MAX: u128 = 0x3fff_ffff_ffff_ffff_ffff_ffff_ffff_ffff;

/// Computes the integer square root by bisection.
pub fn integer_sqrt(n: u128) -> (r: u128)
    requires
        n <= SQRT_ARG_MAX,
    ensures
        r == spec_sqrt(n as int),
        is_sqrt(n as int, r as int),
        r < 0x8000_0000_0000_0000,
{
    let mut low: u128 = 0;
    let mut high: u128 = 0x8000_0000_0000_0000;
    assert(0x8000_0000_0000_0000int * 0x8000_0000_0000_0000int > SQRT_ARG_MAX);
    while high - low > 1
        invariant
            low < high <= 0x8000_0000_0000_0000,
            low * low <= n < high * high,
        decreases high - low,
    {
        let middle: u128 = low + (high - low) / 2;
        assert(middle * middle < 0x4000_0000_0000_0000_0000_0000_0000_0000) by (nonlinear_arith)
            requires
                0 <= middle < 0x8000_0000_0000_0000,
        ;
        if middle * middle <= n {
            low = middle;
        } else {
            high = middle;
        }
    }
    proof {
        lemma_sqrt_unique(n as int, low as int, low as int);
    }
    low
}

} // verus!
