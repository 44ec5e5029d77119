//! Arithmetic on double-precision numbers that are not negative, by the bits
//! below their signs. Each operation is exact but for one rounding of its
//! result.

use crate::big::Big;
use crate::binary64;
use crate::decimals;
use crate::rounding;
use vstd::arithmetic::power2::{
    lemma2_to64_rest, lemma_pow2_adds, lemma_pow2_pos, lemma_pow2_strictly_increases,
    lemma_pow2_unfold, pow2,
};
use vstd::prelude::*;

verus! {

/// The whole number nearest to a finite number; halves are rounded up.
pub open spec fn nearest_whole(magnitude: nat) -> nat {
    (2 * binary64::units(magnitude) + pow2(1074)) / pow2(1075)
}

/// The double-precision quotient of two finite numbers that are not negative:
/// the bits below the sign.
pub open spec fn quotient(num: nat, den: nat) -> nat {
    rounding::rounded(binary64::units(num) * pow2(1074), binary64::units(den))
}

/// What the bits below the sign stand for, as a number of any size.
pub fn units_of(magnitude: u64) -> (r: Big)
    requires
        magnitude < rounding::INFINITE,
    ensures
        r@ == binary64::units(magnitude as nat),
{
    let exponent: u64 = magnitude / 0x10_0000_0000_0000;
    let fraction: u64 = magnitude % 0x10_0000_0000_0000;
    if exponent == 0 {
        Big::of64(fraction)
    } else {
        decimals::times_two_to(&Big::of64(0x10_0000_0000_0000 + fraction), (exponent - 1) as usize)
    }
}

proof fn lemma_small_is_nearest_zero(magnitude: nat)
    requires
        magnitude < 1021 * 0x10_0000_0000_0000,
    ensures
        nearest_whole(magnitude) == 0,
{
    let limit = 1021 * 0x10_0000_0000_0000nat;
    binary64::lemma_units_increase(magnitude, limit);
    rounding::lemma_units_of(1020, 0x10_0000_0000_0000);
    lemma2_to64_fifty_two();
    lemma_pow2_adds(52, 1020);
    lemma_pow2_strictly_increases(1072, 1073);
    lemma_pow2_unfold(1074);
    lemma_pow2_unfold(1075);
    assert(2 * binary64::units(magnitude) + pow2(1074) < pow2(1075));
    vstd::arithmetic::div_mod::lemma_basic_div(
        (2 * binary64::units(magnitude) + pow2(1074)) as int,
        pow2(1075) as int,
    );
}

proof fn lemma2_to64_fifty_two()
    ensures
        pow2(52) == 0x10_0000_0000_0000,
        pow2(33) == 0x2_0000_0000,
{
    vstd::arithmetic::power2::lemma2_to64_rest();
}

proof fn lemma_large_is_too_large(magnitude: nat)
    requires
        magnitude >= 1056 * 0x10_0000_0000_0000,
    ensures
        nearest_whole(magnitude) > u32::MAX,
{
    let limit = 1056 * 0x10_0000_0000_0000nat;
    if limit < magnitude {
        binary64::lemma_units_increase(limit, magnitude);
    }
    rounding::lemma_units_of(1055, 0x10_0000_0000_0000);
    lemma2_to64_fifty_two();
    lemma_pow2_adds(52, 1055);
    lemma_pow2_adds(33, 1074);
    lemma_pow2_unfold(1075);
    lemma_pow2_pos(1075);
    let value = 2 * binary64::units(magnitude) + pow2(1074);
    assert(value >= pow2(33) * pow2(1075)) by (nonlinear_arith)
        requires
            value >= 2 * (pow2(33) * pow2(1074)),
            pow2(1075) == 2 * pow2(1074),
    ;
    vstd::arithmetic::div_mod::lemma_div_is_ordered(
        (pow2(33) * pow2(1075)) as int,
        value as int,
        pow2(1075) as int,
    );
    vstd::arithmetic::div_mod::lemma_div_multiples_vanish(pow2(33) as int, pow2(1075) as int);
    assert(pow2(1075) * pow2(33) == pow2(33) * pow2(1075)) by (nonlinear_arith);
}

/// The whole number nearest to a number, where it fits in 32 bits, else one that
/// does not fit either.
fn nearest(magnitude: u64) -> (r: u64)
    requires
        magnitude <= rounding::INFINITE,
    ensures
        r <= u32::MAX ==> nearest_whole(magnitude as nat) == r,
        r > u32::MAX ==> nearest_whole(magnitude as nat) > u32::MAX,
{
    let exponent: u64 = magnitude / 0x10_0000_0000_0000;
    if exponent < 1021 {
        proof {
            lemma_small_is_nearest_zero(magnitude as nat);
        }
        return 0;
    }
    if exponent >= 1056 {
        proof {
            lemma_large_is_too_large(magnitude as nat);
        }
        return 0x1_0000_0000;
    }
    let top: u64 = 0x10_0000_0000_0000 + magnitude % 0x10_0000_0000_0000;
    let shift: u64 = 1075 - exponent;
    proof {
        vstd::bits::lemma_u64_pow2_no_overflow(shift as nat);
        vstd::bits::lemma_u64_pow2_no_overflow((shift - 1) as nat);
        vstd::bits::lemma_u64_shl_is_mul(1, shift);
        vstd::bits::lemma_u64_shl_is_mul(1, (shift - 1) as u64);
        vstd::arithmetic::power2::lemma2_to64_rest();
        if shift < 54 {
            lemma_pow2_strictly_increases(shift as nat, 54);
        }
        if shift - 1 < 53 {
            lemma_pow2_strictly_increases((shift - 1) as nat, 53);
        }
    }
    let whole: u64 = (top + (1u64 << (shift - 1))) / (1u64 << shift);
    proof {
        let e = exponent as nat;
        let k = shift as nat;
        let p = pow2((e - 1) as nat);
        lemma_pow2_unfold(e);
        lemma_pow2_pos(e);
        lemma_pow2_pos(k);
        lemma_pow2_adds((k - 1) as nat, e);
        lemma_pow2_adds(k, e);
        let a = (top + pow2((k - 1) as nat)) as int;
        assert(2 * (top * p) + pow2((k - 1) as nat) * pow2(e) == pow2(e) * a) by (nonlinear_arith)
            requires
                pow2(e) == 2 * p,
                a == top + pow2((k - 1) as nat),
        ;
        assert(pow2(k) * pow2(e) == pow2(e) * pow2(k)) by (nonlinear_arith);
        vstd::arithmetic::div_mod::lemma_div_multiples_vanish_quotient(
            pow2(e) as int,
            a,
            pow2(k) as int,
        );
    }
    whole
}

/// The whole number nearest to a number, where it is positive and fits in 32
/// bits.
pub fn round_to_whole(magnitude: u64) -> (r: Option<u32>)
    requires
        magnitude <= rounding::INFINITE,
    ensures
        match r {
            Some(n) => n > 0 && nearest_whole(magnitude as nat) == n,
            None => nearest_whole(magnitude as nat) == 0 || nearest_whole(magnitude as nat)
                > u32::MAX,
        },
{
    let whole: u64 = nearest(magnitude);
    if whole == 0 || whole > u32::MAX as u64 {
        None
    } else {
        Some(whole as u32)
    }
}

/// The double-precision quotient of two finite numbers.
pub fn divide(num: u64, den: u64) -> (r: u64)
    requires
        num < rounding::INFINITE,
        0 < den < rounding::INFINITE,
    ensures
        r == quotient(num as nat, den as nat),
        r <= rounding::INFINITE,
{
    let scaled = decimals::times_two_to(&units_of(num), 1074);
    let divisor = units_of(den);
    proof {
        binary64::lemma_units_increase(0, den as nat);
    }
    rounding::round(&scaled, &divisor)
}

/// The double-precision number that stands for a whole number of up to 32 bits.
pub open spec fn whole(n: nat) -> nat {
    decimals::rounded_decimal(n, 0)
}

/// The double-precision number that stands for a whole number.
pub fn of_whole(n: u32) -> (r: u64)
    ensures
        r == whole(n as nat),
        r < rounding::INFINITE,
        binary64::units(r as nat) == n * pow2(1074),
{
    let num = decimals::times_two_to(&Big::of(n), 1074);
    proof {
        decimals::lemma_whole_numbers_are_exact(n as nat);
        assert(n * decimals::ten_to(0) * pow2(1074) == n * pow2(1074)) by (nonlinear_arith)
            requires
                decimals::ten_to(0) == 1,
        ;
    }
    rounding::round(&num, &Big::of(1))
}

/// The number that stands for a whole number is zero only for zero.
pub proof fn lemma_whole_positive(n: nat)
    requires
        0 < n <= u32::MAX,
    ensures
        0 < whole(n) < rounding::INFINITE,
{
    decimals::lemma_whole_numbers_are_exact(n);
    lemma_pow2_pos(1074);
    assert(n * pow2(1074) > 0) by (nonlinear_arith)
        requires
            n > 0,
            pow2(1074) > 0,
    ;
}

/// The double-precision product of a number and a whole number of up to 32
/// bits.
pub open spec fn multiple(magnitude: nat, n: nat) -> nat {
    rounding::rounded(binary64::units(magnitude) * n, 1)
}

/// The double-precision product of a number and a whole number.
pub fn multiply_whole(magnitude: u64, n: u32) -> (r: u64)
    requires
        magnitude < rounding::INFINITE,
    ensures
        r == multiple(magnitude as nat, n as nat),
        r <= rounding::INFINITE,
{
    let num = units_of(magnitude).times_plus(n, 0);
    rounding::round(&num, &Big::of(1))
}

/// The double-precision product of two finite numbers.
pub open spec fn product(a: nat, b: nat) -> nat {
    rounding::rounded(binary64::units(a) * binary64::units(b), pow2(1074))
}

/// The double-precision product of two finite numbers.
pub fn multiply(a: u64, b: u64) -> (r: u64)
    requires
        a < rounding::INFINITE,
        b < rounding::INFINITE,
    ensures
        r == product(a as nat, b as nat),
        r <= rounding::INFINITE,
{
    let exponent: u64 = b / 0x10_0000_0000_0000;
    let fraction: u64 = b % 0x10_0000_0000_0000;
    let left = units_of(a);
    let num = if exponent == 0 {
        left.times(fraction)
    } else {
        decimals::times_two_to(
            &left.times(0x10_0000_0000_0000 + fraction),
            (exponent - 1) as usize,
        )
    };
    proof {
        if exponent > 0 {
            let u = binary64::units(a as nat);
            let top = 0x10_0000_0000_0000 + fraction;
            let p = pow2((exponent - 1) as nat);
            assert(u * top * p == u * (top * p)) by (nonlinear_arith);
        }
        lemma_pow2_pos(1074);
        assert(1 * pow2(1074) == pow2(1074)) by (nonlinear_arith);
    }
    let den = decimals::times_two_to(&Big::of(1), 1074);
    rounding::round(&num, &den)
}

/// The size that a number of pixels stands for: the nearest whole number, at
/// least one, and at most the largest that a size can be.
pub open spec fn pixels(magnitude: nat) -> int {
    let n = nearest_whole(magnitude);
    if n < 1 {
        1
    } else if n > i32::MAX {
        i32::MAX as int
    } else {
        n as int
    }
}

/// The size that a number of pixels stands for.
pub fn to_pixels(magnitude: u64) -> (r: i32)
    requires
        magnitude <= rounding::INFINITE,
    ensures
        r == pixels(magnitude as nat),
{
    let whole: u64 = nearest(magnitude);
    if whole < 1 {
        1
    } else if whole > i32::MAX as u64 {
        i32::MAX
    } else {
        whole as i32
    }
}

/// A number divided by a whole number is not more than it was.
pub proof fn lemma_quotient_not_more(magnitude: nat, n: nat)
    requires
        magnitude < rounding::INFINITE,
        0 < n <= u32::MAX,
    ensures
        quotient(magnitude, whole(n)) <= magnitude,
{
    let u = binary64::units(magnitude);
    let unit = pow2(1074);
    let den = n * unit;
    decimals::lemma_whole_numbers_are_exact(n);
    lemma_pow2_pos(1074);
    assert(u * unit <= u * den && den > 0) by (nonlinear_arith)
        requires
            den == n * unit,
            n >= 1,
            unit > 0,
            u >= 0,
    ;
    rounding::lemma_exact(magnitude, den);
    rounding::lemma_rounding_exists(u * unit, den);
    rounding::lemma_rounding_exists(u * den, den);
    rounding::lemma_rounding_monotone(
        u * unit,
        u * den,
        den,
        quotient(magnitude, whole(n)),
        magnitude,
    );
}

/// A larger number is not nearer to a smaller whole number.
pub proof fn lemma_nearest_whole_monotone(a: nat, b: nat)
    requires
        a <= b,
    ensures
        nearest_whole(a) <= nearest_whole(b),
{
    if a < b {
        binary64::lemma_units_increase(a, b);
    }
    lemma_pow2_pos(1075);
    vstd::arithmetic::div_mod::lemma_div_is_ordered(
        (2 * binary64::units(a) + pow2(1074)) as int,
        (2 * binary64::units(b) + pow2(1074)) as int,
        pow2(1075) as int,
    );
}

/// A larger number times more is not less.
pub proof fn lemma_multiple_monotone(a: nat, b: nat, m: nat, n: nat)
    requires
        a <= b,
        m <= n,
    ensures
        multiple(a, m) <= multiple(b, n),
{
    let u = binary64::units(a);
    let v = binary64::units(b);
    if a < b {
        binary64::lemma_units_increase(a, b);
    }
    assert(u * m <= v * n) by (nonlinear_arith)
        requires
            u <= v,
            m <= n,
    ;
    rounding::lemma_rounding_exists(u * m, 1);
    rounding::lemma_rounding_exists(v * n, 1);
    rounding::lemma_rounding_monotone(u * m, v * n, 1, multiple(a, m), multiple(b, n));
}

/// A whole number divided by another and multiplied with it again is, to the
/// nearest whole number, what it was.
pub proof fn lemma_divided_and_multiplied(m: nat, n: nat)
    requires
        0 < m <= i32::MAX,
        0 < n <= i32::MAX,
    ensures
        quotient(whole(m), whole(n)) < rounding::INFINITE,
        multiple(quotient(whole(m), whole(n)), n) < rounding::INFINITE,
        nearest_whole(multiple(quotient(whole(m), whole(n)), n)) == m,
{
    let unit = pow2(1074);
    decimals::lemma_whole_numbers_are_exact(m);
    decimals::lemma_whole_numbers_are_exact(n);
    lemma_pow2_pos(1074);
    lemma_pow2_unfold(1075);
    vstd::arithmetic::power2::lemma2_to64_rest();
    vstd::arithmetic::power2::lemma2_to64();
    lemma_pow2_strictly_increases(84, 1074);
    lemma_pow2_adds(32, 52);
    lemma_pow2_adds(31, 1074);
    lemma_pow2_strictly_increases(1105, 2097);
    lemma_pow2_strictly_increases(32, 1074);
    // The quotient.
    let den = n * unit;
    let num = m * unit * unit;
    assert(binary64::units(whole(m)) * unit == num);
    assert(den > 0) by (nonlinear_arith)
        requires
            den == n * unit,
            n > 0,
            unit > 0,
    ;
    let q = quotient(whole(m), whole(n));
    let u = binary64::units(q);
    rounding::lemma_rounding_exists(num, den);
    assert(num >= 0x20_0000_0000_0000 * den) by (nonlinear_arith)
        requires
            num == m * unit * unit,
            den == n * unit,
            m >= 1,
            n <= 0x8000_0000,
            unit >= 0x10_0000_0000_0000 * 0x1_0000_0000,
    ;
    assert(num < pow2(2097) * den) by (nonlinear_arith)
        requires
            num == m * unit * unit,
            den == n * unit,
            m < 0x8000_0000,
            n >= 1,
            unit > 0,
            pow2(2097) > 0x8000_0000 * unit,
    ;
    rounding::lemma_rounding_error(num, den, q);
    let exact = m * unit;
    let half_ulps = 0x20_0000_0000_0000int;
    assert(num == exact * unit && u * den == (u * n) * unit) by (nonlinear_arith)
        requires
            num == m * unit * unit,
            den == n * unit,
            exact == m * unit,
    ;
    assert(half_ulps * (exact - u * n) <= u * n) by (nonlinear_arith)
        requires
            half_ulps * (exact * unit - (u * n) * unit) <= (u * n) * unit,
            unit > 0,
    ;
    assert(half_ulps * (u * n - exact) <= u * n) by (nonlinear_arith)
        requires
            half_ulps * ((u * n) * unit - exact * unit) <= (u * n) * unit,
            unit > 0,
    ;
    // The product.
    let product = u * n;
    let p = multiple(q, n);
    let v = binary64::units(p);
    assert(exact >= unit) by (nonlinear_arith)
        requires
            exact == m * unit,
            m >= 1,
    ;
    assert(exact <= 0x8000_0000 * unit) by (nonlinear_arith)
        requires
            exact == m * unit,
            m <= 0x8000_0000,
    ;
    assert(2 * product >= exact && product <= 2 * exact);
    rounding::lemma_rounding_exists(product, 1);
    assert(product >= 0x20_0000_0000_0000 * 1);
    assert(product < pow2(2097) * 1) by {
        lemma_pow2_unfold(1106);
        lemma_pow2_strictly_increases(1106, 2097);
    }
    rounding::lemma_rounding_error(product, 1, p);
    assert(v * 1 == v) by (nonlinear_arith);
    assert(half_ulps * (product - v) <= v);
    assert(half_ulps * (v - product) <= v);
    assert(2 * v >= product && v <= 2 * product);
    // Both errors together are less than a half.
    assert(4 * (exact - v) < 2 * unit && 4 * (v - exact) < 2 * unit);
    let doubled = 2 * v + unit;
    assert(m * (2 * unit) == 2 * exact) by (nonlinear_arith)
        requires
            exact == m * unit,
    ;
    vstd::arithmetic::div_mod::lemma_fundamental_div_mod_converse(
        doubled as int,
        2 * unit as int,
        m as int,
        doubled - 2 * exact,
    );
}

/// Whole numbers are exact, and so is what comes out whole: a product divided by
/// one of its factors is the other, a number taken several times is the product,
/// a number taken once is itself, and a whole number is its own nearest one.
pub proof fn lemma_whole_results(a: nat, b: nat)
    requires
        0 < b,
        a * b <= u32::MAX,
        a <= u32::MAX,
        b <= u32::MAX,
    ensures
        binary64::units(whole(a)) == a * pow2(1074),
        quotient(whole(a * b), whole(b)) == whole(a),
        multiple(whole(a), b) == whole(a * b),
        product(whole(a), whole(b)) == whole(a * b),
        nearest_whole(whole(a)) == a,
{
    let unit = pow2(1074);
    lemma_pow2_pos(1074);
    decimals::lemma_whole_numbers_are_exact(a);
    decimals::lemma_whole_numbers_are_exact(b);
    decimals::lemma_whole_numbers_are_exact(a * b);
    let den = b * unit;
    assert(den > 0) by (nonlinear_arith)
        requires
            den == b * unit,
            b > 0,
            unit > 0,
    ;
    assert((a * b * unit) * unit == (a * unit) * den) by (nonlinear_arith)
        requires
            den == b * unit,
    ;
    rounding::lemma_exact(whole(a), den);
    assert((a * unit) * b == (a * b * unit) * 1) by (nonlinear_arith);
    rounding::lemma_exact(whole(a * b), 1);
    assert((a * unit) * (b * unit) == (a * b * unit) * unit) by (nonlinear_arith);
    rounding::lemma_exact(whole(a * b), unit);
    lemma_pow2_unfold(1075);
    assert((2 * a + 1) * unit == 2 * (a * unit) + unit) by (nonlinear_arith);
    vstd::arithmetic::div_mod::lemma_div_multiples_vanish_quotient(
        unit as int,
        (2 * a + 1) as int,
        2,
    );
    assert(unit * (2 * a + 1) == (2 * a + 1) * unit) by (nonlinear_arith);
    assert(unit * 2 == 2 * unit) by (nonlinear_arith);
    assert((2 * a + 1) / 2 == a);
}

/// The nearest whole number is off by half a unit at most.
pub proof fn lemma_nearest_whole_is_near(magnitude: nat)
    ensures
        2 * (nearest_whole(magnitude) * pow2(1074)) <= 2 * binary64::units(magnitude) + pow2(1074),
        2 * binary64::units(magnitude) < 2 * (nearest_whole(magnitude) * pow2(1074)) + pow2(1074),
{
    let unit = pow2(1074);
    lemma_pow2_pos(1074);
    lemma_pow2_unfold(1075);
    let num = 2 * binary64::units(magnitude) + unit;
    vstd::arithmetic::div_mod::lemma_fundamental_div_mod(num as int, (2 * unit) as int);
    let n = nearest_whole(magnitude);
    assert((2 * unit) * n == 2 * (n * unit)) by (nonlinear_arith);
}

/// More of a number is not less, neither in a product nor in a quotient, and
/// dividing by more does not give more.
pub proof fn lemma_arithmetic_is_monotone(a: nat, b: nat, c: nat)
    requires
        a <= b,
        0 < binary64::units(c),
    ensures
        product(a, c) <= product(b, c),
        quotient(a, c) <= quotient(b, c),
{
    let unit = pow2(1074);
    lemma_pow2_pos(1074);
    binary64::lemma_units_increase(a, b);
    let (x, y, z) = (binary64::units(a), binary64::units(b), binary64::units(c));
    assert(x <= y);
    assert(x * z <= y * z) by (nonlinear_arith)
        requires
            x <= y,
    ;
    assert(x * unit <= y * unit) by (nonlinear_arith)
        requires
            x <= y,
    ;
    rounding::lemma_rounding_exists(x * z, unit);
    rounding::lemma_rounding_exists(y * z, unit);
    rounding::lemma_rounding_monotone(x * z, y * z, unit, product(a, c), product(b, c));
    rounding::lemma_rounding_exists(x * unit, z);
    rounding::lemma_rounding_exists(y * unit, z);
    rounding::lemma_rounding_monotone(x * unit, y * unit, z, quotient(a, c), quotient(b, c));
}

/// Pixels are the nearest whole number, but at least one.
pub proof fn lemma_pixels(n: nat)
    requires
        n <= i32::MAX,
    ensures
        pixels(whole(n)) == if n == 0 { 1 } else { n as int },
{
    lemma_whole_results(n, 1);
}

/// Products and quotients of numbers of ordinary size are the exact ones, to the
/// nearest number of 53 binary digits.
pub proof fn lemma_results_are_near(a: nat, b: nat)
    requires
        pow2(1060) <= binary64::units(a) < pow2(1106),
        pow2(1060) <= binary64::units(b) < pow2(1106),
    ensures
        ({
            let unit = pow2(1074);
            let (x, y) = (binary64::units(a), binary64::units(b));
            let p = binary64::units(product(a, b));
            let q = binary64::units(quotient(a, b));
            &&& 0x20_0000_0000_0000 * (x * y - p * unit) <= p * unit
            &&& 0x20_0000_0000_0000 * (p * unit - x * y) <= p * unit
            &&& 0x20_0000_0000_0000 * (x * unit - q * y) <= q * y
            &&& 0x20_0000_0000_0000 * (q * y - x * unit) <= q * y
        }),
{
    let (x, y) = (binary64::units(a), binary64::units(b));
    let unit = pow2(1074);
    let (low, high, large) = (pow2(1060), pow2(1106), pow2(2097));
    lemma_pow2_pos(1060);
    lemma_pow2_pos(1074);
    lemma_pow2_pos(1106);
    lemma2_to64_rest();
    // The least product is large enough, and the largest is not too large.
    lemma_pow2_adds(1060, 1060);
    lemma_pow2_adds(53, 1074);
    lemma_pow2_strictly_increases(1127, 2120);
    lemma_pow2_adds(1106, 1106);
    lemma_pow2_adds(2097, 1074);
    lemma_pow2_strictly_increases(2212, 3171);
    assert(pow2(53) == 0x20_0000_0000_0000);
    assert(x * y >= low * low) by (nonlinear_arith)
        requires
            x >= low,
            y >= low,
    ;
    assert(x * y <= high * high) by (nonlinear_arith)
        requires
            0 <= x <= high,
            0 <= y <= high,
    ;
    rounding::lemma_rounding_exists(x * y, unit);
    rounding::lemma_rounding_error(x * y, unit, product(a, b));
    // The same for quotients.
    lemma_pow2_adds(1060, 1074);
    lemma_pow2_adds(53, 1106);
    lemma_pow2_strictly_increases(1159, 2134);
    lemma_pow2_adds(1106, 1074);
    lemma_pow2_adds(2097, 1060);
    lemma_pow2_strictly_increases(2180, 3157);
    assert(x * unit >= low * unit) by (nonlinear_arith)
        requires
            x >= low,
    ;
    assert(0x20_0000_0000_0000 * y <= 0x20_0000_0000_0000 * high);
    assert(x * unit <= high * unit) by (nonlinear_arith)
        requires
            x <= high,
    ;
    assert(large * y >= large * low) by (nonlinear_arith)
        requires
            y >= low,
    ;
    rounding::lemma_rounding_exists(x * unit, y);
    rounding::lemma_rounding_error(x * unit, y, quotient(a, b));
}

} // verus!
