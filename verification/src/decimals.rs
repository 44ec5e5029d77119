//! Decimal numbers in text, read as the nearest double-precision numbers, and
//! quotients of such numbers.

use crate::big::Big;
use crate::binary64;
use crate::binary64::Binary64;
use crate::rounding;
use crate::text;
use vstd::arithmetic::power2::{
    lemma2_to64, lemma_pow2_adds, lemma_pow2_pos, lemma_pow2_strictly_increases, lemma_pow2_unfold,
    pow2,
};
use vstd::prelude::*;

verus! {

/// A power of ten.
pub open spec fn ten_to(n: nat) -> nat
    decreases n,
{
    if n == 0 {
        1
    } else {
        10 * ten_to((n - 1) as nat)
    }
}

proof fn lemma_ten_to_adds(a: nat, b: nat)
    ensures
        ten_to(a + b) == ten_to(a) * ten_to(b),
        ten_to(a) > 0,
    decreases a,
{
    if a == 0 {
        assert(1 * ten_to(b) == ten_to(b)) by (nonlinear_arith);
    } else {
        lemma_ten_to_adds((a - 1) as nat, b);
        assert((a + b - 1) as nat == (a - 1) as nat + b);
        assert(10 * (ten_to((a - 1) as nat) * ten_to(b)) == (10 * ten_to((a - 1) as nat)) * ten_to(
            b,
        )) by (nonlinear_arith);
    }
}

proof fn lemma_ten_to_exceeds(n: nat)
    ensures
        ten_to(n) >= pow2(3 * n),
    decreases n,
{
    lemma2_to64();
    if n > 0 {
        lemma_ten_to_exceeds((n - 1) as nat);
        lemma_pow2_adds(3, (3 * (n - 1)) as nat);
    }
}

/// A number written in decimal: its digits, and the power of ten that they are
/// multiplied with.
pub struct Decimal {
    /// Whether there is a minus sign.
    pub negative: bool,
    /// The digits, as a number.
    pub digits: nat,
    /// The power of ten.
    pub exponent: int,
}

/// A text without the sign that may be in front.
pub open spec fn without_sign(s: Seq<char>) -> Seq<char> {
    if s.len() > 0 && (s[0] == '+' || s[0] == '-') {
        s.skip(1)
    } else {
        s
    }
}

/// How many characters stand before the first `e`, small or capital; all of
/// them if there is none.
pub open spec fn exponent_position(s: Seq<char>) -> nat
    decreases s.len(),
{
    if s.len() == 0 || s[0] == 'e' || s[0] == 'E' {
        0
    } else {
        1 + exponent_position(s.skip(1))
    }
}

/// The whole number that a text stands for: one or more digits, after a sign or
/// none.
pub open spec fn integer_of(s: Seq<char>) -> Option<int> {
    let digits = without_sign(s);
    if digits.len() > 0 && text::all_digits(digits) {
        Some(
            if s[0] == '-' {
                -(text::number(digits) as int)
            } else {
                text::number(digits) as int
            },
        )
    } else {
        None
    }
}

/// The decimal number that a text stands for: a sign or none; digits, with a
/// point among, before or after them or none; and the letter `e` with a power of
/// ten, or none.
pub open spec fn decimal_of(s: Seq<char>) -> Option<Decimal> {
    let body = without_sign(s);
    let end = exponent_position(body) as int;
    let mantissa = body.take(end);
    let point = text::position_of(mantissa, '.') as int;
    let fraction = if point < mantissa.len() {
        mantissa.skip(point + 1)
    } else {
        Seq::empty()
    };
    let digits = mantissa.take(point) + fraction;
    let power = if end < body.len() {
        integer_of(body.skip(end + 1))
    } else {
        Some(0)
    };
    if digits.len() > 0 && text::all_digits(digits) && power is Some {
        Some(
            Decimal {
                negative: s[0] == '-',
                digits: text::number(digits),
                exponent: power->0 - fraction.len(),
            },
        )
    } else {
        None
    }
}

/// What a number written in decimal is rounded to: the bits below the sign.
pub open spec fn rounded_decimal(digits: nat, exponent: int) -> nat {
    if exponent >= 0 {
        rounding::rounded(digits * ten_to(exponent as nat) * pow2(1074), 1)
    } else {
        rounding::rounded(digits * pow2(1074), ten_to((-exponent) as nat))
    }
}

/// The double-precision number that is nearest to what a text stands for.
pub open spec fn float_of(s: Seq<char>) -> Option<Binary64> {
    match decimal_of(s) {
        Some(decimal) => {
            let magnitude = rounded_decimal(decimal.digits, decimal.exponent);
            Some(
                Binary64 {
                    bits: (if decimal.negative {
                        magnitude + 0x8000_0000_0000_0000
                    } else {
                        magnitude
                    }) as u64,
                },
            )
        },
        None => None,
    }
}

proof fn lemma_exponent_position(s: Seq<char>, p: nat)
    requires
        p <= s.len(),
        p < s.len() ==> s[p as int] == 'e' || s[p as int] == 'E',
        forall|i: int| 0 <= i < p ==> s[i] != 'e' && s[i] != 'E',
    ensures
        exponent_position(s) == p,
    decreases s.len(),
{
    if p > 0 {
        assert(s[0] != 'e' && s[0] != 'E');
        lemma_exponent_position(s.skip(1), (p - 1) as nat);
    }
}

/// A whole number written in decimal digits is read as just that number.
pub proof fn lemma_decimal_of_digits(n: nat)
    ensures
        decimal_of(text::decimal(n)) == Some(Decimal { negative: false, digits: n, exponent: 0 }),
{
    let s = text::decimal(n);
    text::lemma_decimal_read_back(n);
    assert forall|i: int| 0 <= i < s.len() implies s[i] != 'e' && s[i] != 'E' && s[i] != '.' && s[i]
        != '+' && s[i] != '-' by {
        assert(text::is_digit(s[i]));
    }
    assert(without_sign(s) == s);
    lemma_exponent_position(s, s.len());
    assert(s.take(s.len() as int) =~= s);
    text::lemma_position_unique(s, '.', s.len());
    assert(s + Seq::<char>::empty() =~= s);
}

/// A whole number of at most 53 bits is rounded to a number that stands for
/// just it.
pub proof fn lemma_whole_numbers_are_exact(n: nat)
    requires
        n < 0x20_0000_0000_0000,
    ensures
        rounded_decimal(n, 0) < rounding::INFINITE,
        binary64::units(rounded_decimal(n, 0)) == n * pow2(1074),
{
    if n == 0 {
        lemma_zero_rounds_to_zero(0);
        assert(0 * pow2(1074) == 0) by (nonlinear_arith);
    } else {
        lemma2_to64();
        assert(n * pow2(0) == n) by (nonlinear_arith)
            requires
                pow2(0) == 1,
        ;
        let (top, shift) = lemma_normalise(n, 0);
        let scale = (1074 - shift) as nat;
        let magnitude = scale * 0x10_0000_0000_0000 + top;
        rounding::lemma_units_of(scale, top);
        lemma_pow2_adds(shift, scale);
        assert(top * pow2(scale) == n * pow2(1074)) by (nonlinear_arith)
            requires
                top == n * pow2(shift),
                pow2(1074) == pow2(shift) * pow2(scale),
        ;
        let num = n * ten_to(0) * pow2(1074);
        assert(num == n * pow2(1074)) by (nonlinear_arith)
            requires
                num == n * ten_to(0) * pow2(1074),
                ten_to(0) == 1,
        ;
        assert(num == binary64::units(magnitude) * 1) by (nonlinear_arith)
            requires
                num == binary64::units(magnitude),
        ;
        rounding::lemma_exact(magnitude, 1);
    }
}

/// What a number is rounded to is never more than an infinity.
pub proof fn lemma_rounded_decimal_bound(digits: nat, exponent: int)
    ensures
        rounded_decimal(digits, exponent) <= rounding::INFINITE,
{
    if exponent >= 0 {
        rounding::lemma_rounding_exists(digits * ten_to(exponent as nat) * pow2(1074), 1);
    } else {
        lemma_ten_to_adds((-exponent) as nat, 0);
        rounding::lemma_rounding_exists(digits * pow2(1074), ten_to((-exponent) as nat));
    }
}

/// Doubles a number until it has 53 bits.
proof fn lemma_normalise(n: nat, shift: nat) -> (r: (nat, nat))
    requires
        0 < n * pow2(shift) < 0x20_0000_0000_0000,
        n > 0,
        shift <= 52,
    ensures
        r.0 == n * pow2(r.1),
        0x10_0000_0000_0000 <= r.0 < 0x20_0000_0000_0000,
        r.1 <= 52,
    decreases 52 - shift,
{
    let top = n * pow2(shift);
    if top >= 0x10_0000_0000_0000 {
        (top, shift)
    } else {
        vstd::arithmetic::power2::lemma2_to64_rest();
        assert(shift < 52) by {
            if shift == 52 {
                assert(top >= 0x10_0000_0000_0000) by (nonlinear_arith)
                    requires
                        top == n * pow2(52),
                        pow2(52) == 0x10_0000_0000_0000,
                        n >= 1,
                ;
            }
        }
        lemma_pow2_unfold(shift + 1);
        assert(n * pow2(shift + 1) == 2 * top) by (nonlinear_arith)
            requires
                top == n * pow2(shift),
                pow2(shift + 1) == 2 * pow2(shift),
        ;
        lemma_normalise(n, shift + 1)
    }
}

/// Finds the first `e`, small or capital.
fn find_exponent(chars: &[char]) -> (r: usize)
    ensures
        r == exponent_position(chars@),
        r <= chars.len(),
{
    let mut i: usize = 0;
    while i < chars.len() && chars[i] != 'e' && chars[i] != 'E'
        invariant
            i <= chars.len(),
            forall|j: int| 0 <= j < i ==> chars@[j] != 'e' && chars@[j] != 'E',
        decreases chars.len() - i,
    {
        i += 1;
    }
    proof {
        lemma_exponent_position(chars@, i as nat);
    }
    i
}

/// Whether all characters are decimal digits.
fn are_digits(chars: &[char]) -> (r: bool)
    ensures
        r == text::all_digits(chars@),
{
    let mut i: usize = 0;
    while i < chars.len()
        invariant
            i <= chars.len(),
            forall|j: int| 0 <= j < i ==> text::is_digit(#[trigger] chars@[j]),
        decreases chars.len() - i,
    {
        if !('0' <= chars[i] && chars[i] <= '9') {
            assert(!text::is_digit(chars@[i as int]));
            return false;
        }
        i += 1;
    }
    true
}

/// The sign taken off.
fn strip_sign(chars: &[char]) -> (r: Vec<char>)
    ensures
        r@ == without_sign(chars@),
{
    if chars.len() > 0 && (chars[0] == '+' || chars[0] == '-') {
        let rest = text::range_of(chars, 1, chars.len());
        assert(rest@ =~= chars@.skip(1));
        rest
    } else {
        let rest = text::range_of(chars, 0, chars.len());
        assert(rest@ =~= chars@);
        rest
    }
}

/// A power of ten that is read exactly up to this size; more is as good as
/// this.
pub const LARGE_POWER: i128 = 0x10_0000_0000_0000_0000_0000_0000;

/// Reads a whole number, up to a size beyond which powers of ten all lead to
/// the same results.
fn parse_integer(chars: &[char]) -> (r: Option<i128>)
    ensures
        match r {
            Some(n) => {
                &&& integer_of(chars@) is Some
                &&& -LARGE_POWER <= n <= LARGE_POWER
                &&& -LARGE_POWER < n < LARGE_POWER ==> integer_of(chars@) == Some(n as int)
                &&& n == LARGE_POWER ==> integer_of(chars@)->0 >= LARGE_POWER
                &&& n == -LARGE_POWER ==> integer_of(chars@)->0 <= -LARGE_POWER
            },
            None => integer_of(chars@) is None,
        },
{
    let digits = strip_sign(chars);
    if digits.len() == 0 || !are_digits(&digits) {
        return None;
    }
    let mut value: i128 = 0;
    let mut i: usize = 0;
    assert(text::number(digits@.take(0)) == 0);
    while i < digits.len()
        invariant
            i <= digits.len(),
            text::all_digits(digits@),
            0 <= value <= LARGE_POWER,
            value < LARGE_POWER ==> value == text::number(digits@.take(i as int)),
            value == LARGE_POWER ==> text::number(digits@.take(i as int)) >= LARGE_POWER,
        decreases digits.len() - i,
    {
        assert(digits@.take(i + 1).drop_last() =~= digits@.take(i as int));
        assert(text::is_digit(digits@[i as int]));
        let next: i128 = value * 10 + (digits[i] as u8 - 48) as i128;
        value = if next >= LARGE_POWER {
            LARGE_POWER
        } else {
            next
        };
        i += 1;
    }
    assert(digits@.take(digits@.len() as int) =~= digits@);
    if chars[0] == '-' {
        Some(-value)
    } else {
        Some(value)
    }
}

proof fn lemma_number_bound(s: Seq<char>)
    requires
        text::all_digits(s),
    ensures
        text::number(s) < ten_to(s.len()),
    decreases s.len(),
{
    if s.len() > 0 {
        assert(text::all_digits(s.drop_last())) by {
            assert forall|i: int| 0 <= i < s.len() - 1 implies text::is_digit(
                #[trigger] s.drop_last()[i],
            ) by {
                assert(s.drop_last()[i] == s[i]);
            }
        }
        lemma_number_bound(s.drop_last());
        assert(text::is_digit(s[s.len() - 1]));
    }
}

/// The number that a run of digits stands for.
fn big_number(digits: &[char]) -> (r: Big)
    requires
        text::all_digits(digits@),
    ensures
        r@ == text::number(digits@),
{
    let mut out = Big::of(0);
    let mut i: usize = 0;
    assert(text::number(digits@.take(0)) == 0);
    while i < digits.len()
        invariant
            i <= digits.len(),
            text::all_digits(digits@),
            out@ == text::number(digits@.take(i as int)),
        decreases digits.len() - i,
    {
        assert(digits@.take(i + 1).drop_last() =~= digits@.take(i as int));
        assert(text::is_digit(digits@[i as int]));
        out = out.times_plus(10, (digits[i] as u8 - 48) as u32);
        i += 1;
    }
    assert(digits@.take(digits@.len() as int) =~= digits@);
    out
}

/// A number times a power of ten.
fn times_ten_to(start: &Big, count: u128) -> (r: Big)
    ensures
        r@ == start@ * ten_to(count as nat),
{
    let mut out = start.times_plus(1, 0);
    let mut i: u128 = 0;
    proof {
        assert(start@ * 1 == start@) by (nonlinear_arith);
    }
    while i < count
        invariant
            i <= count,
            out@ == start@ * ten_to(i as nat),
        decreases count - i,
    {
        out = out.times_plus(10, 0);
        proof {
            assert(start@ * ten_to(i as nat) * 10 == start@ * (10 * ten_to(i as nat)))
                by (nonlinear_arith);
        }
        i += 1;
    }
    out
}

/// A number times a power of two.
pub fn times_two_to(start: &Big, count: usize) -> (r: Big)
    ensures
        r@ == start@ * pow2(count as nat),
{
    let mut out = start.times_plus(1, 0);
    let mut i: usize = 0;
    proof {
        lemma2_to64();
        assert(start@ * 1 == start@) by (nonlinear_arith);
    }
    while i < count
        invariant
            i <= count,
            out@ == start@ * pow2(i as nat),
        decreases count - i,
    {
        out = out.times_plus(2, 0);
        proof {
            lemma_pow2_unfold((i + 1) as nat);
            assert(start@ * pow2(i as nat) * 2 == start@ * (2 * pow2(i as nat)))
                by (nonlinear_arith);
        }
        i += 1;
    }
    out
}

proof fn lemma_zero_rounds_to_zero(exponent: int)
    ensures
        rounded_decimal(0, exponent) == 0,
{
    assert(0 * ten_to(exponent as nat) * pow2(1074) == 0) by (nonlinear_arith);
    assert(0 * pow2(1074) == 0) by (nonlinear_arith);
    lemma_ten_to_adds((-exponent) as nat, 0);
    if exponent >= 0 {
        rounding::lemma_rounds_to_zero(0, 1);
        rounding::lemma_rounding_unique(0, 1, 0);
    } else {
        rounding::lemma_rounds_to_zero(0, ten_to((-exponent) as nat));
        rounding::lemma_rounding_unique(0, ten_to((-exponent) as nat), 0);
    }
}

proof fn lemma_large_rounds_to_infinity(digits: nat, exponent: int)
    requires
        digits > 0,
        exponent >= 400,
    ensures
        rounded_decimal(digits, exponent) == rounding::INFINITE,
{
    let ten = ten_to(exponent as nat);
    lemma_ten_to_exceeds(exponent as nat);
    lemma_pow2_strictly_increases(1024, (3 * exponent) as nat);
    lemma_pow2_adds(1024, 1074);
    let num = digits * ten * pow2(1074);
    assert(num >= pow2(2098) * 1) by (nonlinear_arith)
        requires
            num == digits * ten * pow2(1074),
            digits >= 1,
            ten >= pow2(1024),
            pow2(2098) == pow2(1024) * pow2(1074),
    ;
    rounding::lemma_rounds_to_infinity(num, 1);
    rounding::lemma_rounding_unique(num, 1, rounding::INFINITE as nat);
}

proof fn lemma_small_rounds_to_zero(digits: nat, length: nat, exponent: int)
    requires
        digits < ten_to(length),
        exponent <= -(length + 400),
    ensures
        rounded_decimal(digits, exponent) == 0,
{
    let den = ten_to((-exponent) as nat);
    let rest = (-exponent - length) as nat;
    lemma_ten_to_adds(length, rest);
    lemma_ten_to_exceeds(rest);
    lemma_pow2_strictly_increases(1075, (3 * rest) as nat);
    lemma_pow2_unfold(1075);
    assert(length + rest == (-exponent) as nat);
    let num = digits * pow2(1074);
    assert(2 * num < den) by (nonlinear_arith)
        requires
            num == digits * pow2(1074),
            digits < ten_to(length),
            den == ten_to(length) * ten_to(rest),
            ten_to(rest) >= 2 * pow2(1074),
            ten_to(rest) > 0,
    ;
    rounding::lemma_rounds_to_zero(num, den);
    rounding::lemma_rounding_unique(num, den, 0);
}

/// Rounds a number written in decimal, given its digits and the power of ten.
/// A power that is out of the range that can be told apart stands for all
/// beyond it.
fn round_decimal(digits: &[char], power: i128, fraction: usize, Ghost(exponent): Ghost<int>) -> (r:
    u64)
    requires
        text::all_digits(digits@),
        fraction <= digits.len(),
        -LARGE_POWER <= power <= LARGE_POWER,
        -LARGE_POWER < power < LARGE_POWER ==> exponent == power - fraction,
        power == LARGE_POWER ==> exponent >= LARGE_POWER - fraction,
        power == -LARGE_POWER ==> exponent <= -LARGE_POWER - fraction,
    ensures
        r == rounded_decimal(text::number(digits@), exponent),
        r <= rounding::INFINITE,
{
    let number = big_number(digits);
    let length: i128 = digits.len() as i128;
    let reached: i128 = power - fraction as i128;
    proof {
        lemma_number_bound(digits@);
        assert(usize::MAX <= 0xffff_ffff_ffff_ffff);
    }
    if Big::of(0).minus(&number).is_some() {
        proof {
            lemma_zero_rounds_to_zero(exponent);
        }
        return 0;
    }
    if reached >= 400 {
        proof {
            lemma_large_rounds_to_infinity(text::number(digits@), exponent);
        }
        return rounding::INFINITE;
    }
    if reached <= -(length + 400) {
        proof {
            lemma_small_rounds_to_zero(text::number(digits@), digits@.len(), exponent);
        }
        return 0;
    }
    assert(exponent == reached);
    if reached >= 0 {
        let scaled = times_ten_to(&number, reached as u128);
        let num = times_two_to(&scaled, 1074);
        rounding::round(&num, &Big::of(1))
    } else {
        let num = times_two_to(&number, 1074);
        let one = Big::of(1);
        let count: i128 = -reached;
        let den = times_ten_to(&one, count as u128);
        proof {
            lemma_ten_to_adds(count as nat, 0);
            assert(1 * ten_to(count as nat) == ten_to(count as nat)) by (nonlinear_arith);
        }
        rounding::round(&num, &den)
    }
}

/// Reads a decimal number as the nearest double-precision number. Names for
/// infinities, or for what is no number, are not decimal numbers.
pub fn parse_decimal(chars: &[char]) -> (r: Option<Binary64>)
    ensures
        r == float_of(chars@),
{
    let body = strip_sign(chars);
    let end: usize = find_exponent(&body);
    let mantissa = text::range_of(&body, 0, end);
    assert(mantissa@ =~= body@.take(end as int));
    let point: usize = text::find_from(&mantissa, 0, '.');
    assert(mantissa@.skip(0) =~= mantissa@);
    let mut digits = text::range_of(&mantissa, 0, point);
    assert(digits@ =~= mantissa@.take(point as int));
    let fraction = if point < mantissa.len() {
        let part = text::range_of(&mantissa, point + 1, mantissa.len());
        assert(part@ =~= mantissa@.skip(point + 1));
        part
    } else {
        let part: Vec<char> = Vec::new();
        assert(part@ =~= Seq::<char>::empty());
        part
    };
    text::push_all(&mut digits, &fraction);
    if digits.len() == 0 || !are_digits(&digits) {
        return None;
    }
    let power: i128 = if end < body.len() {
        let written = text::range_of(&body, end + 1, body.len());
        assert(written@ =~= body@.skip(end + 1));
        match parse_integer(&written) {
            Some(n) => n,
            None => {
                return None;
            },
        }
    } else {
        0
    };
    let ghost exponent = decimal_of(chars@)->0.exponent;
    let magnitude: u64 = round_decimal(&digits, power, fraction.len(), Ghost(exponent));
    if chars[0] == '-' {
        Some(Binary64 { bits: magnitude + 0x8000_0000_0000_0000 })
    } else {
        Some(Binary64 { bits: magnitude })
    }
}

/// A decimal number is read digit by digit: a sign in front counts, a point
/// divides by ten for each digit behind it, and a power of ten may follow an `e`
/// in either case.
pub proof fn lemma_reading_decimals(before: Seq<char>, after: Seq<char>, power: nat)
    requires
        before.len() > 0,
        text::all_digits(before),
        text::all_digits(after),
    ensures
        decimal_of(before + seq!['.'] + after) == Some(
            (Decimal {
                negative: false,
                digits: text::number(before + after),
                exponent: -(after.len() as int),
            }),
        ),
        decimal_of(seq!['-'] + before) == Some(
            (Decimal { negative: true, digits: text::number(before), exponent: 0 }),
        ),
        decimal_of(before + seq!['e'] + text::decimal(power)) == Some(
            (Decimal { negative: false, digits: text::number(before), exponent: power as int }),
        ),
        decimal_of(before + seq!['E', '-'] + text::decimal(power)) == Some(
            (Decimal { negative: false, digits: text::number(before), exponent: -(power as int) }),
        ),
        decimal_of(Seq::empty()) is None,
{
    assert forall|i: int| 0 <= i < before.len() implies before[i] != 'e' && before[i] != 'E'
        && before[i] != '.' && before[i] != '+' && before[i] != '-' by {
        assert(text::is_digit(before[i]));
    }
    assert forall|i: int| 0 <= i < after.len() implies after[i] != 'e' && after[i] != 'E' by {
        assert(text::is_digit(after[i]));
    }
    let none = Seq::<char>::empty();
    assert(before + none =~= before);
    let n = before.len() as int;

    let s = before + seq!['.'] + after;
    assert forall|i: int| 0 <= i < s.len() implies s[i] != 'e' && s[i] != 'E' by {
        if i < n {
            assert(s[i] == before[i]);
        } else if i > n {
            assert(s[i] == after[i - n - 1]);
        }
    }
    assert(s[0] == before[0]);
    assert(without_sign(s) == s);
    lemma_exponent_position(s, s.len());
    assert(s.take(s.len() as int) =~= s);
    assert forall|i: int| 0 <= i < n implies s[i] != '.' by {
        assert(s[i] == before[i]);
    }
    assert(s[n] == '.');
    text::lemma_position_unique(s, '.', n as nat);
    assert(s.take(n) =~= before);
    assert(s.skip(n + 1) =~= after);
    let both = before + after;
    assert forall|i: int| 0 <= i < both.len() implies text::is_digit(#[trigger] both[i]) by {
        if i < n {
            assert(both[i] == before[i]);
        } else {
            assert(both[i] == after[i - n]);
        }
    }

    let m = seq!['-'] + before;
    assert(without_sign(m) =~= before);
    lemma_exponent_position(before, before.len());
    assert(before.take(n) =~= before);
    text::lemma_position_unique(before, '.', before.len());

    text::lemma_decimal_read_back(power);
    let tail = text::decimal(power);
    let e = before + seq!['e'] + tail;
    assert(e[0] == before[0]);
    assert(without_sign(e) == e);
    assert forall|i: int| 0 <= i < n implies e[i] != 'e' && e[i] != 'E' by {
        assert(e[i] == before[i]);
    }
    assert(e[n] == 'e');
    lemma_exponent_position(e, n as nat);
    assert(e.take(n) =~= before);
    assert(e.skip(n + 1) =~= tail);
    assert(text::is_digit(tail[0]));
    assert(without_sign(tail) == tail);

    let f = before + seq!['E', '-'] + tail;
    assert(f[0] == before[0]);
    assert(without_sign(f) == f);
    assert forall|i: int| 0 <= i < n implies f[i] != 'e' && f[i] != 'E' by {
        assert(f[i] == before[i]);
    }
    assert(f[n] == 'E');
    lemma_exponent_position(f, n as nat);
    assert(f.take(n) =~= before);
    let signed = f.skip(n + 1);
    assert(signed =~= seq!['-'] + tail);
    assert(without_sign(signed) =~= tail);
}

/// A whole number in decimal digits is read as just that number.
pub proof fn lemma_reading_whole_numbers(n: nat)
    requires
        n < 0x20_0000_0000_0000,
    ensures
        float_of(text::decimal(n)) matches Some(float) && {
            &&& !float.is_negative()
            &&& float.is_finite_number()
            &&& float.value() == n * pow2(1074)
        },
{
    lemma_decimal_of_digits(n);
    lemma_whole_numbers_are_exact(n);
}

} // verus!
