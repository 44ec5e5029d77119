//! Rounding a fraction to the nearest double-precision number.

use crate::big::Big;
use crate::binary64;
use vstd::arithmetic::power2::{
    lemma2_to64, lemma2_to64_rest, lemma_pow2_adds, lemma_pow2_pos, lemma_pow2_unfold, pow2,
};
use vstd::prelude::*;

verus! {

/// The bits below the sign of an infinity.
pub const INFINITE: u64 = 0x7ff0_0000_0000_0000;

/// Whether the number with these bits below its sign is what a fraction, given
/// in units of the smallest positive number, is rounded to: no number is nearer,
/// and of two that are equally near it is the one whose last bit is zero. What
/// is at least as near to the next power of two as to the largest finite number
/// is rounded to an infinity.
pub open spec fn is_rounding(num: nat, den: nat, magnitude: nat) -> bool {
    &&& magnitude <= INFINITE
    &&& magnitude > 0 ==> {
        let middle = (binary64::units((magnitude - 1) as nat) + binary64::units(magnitude)) * den;
        middle < 2 * num || middle == 2 * num && magnitude % 2 == 0
    }
    &&& magnitude < INFINITE ==> {
        let middle = (binary64::units(magnitude) + binary64::units(magnitude + 1)) * den;
        2 * num < middle || 2 * num == middle && magnitude % 2 == 0
    }
}

/// What a fraction, given in units of the smallest positive number, is rounded
/// to: the bits below the sign.
pub open spec fn rounded(num: nat, den: nat) -> nat {
    choose|magnitude: nat| is_rounding(num, den, magnitude)
}

proof fn lemma_units_increase_weakly(a: nat, b: nat)
    requires
        a <= b,
    ensures
        binary64::units(a) <= binary64::units(b),
{
    binary64::lemma_units_increase(a, b);
}

proof fn lemma_rounding_ordered(num: nat, den: nat, a: nat, b: nat)
    requires
        den > 0,
        is_rounding(num, den, a),
        is_rounding(num, den, b),
    ensures
        a >= b,
{
    if a < b {
        let below = binary64::units(a) + binary64::units(a + 1);
        let above = binary64::units((b - 1) as nat) + binary64::units(b);
        lemma_units_increase_weakly(a, (b - 1) as nat);
        lemma_units_increase_weakly(a + 1, b);
        assert(below * den <= above * den) by (nonlinear_arith)
            requires
                below <= above,
        ;
        assert(a % 2 == 0 && b % 2 == 0);
        binary64::lemma_units_increase(a, (b - 1) as nat);
        assert(below < above);
        assert(below * den < above * den) by (nonlinear_arith)
            requires
                below < above,
                den > 0,
        ;
    }
}

/// There is only one number that a fraction is rounded to.
pub proof fn lemma_rounding_unique(num: nat, den: nat, magnitude: nat)
    requires
        den > 0,
        is_rounding(num, den, magnitude),
    ensures
        rounded(num, den) == magnitude,
{
    let other = rounded(num, den);
    lemma_rounding_ordered(num, den, magnitude, other);
    lemma_rounding_ordered(num, den, other, magnitude);
}

/// What the bits for a scale and 53 leading bits stand for.
pub proof fn lemma_units_of(scale: nat, top: nat)
    requires
        top <= 0x20_0000_0000_0000,
        scale == 0 || top >= 0x10_0000_0000_0000,
    ensures
        binary64::units(scale * 0x10_0000_0000_0000 + top) == top * pow2(scale),
{
    let unit = 0x10_0000_0000_0000nat;
    let magnitude = scale * unit + top;
    lemma2_to64();
    lemma_pow2_unfold(scale + 1);
    if top < unit {
        assert(magnitude == top);
    } else if top < 2 * unit {
        assert(magnitude == (scale + 1) * unit + (top - unit)) by (nonlinear_arith)
            requires
                magnitude == scale * unit + top,
        ;
        assert(magnitude / unit == scale + 1 && magnitude % unit == top - unit) by {
            vstd::arithmetic::div_mod::lemma_fundamental_div_mod_converse(
                magnitude as int,
                unit as int,
                (scale + 1) as int,
                top - unit,
            );
        }
    } else {
        assert(magnitude == (scale + 2) * unit) by (nonlinear_arith)
            requires
                magnitude == scale * unit + top,
                top == 2 * unit,
        ;
        assert(magnitude / unit == scale + 2 && magnitude % unit == 0) by {
            vstd::arithmetic::div_mod::lemma_fundamental_div_mod_converse(
                magnitude as int,
                unit as int,
                (scale + 2) as int,
                0,
            );
        }
        assert(unit * (2 * pow2(scale)) == (2 * unit) * pow2(scale)) by (nonlinear_arith);
    }
}

/// What a number stands for is rounded to that number.
pub proof fn lemma_exact(magnitude: nat, den: nat)
    requires
        den > 0,
        magnitude < INFINITE,
    ensures
        rounded(binary64::units(magnitude) * den, den) == magnitude,
{
    let u = binary64::units(magnitude);
    let num = u * den;
    let above = binary64::units(magnitude + 1);
    binary64::lemma_units_increase(magnitude, magnitude + 1);
    assert(2 * num < (u + above) * den) by (nonlinear_arith)
        requires
            num == u * den,
            u < above,
            den > 0,
    ;
    if magnitude > 0 {
        let below = binary64::units((magnitude - 1) as nat);
        binary64::lemma_units_increase((magnitude - 1) as nat, magnitude);
        assert((below + u) * den < 2 * num) by (nonlinear_arith)
            requires
                num == u * den,
                below < u,
                den > 0,
        ;
    }
    lemma_rounding_unique(num, den, magnitude);
}

/// A fraction that is at least as much as an infinity stands for is rounded to
/// one.
pub proof fn lemma_rounds_to_infinity(num: nat, den: nat)
    requires
        num >= pow2(2098) * den,
    ensures
        is_rounding(num, den, INFINITE as nat),
{
    lemma_units_of(2046, 0x10_0000_0000_0000);
    assert(2046 * 0x10_0000_0000_0000 + 0x10_0000_0000_0000 == INFINITE);
    lemma2_to64_rest();
    lemma_pow2_adds(52, 2046);
    let top = binary64::units(INFINITE as nat);
    assert(top == pow2(2098)) by {
        assert(pow2(52) == 0x10_0000_0000_0000);
    }
    let below = binary64::units((INFINITE - 1) as nat);
    binary64::lemma_units_increase((INFINITE - 1) as nat, INFINITE as nat);
    assert((below + top) * den <= 2 * num) by (nonlinear_arith)
        requires
            below <= top,
            top * den <= num,
    ;
}

/// A fraction that is less than half of the smallest positive number is rounded
/// to zero.
pub proof fn lemma_rounds_to_zero(num: nat, den: nat)
    requires
        2 * num < den,
    ensures
        is_rounding(num, den, 0),
{
    lemma_units_of(0, 0);
    lemma_units_of(0, 1);
    lemma2_to64();
    assert((0 + 1) * den == den) by (nonlinear_arith);
}

/// The doublings of a number, as many as asked for.
fn doublings(start: &Big, count: usize) -> (r: Vec<Big>)
    requires
        count < 10000,
    ensures
        r.len() == count + 1,
        forall|i: int| 0 <= i <= count ==> #[trigger] r@[i]@ == start@ * pow2(i as nat),
{
    let mut out: Vec<Big> = Vec::new();
    let first = start.times_plus(1, 0);
    out.push(first);
    proof {
        lemma2_to64();
        assert(start@ * 1 == start@) by (nonlinear_arith);
    }
    while out.len() <= count
        invariant
            1 <= out.len() <= count + 1,
            count < 10000,
            forall|i: int| 0 <= i < out.len() ==> #[trigger] out@[i]@ == start@ * pow2(i as nat),
        decreases count + 1 - out.len(),
    {
        let last: usize = out.len() - 1;
        let next = out[last].times_plus(2, 0);
        proof {
            lemma_pow2_unfold((last + 1) as nat);
            assert(start@ * pow2(last as nat) * 2 == start@ * (2 * pow2(last as nat)))
                by (nonlinear_arith);
        }
        out.push(next);
    }
    out
}

/// How often the fraction has to be halved to be less than 2 to the power of
/// 53; no more than 2046 times.
fn scale_of(num: &Big, multiples: &Vec<Big>, Ghost(den): Ghost<nat>) -> (r: usize)
    requires
        multiples.len() == 2100,
        forall|i: int| 0 <= i < 2100 ==> #[trigger] multiples@[i]@ == den * pow2(i as nat),
    ensures
        r <= 2046,
        r < 2046 ==> num@ < den * pow2((r + 53) as nat),
        r > 0 ==> num@ >= den * pow2((r + 52) as nat),
{
    let mut scale: usize = 0;
    while scale < 2046
        invariant
            scale <= 2046,
            multiples.len() == 2100,
            forall|i: int| 0 <= i < 2100 ==> #[trigger] multiples@[i]@ == den * pow2(i as nat),
            scale > 0 ==> num@ >= den * pow2((scale + 52) as nat),
        decreases 2046 - scale,
    {
        if num.minus(&multiples[scale + 53]).is_none() {
            return scale;
        }
        scale += 1;
    }
    scale
}

/// Divides by repeated subtraction of doubled divisors: the quotient, which is
/// less than 2 to the power of 53, and the remainder.
fn divide(num: &Big, multiples: &Vec<Big>, scale: usize, Ghost(den): Ghost<nat>) -> (r: (u64, Big))
    requires
        scale < 2046,
        multiples.len() == 2100,
        forall|i: int| 0 <= i < 2100 ==> #[trigger] multiples@[i]@ == den * pow2(i as nat),
        num@ < den * pow2((scale + 53) as nat),
    ensures
        num@ == r.0 * (den * pow2(scale as nat)) + r.1@,
        r.1@ < den * pow2(scale as nat),
        r.0 < 0x20_0000_0000_0000,
{
    let ghost divisor = den * pow2(scale as nat);
    let mut rest = num.times_plus(1, 0);
    let mut top: u64 = 0;
    let mut bit: u64 = 0x20_0000_0000_0000;
    let mut i: usize = 53;
    proof {
        lemma2_to64_rest();
        assert(num@ * 1 == num@) by (nonlinear_arith);
        assert(0 * divisor == 0) by (nonlinear_arith);
    }
    while i > 0
        invariant
            i <= 53,
            scale < 2046,
            multiples.len() == 2100,
            forall|i: int| 0 <= i < 2100 ==> #[trigger] multiples@[i]@ == den * pow2(i as nat),
            divisor == den * pow2(scale as nat),
            bit == pow2(i as nat),
            top + bit <= 0x20_0000_0000_0000,
            num@ == top * divisor + rest@,
            rest@ < den * pow2((scale + i) as nat),
        decreases i,
    {
        i -= 1;
        proof {
            lemma_pow2_unfold((i + 1) as nat);
            lemma_pow2_unfold((scale + i + 1) as nat);
            lemma_pow2_adds(scale as nat, i as nat);
        }
        bit = bit / 2;
        let ghost part = den * pow2((scale + i) as nat);
        proof {
            assert(part == bit * divisor) by (nonlinear_arith)
                requires
                    part == den * pow2((scale + i) as nat),
                    pow2((scale + i) as nat) == pow2(scale as nat) * pow2(i as nat),
                    divisor == den * pow2(scale as nat),
                    bit == pow2(i as nat),
            ;
            assert(den * pow2((scale + i + 1) as nat) == 2 * part) by (nonlinear_arith)
                requires
                    part == den * pow2((scale + i) as nat),
                    pow2((scale + i + 1) as nat) == 2 * pow2((scale + i) as nat),
            ;
        }
        if let Some(less) = rest.minus(&multiples[scale + i]) {
            proof {
                assert((top + bit) * divisor == top * divisor + bit * divisor)
                    by (nonlinear_arith);
            }
            rest = less;
            top = top + bit;
        }
    }
    proof {
        lemma2_to64();
    }
    (top, rest)
}

/// Rounds a fraction, given in units of the smallest positive number: the bits
/// below the sign.
pub fn round(num: &Big, den: &Big) -> (r: u64)
    requires
        den@ > 0,
    ensures
        is_rounding(num@, den@, r as nat),
        r == rounded(num@, den@),
{
    let multiples = doublings(den, 2099);
    let scale: usize = scale_of(num, &multiples, Ghost(den@));
    if scale == 2046 {
        proof {
            assert(pow2(2098) * den@ == den@ * pow2(2098)) by (nonlinear_arith);
            lemma_rounds_to_infinity(num@, den@);
            lemma_rounding_unique(num@, den@, INFINITE as nat);
        }
        return INFINITE;
    }
    let (top, rest) = divide(num, &multiples, scale, Ghost(den@));
    let twice = rest.times_plus(2, 0);
    let up: bool = match multiples[scale].minus(&twice) {
        None => true,
        Some(left) => {
            let nothing = Big::of(0).minus(&left).is_some();
            nothing && top % 2 == 1
        },
    };
    let low: u64 = scale as u64 * 0x10_0000_0000_0000 + top;
    let magnitude: u64 = if up {
        low + 1
    } else {
        low
    };
    proof {
        let d = den@;
        let s = scale as nat;
        let divisor = d * pow2(s);
        let p = pow2(s);
        lemma_pow2_pos(s);
        if s > 0 {
            lemma_pow2_adds(52, s);
            lemma2_to64_rest();
            assert(top >= 0x10_0000_0000_0000) by (nonlinear_arith)
                requires
                    num@ == top * divisor + rest@,
                    rest@ < divisor,
                    num@ >= d * pow2((s + 52) as nat),
                    pow2((s + 52) as nat) == 0x10_0000_0000_0000 * p,
                    divisor == d * p,
            ;
        }
        lemma_units_of(s, top as nat);
        lemma_units_of(s, (top + 1) as nat);
        assert(low == s * 0x10_0000_0000_0000 + top);
        assert(low % 2 == top % 2) by (nonlinear_arith)
            requires
                low == s * 0x10_0000_0000_0000 + top,
        ;
        let u = binary64::units(low as nat);
        let v = binary64::units((low + 1) as nat);
        assert((u + v) * d == 2 * (top * divisor) + divisor) by (nonlinear_arith)
            requires
                u == top * p,
                v == (top + 1) * p,
                divisor == d * p,
        ;
        assert(2 * num@ == 2 * (top * divisor) + twice@);
        if up {
            let w = binary64::units((low + 2) as nat);
            binary64::lemma_units_increase((low + 1) as nat, (low + 2) as nat);
            assert(2 * (v * d) == 2 * (top * divisor) + 2 * divisor) by (nonlinear_arith)
                requires
                    v == (top + 1) * p,
                    divisor == d * p,
            ;
            assert(2 * (v * d) < (v + w) * d) by (nonlinear_arith)
                requires
                    v < w,
                    d > 0,
            ;
        } else if low > 0 {
            let t = binary64::units((low - 1) as nat);
            binary64::lemma_units_increase((low - 1) as nat, low as nat);
            assert(u * d == top * divisor) by (nonlinear_arith)
                requires
                    u == top * p,
                    divisor == d * p,
            ;
            assert((t + u) * d < 2 * (u * d)) by (nonlinear_arith)
                requires
                    t < u,
                    d > 0,
            ;
        }
        lemma_rounding_unique(num@, den@, magnitude as nat);
    }
    magnitude
}

/// More is not rounded to less.
pub proof fn lemma_rounding_monotone(num: nat, more: nat, den: nat, a: nat, b: nat)
    requires
        den > 0,
        num <= more,
        is_rounding(num, den, a),
        is_rounding(more, den, b),
    ensures
        a <= b,
{
    if b < a {
        let below = binary64::units(b) + binary64::units(b + 1);
        let above = binary64::units((a - 1) as nat) + binary64::units(a);
        lemma_units_increase_weakly(b, (a - 1) as nat);
        lemma_units_increase_weakly(b + 1, a);
        assert(below * den <= above * den) by (nonlinear_arith)
            requires
                below <= above,
        ;
        assert(num == more);
        lemma_rounding_ordered(num, den, a, b);
        lemma_rounding_ordered(num, den, b, a);
    }
}

/// Every fraction is rounded to some number.
pub proof fn lemma_rounding_exists(num: nat, den: nat)
    requires
        den > 0,
    ensures
        is_rounding(num, den, rounded(num, den)),
{
    lemma_rounding_search(num, den, 0);
}

/// Whether the middle between a number and the next is above a fraction, or is
/// the fraction and the number's last bit is zero.
spec fn is_below_middle(num: nat, den: nat, magnitude: nat) -> bool {
    let middle = (binary64::units(magnitude) + binary64::units(magnitude + 1)) * den;
    2 * num < middle || 2 * num == middle && magnitude % 2 == 0
}

proof fn lemma_rounding_search(num: nat, den: nat, from: nat)
    requires
        den > 0,
        from <= INFINITE,
        from > 0 ==> !is_below_middle(num, den, (from - 1) as nat),
    ensures
        is_rounding(num, den, rounded(num, den)),
    decreases INFINITE - from,
{
    if from == INFINITE || is_below_middle(num, den, from) {
        assert(is_rounding(num, den, from)) by {
            if from > 0 {
                assert(!is_below_middle(num, den, (from - 1) as nat));
                assert((from - 1) as nat + 1 == from);
            }
        }
    } else {
        lemma_rounding_search(num, den, from + 1);
    }
}

/// A number that is not very small or very large differs from the fraction that
/// was rounded to it by at most one part in 2 to the power of 53.
pub proof fn lemma_rounding_error(num: nat, den: nat, magnitude: nat)
    requires
        den > 0,
        is_rounding(num, den, magnitude),
        num >= 0x20_0000_0000_0000 * den,
        num < pow2(2097) * den,
    ensures
        0x10_0000_0000_0000 <= magnitude < INFINITE,
        0x20_0000_0000_0000 * (num - binary64::units(magnitude) * den) <= binary64::units(magnitude)
            * den,
        0x20_0000_0000_0000 * (binary64::units(magnitude) * den - num) <= binary64::units(magnitude)
            * den,
{
    let unit = 0x10_0000_0000_0000nat;
    let u = binary64::units(magnitude);
    lemma2_to64_rest();
    lemma2_to64();
    if magnitude < unit {
        let above = binary64::units(magnitude + 1);
        lemma_units_increase_weakly(magnitude + 1, unit);
        lemma_units_increase_weakly(magnitude, unit);
        lemma_units_of(0, unit);
        assert((u + above) * den <= 2 * unit * den) by (nonlinear_arith)
            requires
                u + above <= 2 * unit,
        ;
        assert(2 * num > 2 * unit * den) by (nonlinear_arith)
            requires
                num >= 2 * unit * den,
                den > 0,
                unit > 0,
        ;
        assert(false);
    }
    if magnitude == INFINITE {
        let below = binary64::units((INFINITE - 1) as nat);
        lemma_units_of(2046, unit);
        assert(2046 * unit + unit == INFINITE);
        lemma_pow2_adds(52, 2046);
        lemma_pow2_unfold(2098);
        assert((below + u) * den >= 2 * (pow2(2097) * den)) by (nonlinear_arith)
            requires
                u == 2 * pow2(2097),
                below >= 0,
        ;
        assert(false);
    }
    let scale = (magnitude / unit - 1) as nat;
    let top = unit + magnitude % unit;
    assert(magnitude == scale * unit + top) by {
        vstd::arithmetic::div_mod::lemma_fundamental_div_mod(magnitude as int, unit as int);
        assert(unit * (magnitude / unit) == scale * unit + unit) by (nonlinear_arith)
            requires
                scale == magnitude / unit - 1,
        ;
    }
    let p = pow2(scale);
    lemma_pow2_pos(scale);
    lemma_units_of(scale, top);
    lemma_units_of(scale, top + 1);
    let above = binary64::units(magnitude + 1);
    let below = binary64::units((magnitude - 1) as nat);
    assert(above == u + p) by (nonlinear_arith)
        requires
            above == (top + 1) * p,
            u == top * p,
    ;
    assert(below + p >= u) by {
        if top > unit || scale == 0 {
            lemma_units_of(scale, (top - 1) as nat);
            assert(below + p == u) by (nonlinear_arith)
                requires
                    below == (top - 1) * p,
                    u == top * p,
            ;
        } else {
            let q = pow2((scale - 1) as nat);
            lemma_pow2_unfold(scale);
            lemma_units_of((scale - 1) as nat, (2 * unit - 1) as nat);
            assert(magnitude - 1 == (scale - 1) * unit + (2 * unit - 1)) by (nonlinear_arith)
                requires
                    magnitude == scale * unit + top,
                    top == unit,
            ;
            assert(below + p >= u) by (nonlinear_arith)
                requires
                    below == (2 * unit - 1) * q,
                    p == 2 * q,
                    u == unit * p,
                    q >= 0,
            ;
        }
    }
    assert(0x10_0000_0000_0000 * p <= u) by (nonlinear_arith)
        requires
            u == top * p,
            top >= 0x10_0000_0000_0000,
    ;
    assert(0x20_0000_0000_0000 * (num - u * den) <= u * den) by (nonlinear_arith)
        requires
            2 * num <= (u + above) * den,
            above == u + p,
            0x10_0000_0000_0000 * p <= u,
    ;
    assert(0x20_0000_0000_0000 * (u * den - num) <= u * den) by (nonlinear_arith)
        requires
            (below + u) * den <= 2 * num,
            below + p >= u,
            0x10_0000_0000_0000 * p <= u,
    ;
}

} // verus!
