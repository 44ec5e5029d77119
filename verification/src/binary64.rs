//! Double-precision numbers as their 64 bits: what they stand for, their order
//! and their limits. Arithmetic on them is left to the machine.

use vstd::arithmetic::power2::{lemma_pow2_pos, lemma_pow2_strictly_increases, lemma_pow2_unfold, pow2};
use vstd::prelude::*;

verus! {

/// A double-precision number in the interchange encoding: one bit for the sign,
/// eleven for the exponent and 52 for the fraction.
#[derive(Clone, Copy, Debug, PartialEq, Eq, Structural)]
pub struct Binary64 {
    /// The encoding.
    pub bits: u64,
}

/// What the bits below the sign stand for, in units of the smallest positive
/// number, 2 to the power of -1074.
pub open spec fn units(magnitude: nat) -> nat {
    let exponent = magnitude / 0x10_0000_0000_0000;
    let fraction = magnitude % 0x10_0000_0000_0000;
    if exponent == 0 {
        fraction
    } else {
        (0x10_0000_0000_0000 + fraction) * pow2((exponent - 1) as nat)
    }
}

impl Binary64 {
    /// The bits below the sign.
    pub open spec fn magnitude(self) -> nat {
        (self.bits as nat) % 0x8000_0000_0000_0000
    }

    /// Whether the sign bit is set.
    pub open spec fn is_negative(self) -> bool {
        self.bits >= 0x8000_0000_0000_0000
    }

    /// Whether the bits stand for no number.
    pub open spec fn is_nan(self) -> bool {
        self.magnitude() > 0x7ff0_0000_0000_0000
    }

    /// Whether the bits stand for a number and for no infinity.
    pub open spec fn is_finite_number(self) -> bool {
        self.magnitude() < 0x7ff0_0000_0000_0000
    }

    /// Whether the number is finite and not below zero.
    pub open spec fn is_amount(self) -> bool {
        self.bits < 0x7ff0_0000_0000_0000
    }

    /// The number in units of the smallest positive one. An infinity is more,
    /// in its direction, than every finite number.
    pub open spec fn value(self) -> int {
        if self.is_negative() {
            -(units(self.magnitude()) as int)
        } else {
            units(self.magnitude()) as int
        }
    }

    /// Whether both are numbers and this one is at most the other.
    pub open spec fn le(self, other: Binary64) -> bool {
        !self.is_nan() && !other.is_nan() && self.value() <= other.value()
    }

    /// Whether both are numbers and this one is less than the other.
    pub open spec fn lt(self, other: Binary64) -> bool {
        !self.is_nan() && !other.is_nan() && self.value() < other.value()
    }

    /// The nearest number between two limits; what is no number stays so.
    pub open spec fn clamped(self, low: Binary64, high: Binary64) -> Binary64 {
        if self.lt(low) {
            low
        } else if high.lt(self) {
            high
        } else {
            self
        }
    }

    /// Whether the bits stand for a number and for no infinity.
    pub fn is_finite(self) -> (r: bool)
        ensures
            r == self.is_finite_number(),
    {
        self.bits % 0x8000_0000_0000_0000 < 0x7ff0_0000_0000_0000
    }

    /// The order of a number among all numbers: equal numbers have equal ranks.
    fn rank(self) -> (r: i64)
        ensures
            !self.is_negative() ==> r == self.magnitude(),
            self.is_negative() ==> r == -(self.magnitude() as int),
    {
        let magnitude: u64 = self.bits % 0x8000_0000_0000_0000;
        if self.bits >= 0x8000_0000_0000_0000 {
            -(magnitude as i64)
        } else {
            magnitude as i64
        }
    }

    /// Whether both are numbers and this one is less than the other.
    pub fn is_less(self, other: Binary64) -> (r: bool)
        ensures
            r == self.lt(other),
    {
        let left: u64 = self.bits % 0x8000_0000_0000_0000;
        let right: u64 = other.bits % 0x8000_0000_0000_0000;
        if left > 0x7ff0_0000_0000_0000 || right > 0x7ff0_0000_0000_0000 {
            return false;
        }
        proof {
            lemma_units_increase(left as nat, right as nat);
            lemma_units_increase(right as nat, left as nat);
            lemma_units_zero(left as nat);
            lemma_units_zero(right as nat);
        }
        self.rank() < other.rank()
    }

    /// Whether both are numbers and this one is at most the other.
    pub fn is_at_most(self, other: Binary64) -> (r: bool)
        ensures
            r == self.le(other),
    {
        let left: u64 = self.bits % 0x8000_0000_0000_0000;
        let right: u64 = other.bits % 0x8000_0000_0000_0000;
        if left > 0x7ff0_0000_0000_0000 || right > 0x7ff0_0000_0000_0000 {
            return false;
        }
        proof {
            lemma_units_increase(left as nat, right as nat);
            lemma_units_increase(right as nat, left as nat);
            lemma_units_zero(left as nat);
            lemma_units_zero(right as nat);
        }
        self.rank() <= other.rank()
    }

    /// Whether this is a number between two limits.
    pub fn is_within(self, low: Binary64, high: Binary64) -> (r: bool)
        ensures
            r == (low.le(self) && self.le(high)),
    {
        low.is_at_most(self) && self.is_at_most(high)
    }

    /// The nearest number between two limits; what is no number stays so.
    pub fn clamp(self, low: Binary64, high: Binary64) -> (r: Binary64)
        ensures
            r == self.clamped(low, high),
    {
        if self.is_less(low) {
            low
        } else if high.is_less(self) {
            high
        } else {
            self
        }
    }
}

/// More bits below the sign stand for more units.
pub proof fn lemma_units_increase(a: nat, b: nat)
    ensures
        a < b ==> units(a) < units(b),
{
    if a < b {
        let unit = 0x10_0000_0000_0000nat;
        let (ea, eb) = (a / unit, b / unit);
        let (fa, fb) = (a % unit, b % unit);
        assert(a == ea * unit + fa && b == eb * unit + fb);
        if ea == eb {
            if ea > 0 {
                let p = pow2((ea - 1) as nat);
                lemma_pow2_pos((ea - 1) as nat);
                assert((unit + fa) * p < (unit + fb) * p) by (nonlinear_arith)
                    requires
                        fa < fb,
                        p > 0,
                ;
            }
        } else {
            assert(ea < eb) by (nonlinear_arith)
                requires
                    a < b,
                    a == ea * unit + fa,
                    b == eb * unit + fb,
                    ea != eb,
                    fa < unit,
                    fb < unit,
                    unit == 0x10_0000_0000_0000,
            ;
            let q = pow2((eb - 1) as nat);
            lemma_pow2_pos((eb - 1) as nat);
            assert(unit * q <= (unit + fb) * q) by (nonlinear_arith)
                requires
                    q > 0,
            ;
            if ea == 0 {
                assert(unit <= unit * q) by (nonlinear_arith)
                    requires
                        q >= 1,
                        unit >= 0,
                ;
            } else {
                let p = pow2((ea - 1) as nat);
                lemma_pow2_pos((ea - 1) as nat);
                lemma_pow2_unfold(ea);
                assert((unit + fa) * p < unit * (2 * p)) by (nonlinear_arith)
                    requires
                        fa < unit,
                        p > 0,
                ;
                if ea < eb - 1 {
                    lemma_pow2_strictly_increases(ea, (eb - 1) as nat);
                }
                assert(unit * pow2(ea) <= unit * q) by (nonlinear_arith)
                    requires
                        pow2(ea) <= q,
                ;
            }
        }
    }
}

proof fn lemma_units_zero(a: nat)
    ensures
        units(a) == 0 <==> a == 0,
{
    lemma_units_increase(0, a);
}

/// A number whose leading digits and exponent give a whole number stands for it,
/// counted in units of 2 to the power of -1074.
pub proof fn lemma_whole_number(magnitude: nat, k: nat, n: nat)
    requires
        magnitude / 0x10_0000_0000_0000 == 1023 + k,
        (0x10_0000_0000_0000 + magnitude % 0x10_0000_0000_0000) * pow2(k) == n * 0x10_0000_0000_0000,
    ensures
        units(magnitude) == n * pow2(1074),
{
    let digits = 0x10_0000_0000_0000 + magnitude % 0x10_0000_0000_0000;
    vstd::arithmetic::power2::lemma2_to64_rest();
    vstd::arithmetic::power2::lemma_pow2_adds(k, 1022);
    vstd::arithmetic::power2::lemma_pow2_adds(52, 1022);
    assert(pow2(52) == 0x10_0000_0000_0000);
    assert(digits * pow2((1022 + k) as nat) == n * pow2(1074)) by (nonlinear_arith)
        requires
            pow2((1022 + k) as nat) == pow2(k) * pow2(1022),
            pow2(1074) == 0x10_0000_0000_0000 * pow2(1022),
            digits * pow2(k) == n * 0x10_0000_0000_0000,
    ;
}

/// The order of numbers is that of what they stand for; what is no number is
/// neither less nor more than anything.
pub proof fn lemma_order(a: Binary64, b: Binary64)
    ensures
        a.le(b) || b.le(a) <==> !a.is_nan() && !b.is_nan(),
        a.lt(b) <==> a.le(b) && !b.le(a),
        a.lt(b) ==> !b.lt(a),
        a.bits < b.bits < 0x7ff0_0000_0000_0000 ==> a.lt(b),
        !a.is_nan() && a.bits < 0x8000_0000_0000_0000 ==> (Binary64 {
            bits: (a.bits + 0x8000_0000_0000_0000) as u64,
        }).value() == -a.value(),
{
    lemma_units_increase(a.magnitude(), b.magnitude());
}

/// A number is brought within limits by taking the nearer limit for it, and is
/// left alone within them.
pub proof fn lemma_clamping(number: Binary64, low: Binary64, high: Binary64)
    requires
        low.le(high),
        !number.is_nan(),
    ensures
        low.le(number.clamped(low, high)),
        number.clamped(low, high).le(high),
        low.le(number) && number.le(high) ==> number.clamped(low, high) == number,
        number.lt(low) ==> number.clamped(low, high) == low,
        high.lt(number) ==> number.clamped(low, high) == high,
{
}

} // verus!
