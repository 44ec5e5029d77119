//! Natural numbers of any size: what exact rounding needs of them.

use vstd::prelude::*;

verus! {

/// What a one stands for at a position, counted from the lowest.
pub open spec fn weight(i: nat) -> nat
    decreases i,
{
    if i == 0 {
        1
    } else {
        0x1_0000_0000 * weight((i - 1) as nat)
    }
}

/// The limb at a position; zero beyond the highest.
pub open spec fn limb(limbs: Seq<u32>, i: int) -> nat {
    if 0 <= i < limbs.len() {
        limbs[i] as nat
    } else {
        0
    }
}

/// What the lowest `count` limbs stand for.
pub open spec fn partial(limbs: Seq<u32>, count: nat) -> nat
    decreases count,
{
    if count == 0 {
        0
    } else {
        partial(limbs, (count - 1) as nat) + limb(limbs, count - 1) * weight((count - 1) as nat)
    }
}

proof fn lemma_partial_extends(limbs: Seq<u32>, count: nat)
    requires
        count >= limbs.len(),
    ensures
        partial(limbs, count) == partial(limbs, limbs.len()),
    decreases count,
{
    if count > limbs.len() {
        lemma_partial_extends(limbs, (count - 1) as nat);
        assert(0 * weight((count - 1) as nat) == 0) by (nonlinear_arith);
    }
}

proof fn lemma_partial_push(limbs: Seq<u32>, more: u32, count: nat)
    requires
        count <= limbs.len(),
    ensures
        partial(limbs.push(more), count) == partial(limbs, count),
    decreases count,
{
    if count > 0 {
        lemma_partial_push(limbs, more, (count - 1) as nat);
    }
}

proof fn lemma_partial_bound(limbs: Seq<u32>, count: nat)
    ensures
        partial(limbs, count) < weight(count),
    decreases count,
{
    if count > 0 {
        let below = (count - 1) as nat;
        lemma_partial_bound(limbs, below);
        let l = limb(limbs, below as int);
        let w = weight(below);
        assert(l * w + w <= 0x1_0000_0000 * w) by (nonlinear_arith)
            requires
                l < 0x1_0000_0000,
        ;
    }
}

/// A natural number, as 32-bit limbs from the lowest up.
#[derive(Debug)]
pub struct Big {
    /// The limbs.
    pub limbs: Vec<u32>,
}

impl View for Big {
    type V = nat;

    open spec fn view(&self) -> nat {
        partial(self.limbs@, self.limbs@.len())
    }
}

impl Big {
    /// A small number.
    pub fn of(n: u32) -> (r: Big)
        ensures
            r@ == n,
    {
        let mut limbs: Vec<u32> = Vec::new();
        limbs.push(n);
        proof {
            reveal_with_fuel(partial, 2);
            assert(n * weight(0) == n) by (nonlinear_arith)
                requires
                    weight(0) == 1,
            ;
        }
        Big { limbs }
    }

    /// A number of up to 64 bits.
    pub fn of64(n: u64) -> (r: Big)
        ensures
            r@ == n,
    {
        let high: u64 = n / 0x1_0000_0000;
        let low: u64 = n % 0x1_0000_0000;
        let mut limbs: Vec<u32> = Vec::new();
        limbs.push(low as u32);
        limbs.push(high as u32);
        proof {
            reveal_with_fuel(partial, 3);
            reveal_with_fuel(weight, 2);
            assert(low * weight(0) == low) by (nonlinear_arith)
                requires
                    weight(0) == 1,
            ;
            assert(high * weight(1) == high * 0x1_0000_0000) by (nonlinear_arith)
                requires
                    weight(1) == 0x1_0000_0000,
            ;
        }
        Big { limbs }
    }

    /// The number, times a factor, plus another.
    pub fn times_plus(&self, factor: u32, more: u32) -> (r: Big)
        ensures
            r@ == self@ * factor + more,
    {
        let mut limbs: Vec<u32> = Vec::new();
        let mut carry: u64 = more as u64;
        let mut i: usize = 0;
        proof {
            assert(carry * weight(0) == carry) by (nonlinear_arith)
                requires
                    weight(0) == 1,
            ;
            assert(partial(self.limbs@, 0) * factor == 0) by (nonlinear_arith)
                requires
                    partial(self.limbs@, 0) == 0,
            ;
        }
        while i < self.limbs.len()
            invariant
                i <= self.limbs.len(),
                limbs.len() == i,
                carry < 0x1_0000_0000,
                partial(limbs@, i as nat) + carry * weight(i as nat) == partial(
                    self.limbs@,
                    i as nat,
                ) * factor + more,
            decreases self.limbs.len() - i,
        {
            let l: u64 = self.limbs[i] as u64;
            let f: u64 = factor as u64;
            assert(l * f <= 0xffff_ffff * 0xffff_ffff) by (nonlinear_arith)
                requires
                    l <= 0xffff_ffff,
                    f <= 0xffff_ffff,
            ;
            let total: u64 = l * f + carry;
            let low: u64 = total % 0x1_0000_0000;
            let high: u64 = total / 0x1_0000_0000;
            let ghost before = limbs@;
            limbs.push(low as u32);
            proof {
                let w = weight(i as nat);
                let done = partial(before, i as nat);
                lemma_partial_push(before, low as u32, i as nat);
                assert(limb(limbs@, i as int) == low);
                assert(limb(self.limbs@, i as int) == l);
                assert(partial(limbs@, (i + 1) as nat) == done + low * w);
                assert(low * w + high * (0x1_0000_0000 * w) == l * f * w + carry * w)
                    by (nonlinear_arith)
                    requires
                        low + 0x1_0000_0000 * high == l * f + carry,
                ;
                assert((partial(self.limbs@, i as nat) + l * w) * factor == partial(
                    self.limbs@,
                    i as nat,
                ) * factor + l * f * w) by (nonlinear_arith)
                    requires
                        f == factor,
                ;
            }
            carry = high;
            i += 1;
        }
        let ghost before = limbs@;
        if carry > 0 {
            limbs.push(carry as u32);
            proof {
                lemma_partial_push(before, carry as u32, i as nat);
                assert(limb(limbs@, i as int) == carry);
            }
        } else {
            assert(0 * weight(i as nat) == 0) by (nonlinear_arith);
        }
        Big { limbs }
    }

    /// The number plus another.
    pub fn plus(&self, other: &Big) -> (r: Big)
        ensures
            r@ == self@ + other@,
    {
        let length: usize = if self.limbs.len() < other.limbs.len() {
            other.limbs.len()
        } else {
            self.limbs.len()
        };
        let mut limbs: Vec<u32> = Vec::new();
        let mut carry: u64 = 0;
        let mut i: usize = 0;
        assert(0 * weight(0) == 0);
        while i < length
            invariant
                i <= length,
                limbs.len() == i,
                carry <= 1,
                partial(limbs@, i as nat) + carry * weight(i as nat) == partial(
                    self.limbs@,
                    i as nat,
                ) + partial(other.limbs@, i as nat),
            decreases length - i,
        {
            let a: u64 = if i < self.limbs.len() {
                self.limbs[i] as u64
            } else {
                0
            };
            let b: u64 = if i < other.limbs.len() {
                other.limbs[i] as u64
            } else {
                0
            };
            let total: u64 = a + b + carry;
            let low: u64 = total % 0x1_0000_0000;
            let high: u64 = total / 0x1_0000_0000;
            let ghost before = limbs@;
            limbs.push(low as u32);
            proof {
                let w = weight(i as nat);
                lemma_partial_push(before, low as u32, i as nat);
                assert(limb(limbs@, i as int) == low);
                assert(limb(self.limbs@, i as int) == a);
                assert(limb(other.limbs@, i as int) == b);
                assert(low * w + high * (0x1_0000_0000 * w) == a * w + b * w + carry * w)
                    by (nonlinear_arith)
                    requires
                        low + 0x1_0000_0000 * high == a + b + carry,
                ;
            }
            carry = high;
            i += 1;
        }
        let ghost before = limbs@;
        if carry > 0 {
            limbs.push(carry as u32);
            proof {
                lemma_partial_push(before, carry as u32, i as nat);
                assert(limb(limbs@, i as int) == carry);
            }
        } else {
            assert(0 * weight(i as nat) == 0) by (nonlinear_arith);
        }
        proof {
            lemma_partial_extends(self.limbs@, length as nat);
            lemma_partial_extends(other.limbs@, length as nat);
        }
        Big { limbs }
    }

    /// The number times another of up to 64 bits.
    pub fn times(&self, factor: u64) -> (r: Big)
        ensures
            r@ == self@ * factor,
    {
        let high: u64 = factor / 0x1_0000_0000;
        let low: u64 = factor % 0x1_0000_0000;
        let upper = self.times_plus(high as u32, 0).times_plus(0x1_0000, 0).times_plus(0x1_0000, 0);
        let r = upper.plus(&self.times_plus(low as u32, 0));
        proof {
            let n = self@;
            assert(n * high * 0x1_0000 * 0x1_0000 + n * low == n * factor) by (nonlinear_arith)
                requires
                    factor == high * 0x1_0000_0000 + low,
            ;
        }
        r
    }

    /// The number less another, where that is not more.
    pub fn minus(&self, other: &Big) -> (r: Option<Big>)
        ensures
            match r {
                Some(difference) => self@ == other@ + difference@,
                None => self@ < other@,
            },
    {
        let length: usize = if self.limbs.len() < other.limbs.len() {
            other.limbs.len()
        } else {
            self.limbs.len()
        };
        let mut limbs: Vec<u32> = Vec::new();
        let mut borrow: u64 = 0;
        let mut i: usize = 0;
        assert(0 * weight(0) == 0);
        while i < length
            invariant
                i <= length,
                limbs.len() == i,
                borrow <= 1,
                partial(limbs@, i as nat) + partial(other.limbs@, i as nat) == partial(
                    self.limbs@,
                    i as nat,
                ) + borrow * weight(i as nat),
            decreases length - i,
        {
            let a: u64 = if i < self.limbs.len() {
                self.limbs[i] as u64
            } else {
                0
            };
            let b: u64 = if i < other.limbs.len() {
                other.limbs[i] as u64
            } else {
                0
            };
            let total: u64 = a + 0x1_0000_0000 - b - borrow;
            let low: u64 = total % 0x1_0000_0000;
            let missing: u64 = if total < 0x1_0000_0000 {
                1
            } else {
                0
            };
            let ghost before = limbs@;
            limbs.push(low as u32);
            proof {
                let w = weight(i as nat);
                lemma_partial_push(before, low as u32, i as nat);
                assert(limb(limbs@, i as int) == low);
                assert(limb(self.limbs@, i as int) == a);
                assert(limb(other.limbs@, i as int) == b);
                assert(low * w + b * w + borrow * w == a * w + missing * (0x1_0000_0000 * w))
                    by (nonlinear_arith)
                    requires
                        low + b + borrow == a + missing * 0x1_0000_0000,
                ;
            }
            borrow = missing;
            i += 1;
        }
        proof {
            lemma_partial_extends(self.limbs@, length as nat);
            lemma_partial_extends(other.limbs@, length as nat);
            lemma_partial_bound(limbs@, length as nat);
            assert(0 * weight(length as nat) == 0) by (nonlinear_arith);
            assert(1 * weight(length as nat) == weight(length as nat)) by (nonlinear_arith);
        }
        if borrow == 0 {
            Some(Big { limbs })
        } else {
            None
        }
    }
}

} // verus!
