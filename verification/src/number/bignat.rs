//! Natural numbers of any size, as far as reading long decimals needs them.

use vstd::arithmetic::power2::*;
use vstd::prelude::*;

verus! {

/// The number that little-endian digits of 32 bits stand for.
pub open spec fn limbs_value(limbs: Seq<u32>) -> nat
    decreases limbs.len(),
{
    if limbs.len() == 0 {
        0
    } else {
        limbs_value(limbs.drop_last()) + limbs.last() as nat * weight((limbs.len() - 1) as nat)
    }
}

/// What a digit at position `i` counts.
pub open spec fn weight(i: nat) -> nat {
    pow2(32 * i)
}

/// A natural number.
pub struct BigNat {
    limbs: Vec<u32>,
}

impl View for BigNat {
    type V = nat;

    closed spec fn view(&self) -> nat {
        limbs_value(self.limbs@)
    }
}

proof fn lemma_weight_step(i: nat)
    ensures
        weight(i + 1) == 0x1_0000_0000 * weight(i),
        weight(i) > 0,
{
    lemma2_to64();
    lemma_pow2_adds(32 * i, 32);
    lemma_pow2_pos(32 * i);
    assert(32 * (i + 1) == 32 * i + 32);
}

proof fn lemma_limbs_bound(limbs: Seq<u32>)
    ensures
        limbs_value(limbs) < weight(limbs.len()),
    decreases limbs.len(),
{
    lemma2_to64();
    if limbs.len() > 0 {
        let i = (limbs.len() - 1) as nat;
        lemma_limbs_bound(limbs.drop_last());
        lemma_weight_step(i);
        let d = limbs.last() as nat;
        let w = weight(i);
        assert(d * w <= 0xFFFF_FFFF * w) by (nonlinear_arith)
            requires
                d <= 0xFFFF_FFFF,
        ;
    }
}

/// Digits above a common length that are all zero do not count.
proof fn lemma_limbs_longer(limbs: Seq<u32>, len: nat)
    requires
        len <= limbs.len(),
        forall|j: int| len <= j < limbs.len() ==> limbs[j] == 0,
    ensures
        limbs_value(limbs) == limbs_value(limbs.take(len as int)),
    decreases limbs.len(),
{
    if len < limbs.len() {
        lemma_limbs_longer(limbs.drop_last(), len);
        assert(limbs.drop_last().take(len as int) =~= limbs.take(len as int));
        assert(0 * weight((limbs.len() - 1) as nat) == 0) by (nonlinear_arith);
    } else {
        assert(limbs.take(len as int) =~= limbs);
    }
}

proof fn lemma_limbs_less(a: Seq<u32>, b: Seq<u32>, i: int)
    requires
        a.len() == b.len(),
        0 <= i < a.len(),
        a[i] < b[i],
        forall|j: int| i < j < a.len() ==> a[j] == b[j],
    ensures
        limbs_value(a) < limbs_value(b),
    decreases a.len(),
{
    let top = (a.len() - 1) as nat;
    let w = weight(top);
    if i == top {
        lemma_limbs_bound(a.drop_last());
        let x = a.last() as nat;
        let y = b.last() as nat;
        assert(x * w + w <= y * w) by (nonlinear_arith)
            requires
                x + 1 <= y,
        ;
    } else {
        lemma_limbs_less(a.drop_last(), b.drop_last(), i);
    }
}

impl BigNat {
    pub fn new() -> (r: BigNat)
        ensures
            r@ == 0,
    {
        BigNat { limbs: Vec::new() }
    }

    pub fn copy(&self) -> (r: BigNat)
        ensures
            r@ == self@,
    {
        let mut limbs: Vec<u32> = Vec::new();
        let mut i: usize = 0;
        while i < self.limbs.len()
            invariant
                i <= self.limbs.len(),
                limbs@ == self.limbs@.take(i as int),
            decreases self.limbs.len() - i,
        {
            limbs.push(self.limbs[i]);
            i = i + 1;
            assert(limbs@ =~= self.limbs@.take(i as int));
        }
        assert(limbs@ =~= self.limbs@);
        BigNat { limbs }
    }

    /// Multiplies by `factor` and adds `addend`.
    pub fn scale(&mut self, factor: u64, addend: u64)
        ensures
            final(self)@ == old(self)@ * factor + addend,
    {
        let ghost start = self.limbs@;
        let mut out: Vec<u32> = Vec::new();
        let mut carry: u128 = addend as u128;
        let mut i: usize = 0;
        proof {
            lemma2_to64();
            assert(start.take(0) =~= Seq::<u32>::empty());
            assert(0 * factor == 0) by (nonlinear_arith);
            assert(carry * weight(0) == carry) by (nonlinear_arith)
                requires
                    weight(0) == 1,
            ;
        }
        while i < self.limbs.len()
            invariant
                self.limbs@ == start,
                i <= start.len(),
                out@.len() == i,
                carry < 0x1_0000_0000_0000_0000,
                limbs_value(out@) + carry * weight(i as nat) == limbs_value(start.take(i as int))
                    * factor + addend,
            decreases start.len() - i,
        {
            let limb: u32 = self.limbs[i];
            proof {
                assert(limb * factor <= 0xFFFF_FFFF * 0xFFFF_FFFF_FFFF_FFFF) by (nonlinear_arith)
                    requires
                        0 <= limb <= 0xFFFF_FFFF,
                        0 <= factor <= 0xFFFF_FFFF_FFFF_FFFF,
                ;
            }
            let total: u128 = limb as u128 * factor as u128 + carry;
            let digit: u32 = (total % 0x1_0000_0000) as u32;
            let ghost before = out@;
            let ghost held = carry;
            out.push(digit);
            carry = total / 0x1_0000_0000;
            proof {
                let w = weight(i as nat);
                lemma_weight_step(i as nat);
                assert(out@.drop_last() =~= before);
                assert(start.take(i + 1).drop_last() =~= start.take(i as int));
                let low = limbs_value(start.take(i as int));
                assert(limbs_value(before) + digit * w + carry * (0x1_0000_0000 * w) == (low + limb
                    * w) * factor + addend) by (nonlinear_arith)
                    requires
                        limbs_value(before) + held * w == low * factor + addend,
                        limb * factor + held == digit + carry * 0x1_0000_0000,
                ;
            }
            i = i + 1;
        }
        assert(start.take(i as int) =~= start);
        while carry > 0
            invariant
                carry < 0x1_0000_0000_0000_0000,
                limbs_value(out@) + carry * weight(out@.len()) == limbs_value(start) * factor
                    + addend,
            decreases carry,
        {
            let digit: u32 = (carry % 0x1_0000_0000) as u32;
            let ghost before = out@;
            let ghost held = carry;
            out.push(digit);
            carry = carry / 0x1_0000_0000;
            proof {
                let w = weight(before.len());
                lemma_weight_step(before.len());
                assert(out@.drop_last() =~= before);
                assert(digit * w + carry * (0x1_0000_0000 * w) == held * w) by (nonlinear_arith)
                    requires
                        held == digit + carry * 0x1_0000_0000,
                ;
            }
        }
        proof {
            assert(0 * weight(out@.len()) == 0) by (nonlinear_arith);
        }
        self.limbs = out;
    }

    /// Multiplies by two to the power `n`.
    pub fn double(&mut self, n: u32)
        ensures
            final(self)@ == old(self)@ * pow2(n as nat),
    {
        let mut left: u32 = n;
        proof {
            lemma2_to64();
            assert(self@ * pow2(0) == self@) by (nonlinear_arith)
                requires
                    pow2(0) == 1,
            ;
        }
        while left >= 32
            invariant
                left <= n,
                self@ == old(self)@ * pow2((n - left) as nat),
            decreases left,
        {
            proof {
                lemma2_to64();
                lemma_pow2_adds((n - left) as nat, 32);
                let v = old(self)@;
                let p = pow2((n - left) as nat);
                assert((v * p) * 0x1_0000_0000 == v * (p * 0x1_0000_0000)) by (nonlinear_arith);
            }
            self.scale(0x1_0000_0000, 0);
            left = left - 32;
        }
        while left > 0
            invariant
                left <= n,
                self@ == old(self)@ * pow2((n - left) as nat),
            decreases left,
        {
            proof {
                lemma2_to64();
                lemma_pow2_adds((n - left) as nat, 1);
                let v = old(self)@;
                let p = pow2((n - left) as nat);
                assert((v * p) * 2 == v * (p * 2)) by (nonlinear_arith);
            }
            self.scale(2, 0);
            left = left - 1;
        }
    }

    fn limb(&self, i: usize) -> (r: u32)
        ensures
            r == if i < self.limbs@.len() { self.limbs@[i as int] } else { 0 },
    {
        if i < self.limbs.len() {
            self.limbs[i]
        } else {
            0
        }
    }

    spec fn padded(&self, len: nat) -> Seq<u32> {
        Seq::new(
            len,
            |i: int| if i < self.limbs@.len() { self.limbs@[i] } else { 0 },
        )
    }

    proof fn lemma_padded(&self, len: nat)
        requires
            len >= self.limbs@.len(),
        ensures
            limbs_value(self.padded(len)) == self@,
    {
        lemma_limbs_longer(self.padded(len), self.limbs@.len());
        assert(self.padded(len).take(self.limbs@.len() as int) =~= self.limbs@);
    }

    /// Whether `self` is less than `other`.
    pub fn is_below(&self, other: &BigNat) -> (r: bool)
        ensures
            r == (self@ < other@),
    {
        let len: usize = if self.limbs.len() > other.limbs.len() {
            self.limbs.len()
        } else {
            other.limbs.len()
        };
        let mut i: usize = len;
        let ghost a = self.padded(len as nat);
        let ghost b = other.padded(len as nat);
        proof {
            self.lemma_padded(len as nat);
            other.lemma_padded(len as nat);
        }
        while i > 0
            invariant
                i <= len,
                a == self.padded(len as nat),
                b == other.padded(len as nat),
                limbs_value(a) == self@,
                limbs_value(b) == other@,
                forall|j: int| i <= j < len ==> a[j] == b[j],
            decreases i,
        {
            i = i - 1;
            let x: u32 = self.limb(i);
            let y: u32 = other.limb(i);
            if x < y {
                proof {
                    lemma_limbs_less(a, b, i as int);
                }
                return true;
            }
            if y < x {
                proof {
                    lemma_limbs_less(b, a, i as int);
                }
                return false;
            }
        }
        assert(a =~= b);
        false
    }
}

} // verus!
