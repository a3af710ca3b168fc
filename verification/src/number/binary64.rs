//! IEEE 754 double-precision arithmetic on bit patterns.
//!
//! Prices, sizes and profits are doubles. Each operation here returns the
//! double nearest to the exact result, as the hardware does, and its contract
//! says so over whole numbers of units (see `rounding`).

use crate::number::rounding;
use crate::number::rounding::{decode, power_of_two, round_head, BINADE, INFINITE_RANK, UNIT_EXPONENT};
use vstd::arithmetic::mul::*;
use vstd::arithmetic::power2::*;
use vstd::prelude::*;

verus! {

/// The bit that holds the sign.
pub const SIGN_BIT: u64 = 0x8000_0000_0000_0000;

/// The bit pattern that undefined results have.
pub const NAN_BITS: u64 = 0x7FF8_0000_0000_0000;

/// A double-precision number. `==` compares values: the two zeros are equal, and
/// what is not a number equals nothing. In contracts `==` means the same bits, and
/// `equals` the same value.
#[derive(Clone, Copy, Debug)]
pub struct Binary64 {
    pub bits: u64,
}

impl PartialEq for Binary64 {
    fn eq(&self, other: &Self) -> (r: bool) {
        !self.is_nan() && !other.is_nan() && self.order_key() == other.order_key()
    }
}

impl vstd::std_specs::cmp::PartialEqSpecImpl for Binary64 {
    open spec fn obeys_eq_spec() -> bool {
        true
    }

    open spec fn eq_spec(&self, other: &Self) -> bool {
        self.equals(*other)
    }
}

impl Binary64 {
    pub open spec fn negative(self) -> bool {
        self.bits >= SIGN_BIT
    }

    pub open spec fn rank(self) -> nat {
        if self.bits >= SIGN_BIT {
            (self.bits - SIGN_BIT) as nat
        } else {
            self.bits as nat
        }
    }

    /// Not a number: the result of an undefined operation.
    pub open spec fn undefined(self) -> bool {
        self.rank() > INFINITE_RANK
    }

    pub open spec fn infinite(self) -> bool {
        self.rank() == INFINITE_RANK
    }

    pub open spec fn finite(self) -> bool {
        self.rank() < INFINITE_RANK
    }

    /// The exact value of a finite number, in units.
    pub open spec fn units(self) -> int {
        if self.negative() {
            -(rounding::magnitude(self.rank()) as int)
        } else {
            rounding::magnitude(self.rank()) as int
        }
    }

    /// A whole number that orders the numbers as their values do.
    pub open spec fn order(self) -> int {
        if self.negative() {
            -(self.rank() as int)
        } else {
            self.rank() as int
        }
    }

    pub open spec fn signed(negative: bool, rank: nat) -> Binary64 {
        Binary64 {
            bits: if negative {
                (rank + SIGN_BIT) as u64
            } else {
                rank as u64
            },
        }
    }

    pub open spec fn nothing() -> Binary64 {
        Binary64 { bits: 0 }
    }

    pub open spec fn not_a_number() -> Binary64 {
        Binary64 { bits: NAN_BITS }
    }

    pub open spec fn negated(self) -> Binary64 {
        Binary64::signed(!self.negative(), self.rank())
    }

    pub open spec fn absolute(self) -> Binary64 {
        Binary64::signed(false, self.rank())
    }

    /// `self < b`, false where either is not a number.
    pub open spec fn less(self, b: Binary64) -> bool {
        !self.undefined() && !b.undefined() && self.order() < b.order()
    }

    /// `self <= b`, false where either is not a number.
    pub open spec fn at_most(self, b: Binary64) -> bool {
        !self.undefined() && !b.undefined() && self.order() <= b.order()
    }

    /// `self == b`, false where either is not a number.
    pub open spec fn equals(self, b: Binary64) -> bool {
        !self.undefined() && !b.undefined() && self.order() == b.order()
    }

    /// `self + b`.
    #[verifier::opaque]
    pub open spec fn sum(self, b: Binary64) -> Binary64 {
        if self.undefined() || b.undefined() {
            Binary64::not_a_number()
        } else if self.infinite() {
            if b.infinite() && self.negative() != b.negative() {
                Binary64::not_a_number()
            } else {
                self
            }
        } else if b.infinite() {
            b
        } else {
            let exact = self.units() + b.units();
            if exact == 0 {
                Binary64::signed(self.negative() && b.negative(), 0)
            } else if exact < 0 {
                Binary64::signed(true, rounding::rounded((-exact) as nat, 1))
            } else {
                Binary64::signed(false, rounding::rounded(exact as nat, 1))
            }
        }
    }

    /// `self - b`.
    pub open spec fn difference(self, b: Binary64) -> Binary64 {
        self.sum(b.negated())
    }

    /// `self * b`.
    #[verifier::opaque]
    pub open spec fn product(self, b: Binary64) -> Binary64 {
        let negative = self.negative() != b.negative();
        if self.undefined() || b.undefined() {
            Binary64::not_a_number()
        } else if self.infinite() || b.infinite() {
            if self.rank() == 0 || b.rank() == 0 {
                Binary64::not_a_number()
            } else {
                Binary64::signed(negative, INFINITE_RANK as nat)
            }
        } else {
            Binary64::signed(
                negative,
                rounding::rounded(
                    rounding::magnitude(self.rank()) * rounding::magnitude(b.rank()),
                    pow2(UNIT_EXPONENT as nat),
                ),
            )
        }
    }

    /// `self / b`.
    #[verifier::opaque]
    pub open spec fn quotient(self, b: Binary64) -> Binary64 {
        let negative = self.negative() != b.negative();
        if self.undefined() || b.undefined() {
            Binary64::not_a_number()
        } else if self.infinite() {
            if b.infinite() {
                Binary64::not_a_number()
            } else {
                Binary64::signed(negative, INFINITE_RANK as nat)
            }
        } else if b.infinite() {
            Binary64::signed(negative, 0)
        } else if b.rank() == 0 {
            if self.rank() == 0 {
                Binary64::not_a_number()
            } else {
                Binary64::signed(negative, INFINITE_RANK as nat)
            }
        } else {
            Binary64::signed(
                negative,
                rounding::rounded(
                    rounding::magnitude(self.rank()) * pow2(UNIT_EXPONENT as nat),
                    rounding::magnitude(b.rank()),
                ),
            )
        }
    }

    /// The double nearest to the ratio of two natural numbers.
    #[verifier::opaque]
    pub open spec fn of_ratio(n: nat, d: nat) -> Binary64 {
        Binary64::signed(false, rounding::rounded(n * pow2(UNIT_EXPONENT as nat), d))
    }

    /// The double nearest to a natural number.
    pub open spec fn of_nat(n: nat) -> Binary64 {
        Binary64::of_ratio(n, 1)
    }
}

impl Binary64 {
    pub fn from_bits(bits: u64) -> (r: Binary64)
        ensures
            r.bits == bits,
    {
        Binary64 { bits }
    }

    pub fn to_bits(self) -> (r: u64)
        ensures
            r == self.bits,
    {
        self.bits
    }

    pub fn zero() -> (r: Binary64)
        ensures
            r == Binary64::nothing(),
    {
        Binary64 { bits: 0 }
    }

    fn with_sign(negative: bool, rank: u64) -> (r: Binary64)
        requires
            rank < SIGN_BIT,
        ensures
            r == Binary64::signed(negative, rank as nat),
    {
        if negative {
            Binary64 { bits: rank + SIGN_BIT }
        } else {
            Binary64 { bits: rank }
        }
    }

    fn is_negative(self) -> (r: bool)
        ensures
            r == self.negative(),
    {
        self.bits >= SIGN_BIT
    }

    fn rank_bits(self) -> (r: u64)
        ensures
            r == self.rank(),
            r < SIGN_BIT,
    {
        if self.bits >= SIGN_BIT {
            self.bits - SIGN_BIT
        } else {
            self.bits
        }
    }

    pub fn is_nan(self) -> (r: bool)
        ensures
            r == self.undefined(),
    {
        self.rank_bits() > INFINITE_RANK
    }

    pub fn negate(self) -> (r: Binary64)
        ensures
            r == self.negated(),
    {
        Binary64::with_sign(!self.is_negative(), self.rank_bits())
    }

    pub fn abs(self) -> (r: Binary64)
        ensures
            r == self.absolute(),
    {
        Binary64::with_sign(false, self.rank_bits())
    }

    fn order_key(self) -> (r: i128)
        ensures
            r == self.order(),
    {
        let rank: u64 = self.rank_bits();
        if self.is_negative() {
            -(rank as i128)
        } else {
            rank as i128
        }
    }

    /// Whether `self` is less than `other`.
    pub fn is_below(self, other: Binary64) -> (r: bool)
        ensures
            r == self.less(other),
    {
        !self.is_nan() && !other.is_nan() && self.order_key() < other.order_key()
    }

    /// Whether `self` is greater than `other`.
    pub fn is_above(self, other: Binary64) -> (r: bool)
        ensures
            r == other.less(self),
    {
        other.is_below(self)
    }

    /// Whether `self` is less than or equal to `other`.
    pub fn is_at_most(self, other: Binary64) -> (r: bool)
        ensures
            r == self.at_most(other),
    {
        !self.is_nan() && !other.is_nan() && self.order_key() <= other.order_key()
    }

    /// The double nearest to `n / d`.
    pub fn ratio(n: u64, d: u64) -> (r: Binary64)
        requires
            d > 0,
        ensures
            r == Binary64::of_ratio(n as nat, d as nat),
    {
        reveal(Binary64::of_ratio);
        let ghost one = pow2(UNIT_EXPONENT as nat);
        let ghost num = n as nat * one;
        let ghost den = d as nat;
        proof {
            lemma2_to64();
            lemma2_to64_rest();
            rounding::lemma_rounded(num, den);
        }
        if n == 0 {
            proof {
                lemma_rounded_zero(den);
            }
            return Binary64 { bits: 0 };
        }
        let len: u32 = rounding::bit_length(n as u128);
        proof {
            if 64 < len {
                if 64 < len - 1 {
                    lemma_pow2_strictly_increases(64, (len - 1) as nat);
                }
            }
        }
        let lift: u32 = 123 - len;
        let factor: u128 = power_of_two(lift);
        proof {
            lemma_lifted(n as nat, len as nat, lift as nat);
            lemma_pow2_strictly_increases(123, 124);
            lemma_pow2_adds(64, 59);
        }
        let top: u128 = n as u128 * factor;
        let head: u128 = top / d as u128;
        let rest: u128 = top % d as u128;
        let exp: i32 = 1074 - lift as i32;
        proof {
            let x = (1074 - lift) as nat;
            lemma_pow2_adds(58, 64);
            lemma_pow2_strictly_increases(55, 58);
            lemma_long_division(top as nat, den, head as nat, rest as nat, 58, 64);
            lemma_pow2_adds(lift as nat, x);
            assert(num == top * pow2(x)) by (nonlinear_arith)
                requires
                    num == n * one,
                    one == factor * pow2(x),
                    top == n * factor,
            ;
            assert(den == den * pow2(0)) by (nonlinear_arith)
                requires
                    pow2(0) == 1,
            ;
            lemma_division_heads(num, den, head as nat, rest as nat, den, 0, top as nat, x);
        }
        let rank: u64 = round_head(head, exp, rest != 0, Ghost(num), Ghost(den));
        Binary64::with_sign(false, rank)
    }

    /// The double nearest to a whole number.
    pub fn from_u64(n: u64) -> (r: Binary64)
        ensures
            r == Binary64::of_nat(n as nat),
    {
        Binary64::ratio(n, 1)
    }

    /// `self * other`.
    pub fn times(self, other: Binary64) -> (r: Binary64)
        ensures
            r == self.product(other),
    {
        reveal(Binary64::product);
        let negative: bool = self.is_negative() != other.is_negative();
        let a: u64 = self.rank_bits();
        let b: u64 = other.rank_bits();
        if a > INFINITE_RANK || b > INFINITE_RANK {
            return Binary64 { bits: NAN_BITS };
        }
        if a == INFINITE_RANK || b == INFINITE_RANK {
            if a == 0 || b == 0 {
                return Binary64 { bits: NAN_BITS };
            }
            return Binary64::with_sign(negative, INFINITE_RANK);
        }
        let ghost one = pow2(UNIT_EXPONENT as nat);
        let ghost num = rounding::magnitude(a as nat) * rounding::magnitude(b as nat);
        proof {
            lemma_pow2_pos(UNIT_EXPONENT as nat);
            rounding::lemma_rounded(num, one);
        }
        if a == 0 || b == 0 {
            proof {
                assert(num == 0) by (nonlinear_arith)
                    requires
                        num == rounding::magnitude(a as nat) * rounding::magnitude(b as nat),
                        rounding::magnitude(a as nat) == 0 || rounding::magnitude(b as nat) == 0,
                ;
                lemma_rounded_zero(one);
            }
            return Binary64::with_sign(negative, 0);
        }
        let (am, ae) = decode(a);
        let (bm, be) = decode(b);
        proof {
            lemma2_to64();
            lemma2_to64_rest();
            lemma_pow2_adds(53, 53);
            lemma_pow2_strictly_increases(106, 124);
            assert(0 < am * bm < pow2(106)) by (nonlinear_arith)
                requires
                    0 < am < pow2(53),
                    0 < bm < pow2(53),
                    pow2(106) == pow2(53) * pow2(53),
            ;
        }
        let head: u128 = am as u128 * bm as u128;
        let exp: i32 = ae as i32 + be as i32 - 1074;
        proof {
            lemma_product_heads(num, am as nat, ae as nat, bm as nat, be as nat);
        }
        let rank: u64 = round_head(head, exp, false, Ghost(num), Ghost(one));
        Binary64::with_sign(negative, rank)
    }

    /// `self / other`.
    pub fn over(self, other: Binary64) -> (r: Binary64)
        ensures
            r == self.quotient(other),
    {
        reveal(Binary64::quotient);
        let negative: bool = self.is_negative() != other.is_negative();
        let a: u64 = self.rank_bits();
        let b: u64 = other.rank_bits();
        if a > INFINITE_RANK || b > INFINITE_RANK {
            return Binary64 { bits: NAN_BITS };
        }
        if a == INFINITE_RANK {
            if b == INFINITE_RANK {
                return Binary64 { bits: NAN_BITS };
            }
            return Binary64::with_sign(negative, INFINITE_RANK);
        }
        if b == INFINITE_RANK {
            return Binary64::with_sign(negative, 0);
        }
        if b == 0 {
            if a == 0 {
                return Binary64 { bits: NAN_BITS };
            }
            return Binary64::with_sign(negative, INFINITE_RANK);
        }
        let ghost one = pow2(UNIT_EXPONENT as nat);
        let ghost den = rounding::magnitude(b as nat);
        let ghost num = rounding::magnitude(a as nat) * one;
        proof {
            rounding::lemma_magnitude_increases(0, b as nat);
            rounding::lemma_rounded(num, den);
        }
        if a == 0 {
            proof {
                assert(num == 0) by (nonlinear_arith)
                    requires
                        num == rounding::magnitude(a as nat) * one,
                        rounding::magnitude(a as nat) == 0,
                ;
                lemma_rounded_zero(den);
            }
            return Binary64::with_sign(negative, 0);
        }
        let (am, ae) = decode(a);
        let (bm, be) = decode(b);
        let len: u32 = rounding::bit_length(am as u128);
        proof {
            lemma2_to64();
            lemma2_to64_rest();
            if 53 < len {
                if 53 < len - 1 {
                    lemma_pow2_strictly_increases(53, (len - 1) as nat);
                }
            }
            if bm == 0 {
                lemma_pow2_pos(be as nat);
                assert(den == 0) by (nonlinear_arith)
                    requires
                        den == bm * pow2(be as nat),
                        bm == 0,
                ;
            }
        }
        let lift: u32 = 123 - len;
        let factor: u128 = power_of_two(lift);
        proof {
            lemma_lifted(am as nat, len as nat, lift as nat);
            lemma_pow2_strictly_increases(123, 124);
            lemma_pow2_adds(64, 59);
        }
        let top: u128 = am as u128 * factor;
        let head: u128 = top / bm as u128;
        let rest: u128 = top % bm as u128;
        let exp: i32 = ae as i32 + 1074 - lift as i32 - be as i32;
        proof {
            let x = (ae + 1074 - lift) as nat;
            lemma_pow2_adds(69, 53);
            lemma_pow2_strictly_increases(55, 69);
            lemma_long_division(top as nat, bm as nat, head as nat, rest as nat, 69, 53);
            lemma_pow2_adds(lift as nat, x);
            lemma_pow2_adds(ae as nat, UNIT_EXPONENT as nat);
            assert(num == top * pow2(x)) by (nonlinear_arith)
                requires
                    num == (am * pow2(ae as nat)) * one,
                    pow2(ae as nat) * one == factor * pow2(x),
                    top == am * factor,
            ;
            lemma_division_heads(
                num,
                den,
                head as nat,
                rest as nat,
                bm as nat,
                be as nat,
                top as nat,
                x,
            );
        }
        let rank: u64 = round_head(head, exp, rest != 0, Ghost(num), Ghost(den));
        Binary64::with_sign(negative, rank)
    }

    /// `self - other`.
    pub fn minus(self, other: Binary64) -> (r: Binary64)
        ensures
            r == self.difference(other),
    {
        self.plus(other.negate())
    }

    /// `self + other`.
    pub fn plus(self, other: Binary64) -> (r: Binary64)
        ensures
            r == self.sum(other),
    {
        reveal(Binary64::sum);
        let a: u64 = self.rank_bits();
        let b: u64 = other.rank_bits();
        let an: bool = self.is_negative();
        let bn: bool = other.is_negative();
        if a > INFINITE_RANK || b > INFINITE_RANK {
            return Binary64 { bits: NAN_BITS };
        }
        if a == INFINITE_RANK {
            if b == INFINITE_RANK && an != bn {
                return Binary64 { bits: NAN_BITS };
            }
            return self;
        }
        if b == INFINITE_RANK {
            return other;
        }
        if a < b {
            proof {
                rounding::lemma_magnitude_increases(a as nat, b as nat);
            }
            Binary64::add_ordered(bn, b, an, a)
        } else {
            proof {
                if b < a {
                    rounding::lemma_magnitude_increases(b as nat, a as nat);
                }
            }
            Binary64::add_ordered(an, a, bn, b)
        }
    }

    /// The sum of two finite numbers of which the first is not the smaller.
    fn add_ordered(an: bool, a: u64, bn: bool, b: u64) -> (r: Binary64)
        requires
            b <= a < INFINITE_RANK,
        ensures
            ({
                let x = rounding::magnitude(a as nat);
                let y = rounding::magnitude(b as nat);
                let exact = if an == bn { (x + y) as nat } else { (x - y) as nat };
                r == if exact == 0 {
                    Binary64::signed(an && bn, 0)
                } else {
                    Binary64::signed(an, rounding::rounded(exact, 1))
                }
            }),
    {
        let ghost x = rounding::magnitude(a as nat);
        let ghost y = rounding::magnitude(b as nat);
        proof {
            if b < a {
                rounding::lemma_magnitude_increases(b as nat, a as nat);
            }
            if 0 < a {
                rounding::lemma_magnitude_increases(0, a as nat);
            }
        }
        if a == 0 || (a == b && an != bn) {
            return Binary64::with_sign(an && bn, 0);
        }
        let ghost exact = if an == bn { (x + y) as nat } else { (x - y) as nat };
        proof {
            rounding::lemma_rounded(exact, 1);
            lemma2_to64();
            lemma2_to64_rest();
        }
        let (am, ae) = decode(a);
        let (bm, be) = decode(b);
        proof {
            lemma_exponents_ordered(a as nat, am as nat, ae as nat, b as nat, bm as nat, be as nat);
        }
        let gap: u32 = ae - be;
        if gap <= 64 {
            let factor: u128 = power_of_two(gap);
            proof {
                lemma_pow2_pos(gap as nat);
                lemma_pow2_adds(53, gap as nat);
                lemma_pow2_adds(be as nat, gap as nat);
                if gap < 64 {
                    lemma_pow2_strictly_increases((53 + gap) as nat, 117);
                }
                assert(am * factor < pow2((53 + gap) as nat)) by (nonlinear_arith)
                    requires
                        am < pow2(53),
                        factor == pow2(gap as nat),
                        factor > 0,
                        pow2((53 + gap) as nat) == pow2(53) * pow2(gap as nat),
                ;
                lemma_pow2_adds(64, 53);
                lemma_pow2_unfold(118);
                lemma_pow2_strictly_increases(118, 124);
            }
            let wide: u128 = am as u128 * factor;
            proof {
                lemma_pow2_pos(be as nat);
                assert(x == wide * pow2(be as nat)) by (nonlinear_arith)
                    requires
                        x == am * pow2(ae as nat),
                        pow2(ae as nat) == pow2(be as nat) * factor,
                        wide == am * factor,
                ;
                rounding::lemma_cancel(wide as int, bm as int, pow2(be as nat) as int);
            }
            let head: u128 = if an == bn { wide + bm as u128 } else { wide - bm as u128 };
            proof {
                assert(exact == head * pow2(be as nat)) by (nonlinear_arith)
                    requires
                        x == wide * pow2(be as nat),
                        y == bm * pow2(be as nat),
                        an == bn ==> head == wide + bm && exact == x + y,
                        an != bn ==> head == wide - bm && exact == x - y,
                ;
                assert(head > 0) by (nonlinear_arith)
                    requires
                        exact == head * pow2(be as nat),
                        exact > 0,
                ;
                lemma_pow2_adds(be as nat, 4096);
                assert(head * (1 * rounding::shifted(be as int)) == exact * rounding::shifted(0))
                    by (nonlinear_arith)
                    requires
                        exact == head * pow2(be as nat),
                        rounding::shifted(be as int) == pow2(be as nat) * rounding::shifted(0),
                ;
            }
            let rank: u64 = round_head(head, be as i32, false, Ghost(exact), Ghost(1));
            Binary64::with_sign(an, rank)
        } else {
            let factor: u128 = power_of_two(64);
            let wide: u128 = am as u128 * factor;
            let cut: u32 = gap - 64;
            let low: u128;
            let left: bool;
            let ghost unit = pow2((ae - 64) as nat);
            let ghost rest: nat;
            proof {
                lemma_pow2_adds(be as nat, cut as nat);
                lemma_pow2_adds((ae - 64) as nat, 64);
                lemma_pow2_pos(be as nat);
                assert(x == wide * unit) by (nonlinear_arith)
                    requires
                        x == am * pow2(ae as nat),
                        pow2(ae as nat) == unit * factor,
                        wide == am * factor,
                ;
            }
            if cut > 60 {
                low = 0;
                left = bm > 0;
                proof {
                    rest = y;
                    lemma_pow2_strictly_increases(53, cut as nat);
                    assert(y < unit) by (nonlinear_arith)
                        requires
                            y == bm * pow2(be as nat),
                            bm < pow2(53),
                            pow2(53) < pow2(cut as nat),
                            unit == pow2(be as nat) * pow2(cut as nat),
                            pow2(be as nat) > 0,
                    ;
                    assert(bm > 0 <==> y > 0) by (nonlinear_arith)
                        requires
                            y == bm * pow2(be as nat),
                            pow2(be as nat) > 0,
                    ;
                }
            } else {
                let piece: u128 = power_of_two(cut);
                proof {
                    lemma_pow2_pos(cut as nat);
                }
                low = bm as u128 / piece;
                let br: u128 = bm as u128 % piece;
                left = br > 0;
                proof {
                    rest = br as nat * pow2(be as nat);
                    assert(bm == low * piece + br && 0 <= br < piece) by (nonlinear_arith)
                        requires
                            low == bm as u128 / piece,
                            br == bm as u128 % piece,
                            piece > 0,
                    ;
                    assert(y == low * unit + rest && rest < unit && (br > 0 <==> rest > 0))
                        by (nonlinear_arith)
                        requires
                            y == bm * pow2(be as nat),
                            bm == low * piece + br,
                            0 <= br < piece,
                            rest == br * pow2(be as nat),
                            unit == pow2(be as nat) * piece,
                            pow2(be as nat) > 0,
                    ;
                    assert(low <= bm) by (nonlinear_arith)
                        requires
                            low == bm as u128 / piece,
                            piece > 0,
                    ;
                }
            }
            let head: u128 = if an == bn {
                wide + low
            } else if left {
                wide - low - 1
            } else {
                wide - low
            };
            proof {
                lemma_pow2_adds((ae - 64) as nat, 4096);
                lemma_pow2_pos(4096);
                lemma_pow2_adds(64, 52);
                lemma_pow2_adds(64, 53);
                lemma_pow2_unfold(116);
                lemma_pow2_unfold(118);
                lemma_pow2_strictly_increases(118, 124);
                lemma_pow2_strictly_increases(55, 115);
                lemma_pow2_strictly_increases(53, 115);
                assert(pow2(116) <= wide < pow2(117)) by (nonlinear_arith)
                    requires
                        wide == am * factor,
                        factor > 0,
                        BINADE <= am < 2 * BINADE,
                        pow2(116) == factor * BINADE,
                        pow2(117) == factor * (2 * BINADE),
                ;
                let p = rounding::shifted(0);
                let step = rounding::shifted(ae - 64);
                assert(1 * step == step);
                assert(step == unit * p);
                let end = (head + 1) * unit;
                assert(if left {
                    head * unit < exact < end
                } else {
                    head * unit == exact
                }) by (nonlinear_arith)
                    requires
                        x == wide * unit,
                        y == low * unit + rest,
                        rest < unit,
                        left <==> rest > 0,
                        end == (head + 1) * unit,
                        an == bn ==> head == wide + low && exact == x + y,
                        an != bn && left ==> head == wide - low - 1 && exact == x - y,
                        an != bn && !left ==> head == wide - low && exact == x - y,
                ;
                rounding::lemma_cancel((head * unit) as int, exact as int, p as int);
                rounding::lemma_cancel(exact as int, end as int, p as int);
                assert(head * step == (head * unit) * p && (head + 1) * step == end * p)
                    by (nonlinear_arith)
                    requires
                        step == unit * p,
                        end == (head + 1) * unit,
                ;
            }
            let rank: u64 = round_head(
                head,
                ae as i32 - 64,
                left,
                Ghost(exact),
                Ghost(1),
            );
            Binary64::with_sign(an, rank)
        }
    }
}

proof fn lemma_rounded_zero(den: nat)
    requires
        den > 0,
    ensures
        rounding::rounded(0, den) == 0,
        0 * pow2(UNIT_EXPONENT as nat) == 0,
{
    assert(rounding::magnitude(0) + rounding::magnitude(1) == 1);
    assert(den * (rounding::magnitude(0) + rounding::magnitude(1)) > 0) by (nonlinear_arith)
        requires
            den > 0,
            rounding::magnitude(0) + rounding::magnitude(1) == 1,
    ;
    rounding::lemma_rounded_is(0, den, 0);
}

proof fn lemma_exponents_ordered(a: nat, am: nat, ae: nat, b: nat, bm: nat, be: nat)
    requires
        b <= a,
        rounding::magnitude(a) == am * pow2(ae),
        rounding::magnitude(b) == bm * pow2(be),
        am < 2 * BINADE,
        bm < 2 * BINADE,
        be == 0 || BINADE <= bm,
    ensures
        be <= ae,
{
    if ae < be {
        if b < a {
            rounding::lemma_magnitude_increases(b, a);
        }
        lemma_pow2_pos(ae);
        lemma_pow2_unfold(be);
        if ae + 1 < be {
            lemma_pow2_strictly_increases(ae, (be - 1) as nat);
        }
        assert(am * pow2(ae) < bm * pow2(be)) by (nonlinear_arith)
            requires
                am < 2 * BINADE,
                BINADE <= bm,
                pow2(be) >= 2 * pow2(ae),
                pow2(ae) > 0,
        ;
    }
}

/// A number of `len` binary digits, moved up to 123 of them.
proof fn lemma_lifted(n: nat, len: nat, lift: nat)
    requires
        1 <= len,
        len + lift == 123,
        pow2((len - 1) as nat) <= n < pow2(len),
    ensures
        pow2(122) <= n * pow2(lift) < pow2(123),
{
    lemma_pow2_adds(len, lift);
    lemma_pow2_adds((len - 1) as nat, lift);
    lemma_pow2_pos(lift);
    let factor = pow2(lift);
    assert(pow2(122) <= n * factor < pow2(123)) by (nonlinear_arith)
        requires
            pow2((len - 1) as nat) <= n < pow2(len),
            factor > 0,
            pow2(122) == pow2((len - 1) as nat) * factor,
            pow2(123) == pow2(len) * factor,
    ;
}

/// The quotient of a number of 123 binary digits by a small one stays long.
proof fn lemma_long_division(top: nat, d: nat, head: nat, rest: nat, a: nat, b: nat)
    requires
        0 < d < pow2(b),
        a + b == 122,
        pow2(122) <= top,
        head == top / d,
        rest == top % d,
    ensures
        top == head * d + rest,
        rest < d,
        pow2(a) <= head <= top,
{
    assert(top == head * d + rest && 0 <= rest < d && head <= top) by (nonlinear_arith)
        requires
            head == top / d,
            rest == top % d,
            d > 0,
    ;
    lemma_pow2_adds(a, b);
    assert(head >= pow2(a)) by (nonlinear_arith)
        requires
            top == head * d + rest,
            rest < d,
            d < pow2(b),
            top >= pow2(a) * pow2(b),
    ;
}

proof fn lemma_product_heads(num: nat, am: nat, ae: nat, bm: nat, be: nat)
    requires
        num == (am * pow2(ae)) * (bm * pow2(be)),
    ensures
        rounding::heads(
            num,
            pow2(UNIT_EXPONENT as nat),
            am * bm,
            ae + be - UNIT_EXPONENT,
            false,
        ),
{
    let one = pow2(UNIT_EXPONENT as nat);
    let p = rounding::shifted(0);
    let s = rounding::shifted(ae + be - UNIT_EXPONENT);
    lemma_pow2_adds(ae, be);
    lemma_pow2_adds(ae + be, 4096);
    lemma_pow2_adds(UNIT_EXPONENT as nat, (ae + be - UNIT_EXPONENT + 4096) as nat);
    assert((am * bm) * (one * s) == num * p) by (nonlinear_arith)
        requires
            num == (am * pow2(ae)) * (bm * pow2(be)),
            one * s == (pow2(ae) * pow2(be)) * p,
    ;
}

proof fn lemma_division_heads(
    num: nat,
    den: nat,
    head: nat,
    rest: nat,
    m: nat,
    y: nat,
    top: nat,
    x: nat,
)
    requires
        top == head * m + rest,
        rest < m,
        num == top * pow2(x),
        den == m * pow2(y),
        y <= x + 4096,
    ensures
        rounding::heads(num, den, head, x - y, rest != 0),
{
    let p = rounding::shifted(0);
    let s = rounding::shifted(x - y);
    let z = pow2(x + 4096);
    lemma_pow2_adds(x, 4096);
    lemma_pow2_adds(y, (x - y + 4096) as nat);
    lemma_pow2_pos(x + 4096);
    assert(den * s == m * z && num * p == top * z) by (nonlinear_arith)
        requires
            num == top * pow2(x),
            den == m * pow2(y),
            z == pow2(x) * p,
            z == pow2(y) * s,
    ;
    let step = m * z;
    assert(head * step <= top * z && top * z < (head + 1) * step && (rest != 0 ==> head * step
        < top * z) && (rest == 0 ==> head * step == top * z)) by (nonlinear_arith)
        requires
            step == m * z,
            top == head * m + rest,
            0 <= rest < m,
            z > 0,
    ;
}

} // verus!
