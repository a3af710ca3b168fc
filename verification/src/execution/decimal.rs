//! Decimal amounts, as orders carry them.

use crate::utils::clock;
use rust_decimal::Decimal;
use vstd::arithmetic::power::*;
use vstd::prelude::*;

verus! {

/// The largest mantissa of a decimal, two to the power 96 less one.
pub const MAX_MANTISSA: i128 = 0xFFFF_FFFF_FFFF_FFFF_FFFF_FFFF;

/// The most digits that a decimal has after its point.
pub const MAX_SCALE: u32 = 28;

/// A decimal number: a mantissa and how many of its digits stand after the
/// point.
#[derive(Debug, Clone, Copy, PartialEq, Eq, Structural)]
pub struct DecimalParts {
    pub mantissa: i128,
    pub scale: u32,
}

impl DecimalParts {
    /// Whether the parts are within the limits of a decimal.
    pub open spec fn fits(self) -> bool {
        -MAX_MANTISSA <= self.mantissa <= MAX_MANTISSA && self.scale <= MAX_SCALE
    }

    /// Whether the parts are within the limits of a decimal.
    pub fn is_valid(self) -> (r: bool)
        ensures
            r == self.fits(),
    {
        -MAX_MANTISSA <= self.mantissa && self.mantissa <= MAX_MANTISSA && self.scale <= MAX_SCALE
    }

    /// Whether two decimals are equal in value.
    pub open spec fn equals(self, other: DecimalParts) -> bool {
        self.mantissa * pow(10, other.scale as nat) == other.mantissa * pow(10, self.scale as nat)
    }

    /// Whether `short` is this decimal cut off after some digits behind the point.
    pub open spec fn cut_to(self, short: DecimalParts, digits: u32) -> bool {
        &&& short.fits()
        &&& short.scale <= digits
        &&& if self.scale <= digits {
            short.equals(self)
        } else {
            short.scale == digits && short.mantissa == clock::truncated(
                self.mantissa as int,
                pow(10, (self.scale - digits) as nat),
            )
        }
    }
}

/// `Decimal::trunc_with_scale`: the digits further behind the point than asked
/// for are dropped. A decimal with fewer keeps its value.
#[verifier::external_body]
fn truncate_to(amount: DecimalParts, digits: u32) -> (r: DecimalParts)
    requires
        amount.fits(),
        digits <= MAX_SCALE,
    ensures
        amount.cut_to(r, digits),
{
    let whole: Decimal = Decimal::from_i128_with_scale(amount.mantissa, amount.scale);
    let short: Decimal = whole.trunc_with_scale(digits);
    DecimalParts { mantissa: short.mantissa(), scale: short.scale() }
}

/// An amount cut off after two digits, as many as a number of shares may have.
pub fn to_cents(amount: DecimalParts) -> (r: DecimalParts)
    requires
        amount.fits(),
    ensures
        amount.cut_to(r, 2),
{
    truncate_to(amount, 2)
}

/// An amount is cut toward zero, and loses less than one in the last digit that
/// is kept; one with no more digits than that keeps its value.
pub proof fn lemma_cut_toward_zero(amount: DecimalParts, short: DecimalParts, digits: u32)
    requires
        amount.cut_to(short, digits),
    ensures
        amount.scale <= digits ==> short.mantissa * pow(10, amount.scale as nat) == amount.mantissa
            * pow(10, short.scale as nat),
        amount.scale > digits && amount.mantissa >= 0 ==> 0 <= amount.mantissa - short.mantissa
            * pow(10, (amount.scale - digits) as nat) < pow(10, (amount.scale - digits) as nat),
        amount.scale > digits && amount.mantissa < 0 ==> 0 <= short.mantissa * pow(
            10,
            (amount.scale - digits) as nat,
        ) - amount.mantissa < pow(10, (amount.scale - digits) as nat),
{
    if amount.scale > digits {
        let p = pow(10, (amount.scale - digits) as nat);
        lemma_pow_positive(10, (amount.scale - digits) as nat);
        let m = amount.mantissa as int;
        let q = short.mantissa as int;
        if m >= 0 {
            assert(0 <= m - (m / p) * p < p) by (nonlinear_arith)
                requires
                    p > 0,
            ;
        } else {
            let n = -m;
            let k = n / p;
            assert(0 <= n - k * p < p) by (nonlinear_arith)
                requires
                    p > 0,
                    k == n / p,
            ;
            assert(q * p == -(k * p)) by (nonlinear_arith)
                requires
                    q == -k,
            ;
        }
    }
}

} // verus!
