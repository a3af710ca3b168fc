//! How the operations on doubles relate to each other.

use crate::number::binary64::Binary64;
use crate::number::precision;
use crate::number::rounding;
use crate::number::rounding::{BINADE, INFINITE_RANK};
use vstd::prelude::*;

verus! {

/// The order of two summands does not matter.
pub proof fn lemma_sum_commutes(a: Binary64, b: Binary64)
    ensures
        a.sum(b) == b.sum(a),
{
    reveal(Binary64::sum);
}

/// The order of two factors does not matter.
pub proof fn lemma_product_commutes(a: Binary64, b: Binary64)
    ensures
        a.product(b) == b.product(a),
{
    reveal(Binary64::product);
    let x = rounding::magnitude(a.rank());
    let y = rounding::magnitude(b.rank());
    assert(x * y == y * x) by (nonlinear_arith);
}

/// A number that changes its sign twice is what it was, and its value is the
/// opposite in between.
pub proof fn lemma_negated(x: Binary64)
    ensures
        x.negated().negated() == x,
        x.negated().rank() == x.rank(),
        x.negated().negative() == !x.negative(),
        x.negated().units() == -x.units(),
        x.negated().order() == -x.order(),
        x.negated().undefined() == x.undefined(),
        x.absolute().rank() == x.rank(),
        !x.absolute().negative(),
        x.absolute().order() == x.rank(),
        x.absolute().undefined() == x.undefined(),
{
}

/// A difference the other way round is the opposite; both are zero where the
/// numbers are equal, and both are not a number where one of them is not.
pub proof fn lemma_difference_mirrors(a: Binary64, b: Binary64)
    ensures
        ({
            let d = a.difference(b);
            let e = b.difference(a);
            ||| e == d.negated()
            ||| d.rank() == 0 && e.rank() == 0
            ||| d.undefined() && e.undefined()
        }),
{
    reveal(Binary64::sum);
    lemma_negated(a);
    lemma_negated(b);
    if a.finite() && b.finite() {
        let exact = a.units() - b.units();
        if exact == 0 {
            precision::lemma_signed(a.negative() && !b.negative(), 0);
            precision::lemma_signed(b.negative() && !a.negative(), 0);
        } else {
            let n = if exact < 0 { (-exact) as nat } else { exact as nat };
            rounding::lemma_rounded(n, 1);
            precision::lemma_signed(true, rounding::rounded(n, 1));
            precision::lemma_signed(false, rounding::rounded(n, 1));
        }
    }
}

/// A difference has the sign of the order.
pub proof fn lemma_difference_sign(a: Binary64, b: Binary64)
    requires
        a.finite(),
        b.finite(),
    ensures
        !a.difference(b).undefined(),
        Binary64::nothing().less(a.difference(b)) <==> b.less(a),
        a.difference(b).less(Binary64::nothing()) <==> a.less(b),
        a.units() == b.units() ==> a.difference(b).rank() == 0,
        a.units() != b.units() ==> a.difference(b).rank() > 0,
{
    reveal(Binary64::sum);
    lemma_negated(b);
    precision::lemma_order(a, b);
    precision::lemma_order(b, a);
    precision::lemma_signed(false, 0);
    let exact = a.units() - b.units();
    if exact == 0 {
        precision::lemma_signed(a.negative() && !b.negative(), 0);
    } else {
        let n = if exact < 0 { (-exact) as nat } else { exact as nat };
        let rank = rounding::rounded(n, 1);
        rounding::lemma_rounded(n, 1);
        precision::lemma_signed(exact < 0, rank);
        precision::lemma_rounding_exact(1, 1);
        assert(rounding::magnitude(1) * 1 == 1);
        precision::lemma_rounding_keeps_order(1, 1, n, 1);
    }
}

/// A quotient changes its sign with its dividend.
pub proof fn lemma_quotient_negated(a: Binary64, b: Binary64)
    ensures
        a.negated().quotient(b) == a.quotient(b).negated() || (a.quotient(b).undefined()
            && a.negated().quotient(b).undefined()),
{
    reveal(Binary64::quotient);
    lemma_negated(a);
    precision::lemma_signed(true, 0);
    precision::lemma_signed(false, 0);
    precision::lemma_signed(true, INFINITE_RANK as nat);
    precision::lemma_signed(false, INFINITE_RANK as nat);
    if a.finite() && b.finite() && b.rank() != 0 {
        let n = rounding::magnitude(a.rank()) * precision::one();
        let d = rounding::magnitude(b.rank());
        rounding::lemma_magnitude_increases(0, b.rank());
        rounding::lemma_rounded(n, d);
        precision::lemma_signed(true, rounding::rounded(n, d));
        precision::lemma_signed(false, rounding::rounded(n, d));
    }
}

/// A product changes its sign with its first factor.
pub proof fn lemma_product_negated(a: Binary64, b: Binary64)
    ensures
        a.negated().product(b) == a.product(b).negated() || (a.product(b).undefined()
            && a.negated().product(b).undefined()),
{
    reveal(Binary64::product);
    lemma_negated(a);
    precision::lemma_signed(true, INFINITE_RANK as nat);
    precision::lemma_signed(false, INFINITE_RANK as nat);
    if a.finite() && b.finite() {
        let n = rounding::magnitude(a.rank()) * rounding::magnitude(b.rank());
        vstd::arithmetic::power2::lemma_pow2_pos(rounding::UNIT_EXPONENT as nat);
        rounding::lemma_rounded(n, precision::one());
        precision::lemma_signed(true, rounding::rounded(n, precision::one()));
        precision::lemma_signed(false, rounding::rounded(n, precision::one()));
    }
}

/// The quotient of two numbers that are not negative is the double nearest to the
/// ratio of their values.
pub proof fn lemma_quotient_is_ratio(a: Binary64, b: Binary64)
    requires
        a.finite(),
        !a.negative(),
        b.finite(),
        b.units() > 0,
    ensures
        a.quotient(b) == Binary64::of_ratio(a.units() as nat, b.units() as nat),
{
    reveal(Binary64::quotient);
    reveal(Binary64::of_ratio);
    if b.rank() > 0 {
        rounding::lemma_magnitude_increases(0, b.rank());
    }
}

/// A ratio depends on nothing but its value.
pub proof fn lemma_ratio_cancels(n: nat, d: nat, k: nat)
    requires
        d > 0,
        k > 0,
    ensures
        Binary64::of_ratio(n * k, d * k) == Binary64::of_ratio(n, d),
{
    reveal(Binary64::of_ratio);
    let u = precision::one();
    assert(d * k > 0) by (nonlinear_arith)
        requires
            d > 0,
            k > 0,
    ;
    assert(((n * k) * u) * d == (n * u) * (d * k)) by (nonlinear_arith);
    precision::lemma_rounding_keeps_order((n * k) * u, d * k, n * u, d);
    precision::lemma_rounding_keeps_order(n * u, d, (n * k) * u, d * k);
}

/// A number over itself is one.
pub proof fn lemma_self_quotient(a: Binary64)
    requires
        a.finite(),
        a.units() != 0,
    ensures
        a.quotient(a) == Binary64::of_nat(1),
{
    reveal(Binary64::quotient);
    reveal(Binary64::of_ratio);
    let m = rounding::magnitude(a.rank());
    assert(m > 0);
    let u = precision::one();
    precision::lemma_rounding_keeps_order(m * u, m, 1 * u, 1);
    precision::lemma_rounding_keeps_order(1 * u, 1, m * u, m);
}

/// A product with one keeps the number.
pub proof fn lemma_times_one(a: Binary64)
    requires
        a.finite(),
    ensures
        Binary64::of_nat(1).product(a) == a,
        a.product(Binary64::of_nat(1)) == a,
{
    reveal(Binary64::product);
    precision::lemma_one();
    let one = Binary64::of_nat(1);
    vstd::arithmetic::power2::lemma_pow2_pos(rounding::UNIT_EXPONENT as nat);
    assert(!one.negative());
    let m = rounding::magnitude(a.rank());
    assert(rounding::magnitude(one.rank()) == precision::one());
    lemma_product_commutes(one, a);
    precision::lemma_rounding_exact(a.rank(), precision::one());
}

/// Larger numbers have larger sums.
pub proof fn lemma_sum_keeps_order(a: Binary64, b: Binary64, c: Binary64)
    requires
        a.finite(),
        b.finite(),
        c.finite(),
        a.at_most(b),
    ensures
        a.sum(c).at_most(b.sum(c)),
        c.sum(a).at_most(c.sum(b)),
{
    reveal(Binary64::sum);
    precision::lemma_order(a, b);
    lemma_sum_commutes(a, c);
    lemma_sum_commutes(b, c);
    let x = a.units() + c.units();
    let y = b.units() + c.units();
    lemma_value_of_sum(a, c);
    lemma_value_of_sum(b, c);
    if 0 < x {
        precision::lemma_rounding_keeps_order(x as nat, 1, y as nat, 1);
    } else if y < 0 {
        precision::lemma_rounding_keeps_order((-y) as nat, 1, (-x) as nat, 1);
    }
}

/// The order of a sum.
proof fn lemma_value_of_sum(a: Binary64, b: Binary64)
    requires
        a.finite(),
        b.finite(),
    ensures
        ({
            let exact = a.units() + b.units();
            let s = a.sum(b);
            &&& !s.undefined()
            &&& exact == 0 ==> s.order() == 0
            &&& exact > 0 ==> s.order() == rounding::rounded(exact as nat, 1)
            &&& exact < 0 ==> s.order() == -(rounding::rounded((-exact) as nat, 1) as int)
            &&& exact > 0 ==> rounding::rounded(exact as nat, 1) > 0
            &&& exact < 0 ==> rounding::rounded((-exact) as nat, 1) > 0
        }),
{
    reveal(Binary64::sum);
    let exact = a.units() + b.units();
    if exact == 0 {
        precision::lemma_signed(a.negative() && b.negative(), 0);
    } else {
        let n = if exact < 0 { (-exact) as nat } else { exact as nat };
        rounding::lemma_rounded(n, 1);
        precision::lemma_signed(exact < 0, rounding::rounded(n, 1));
        precision::lemma_rounding_exact(1, 1);
        assert(rounding::magnitude(1) * 1 == 1);
        precision::lemma_rounding_keeps_order(1, 1, n, 1);
    }
}

/// A number times one or more keeps its sign.
pub proof fn lemma_scaled_sign(a: Binary64, b: Binary64)
    requires
        a.finite(),
        b.finite(),
        Binary64::of_nat(1).at_most(b),
    ensures
        a.rank() == 0 ==> a.product(b).rank() == 0,
        Binary64::nothing().less(a) ==> Binary64::nothing().less(a.product(b)),
        a.less(Binary64::nothing()) ==> a.product(b).less(Binary64::nothing()),
{
    precision::lemma_signed(false, 0);
    precision::lemma_one();
    precision::lemma_order(Binary64::of_nat(1), b);
    vstd::arithmetic::power2::lemma_pow2_pos(rounding::UNIT_EXPONENT as nat);
    if a.rank() == 0 {
        reveal(Binary64::product);
        precision::lemma_rounding_exact(0, precision::one());
        precision::lemma_signed(a.negative() != b.negative(), 0);
    } else if !a.negative() {
        precision::lemma_product_grows(a, b);
    } else {
        lemma_negated(a);
        precision::lemma_product_grows(a.negated(), b);
        lemma_product_negated(a, b);
        lemma_negated(a.product(b));
    }
}

/// An infinite number times a positive one keeps its sign.
pub proof fn lemma_scaled_infinity(a: Binary64, b: Binary64)
    requires
        a.infinite(),
        b.finite(),
        Binary64::nothing().less(b),
    ensures
        a.product(b) == a,
        Binary64::nothing().less(a) || a.less(Binary64::nothing()),
{
    reveal(Binary64::product);
    precision::lemma_signed(false, 0);
    precision::lemma_signed(a.negative(), INFINITE_RANK as nat);
}

/// A zero times a finite number is a zero.
pub proof fn lemma_zero_times(a: Binary64, b: Binary64)
    requires
        a.rank() == 0,
        b.finite(),
    ensures
        a.product(b).rank() == 0,
{
    reveal(Binary64::product);
    vstd::arithmetic::power2::lemma_pow2_pos(rounding::UNIT_EXPONENT as nat);
    let y = rounding::magnitude(b.rank());
    assert(rounding::magnitude(0) * y == 0 && rounding::magnitude(0) * precision::one() == 0)
        by (nonlinear_arith)
        requires
            rounding::magnitude(0) == 0,
    ;
    precision::lemma_rounding_exact(0, precision::one());
    precision::lemma_signed(a.negative() != b.negative(), 0);
}

/// A zero over a positive number is a zero.
pub proof fn lemma_zero_over(a: Binary64, b: Binary64)
    requires
        a.rank() == 0,
        Binary64::nothing().less(b),
    ensures
        a.quotient(b).rank() == 0,
{
    reveal(Binary64::quotient);
    precision::lemma_signed(false, 0);
    precision::lemma_signed(a.negative() != b.negative(), 0);
    if b.finite() {
        let d = rounding::magnitude(b.rank());
        rounding::lemma_magnitude_increases(0, b.rank());
        assert(rounding::magnitude(0) * precision::one() == 0 && rounding::magnitude(0) * d == 0)
            by (nonlinear_arith)
            requires
                rounding::magnitude(0) == 0,
        ;
        precision::lemma_rounding_exact(0, d);
    }
}

/// A sum of numbers that are not negative is positive where one of them is.
pub proof fn lemma_sum_sign(a: Binary64, b: Binary64)
    requires
        a.finite(),
        b.finite(),
        a.units() >= 0,
        b.units() >= 0,
    ensures
        !a.sum(b).undefined(),
        a.units() + b.units() > 0 <==> Binary64::nothing().less(a.sum(b)),
        a.units() + b.units() > 0 && a.sum(b).finite() ==> a.sum(b).units() > 0,
        a.units() + b.units() > 0 ==> !a.sum(b).negative(),
{
    lemma_value_of_sum(a, b);
    precision::lemma_signed(false, 0);
    if a.units() + b.units() > 0 && a.sum(b).finite() {
        rounding::lemma_magnitude_increases(0, a.sum(b).rank());
    }
}

/// Adding a zero changes nothing.
pub proof fn lemma_plus_zero(a: Binary64, zero: Binary64)
    requires
        a.finite(),
        a.units() != 0,
        zero.finite(),
        zero.units() == 0,
    ensures
        a.sum(zero) == a,
{
    reveal(Binary64::sum);
    let m = rounding::magnitude(a.rank());
    precision::lemma_rounding_exact(a.rank(), 1);
    assert(m * 1 == m);
}

/// The rank of the double of a magnitude.
pub proof fn lemma_double_rank(rank: nat) -> (double: nat)
    ensures
        rounding::magnitude(double) == 2 * rounding::magnitude(rank),
{
    let (t, q) = rounding::lemma_rank_split(rank);
    let p = vstd::arithmetic::power2::pow2(t);
    if q < BINADE {
        rounding::lemma_magnitude(t, 2 * q);
        assert((2 * q) * p == 2 * (q * p)) by (nonlinear_arith);
        t * BINADE as nat + 2 * q
    } else {
        rounding::lemma_magnitude(t + 1, q);
        vstd::arithmetic::power2::lemma_pow2_unfold(t + 1);
        assert(q * (2 * p) == 2 * (q * p)) by (nonlinear_arith);
        (t + 1) * BINADE as nat + q
    }
}

/// A finite sum of positive numbers lies between twice the smaller and twice the
/// larger one.
pub proof fn lemma_sum_between(a: Binary64, b: Binary64)
    requires
        a.finite(),
        b.finite(),
        0 <= a.units() <= b.units(),
        0 < b.units(),
        a.sum(b).finite(),
    ensures
        2 * a.units() <= a.sum(b).units() <= 2 * b.units(),
        b.sum(a) == a.sum(b),
{
    lemma_sum_commutes(a, b);
    lemma_sum_sign(a, b);
    lemma_value_of_sum(a, b);
    let s = a.sum(b);
    let exact = (a.units() + b.units()) as nat;
    let x = rounding::magnitude(a.rank());
    let y = rounding::magnitude(b.rank());
    assert(a.units() == x && b.units() == y) by {
        if a.negative() && a.rank() > 0 {
            rounding::lemma_magnitude_increases(0, a.rank());
        }
    }
    let low = lemma_double_rank(a.rank());
    let high = lemma_double_rank(b.rank());
    assert(s.rank() == rounding::rounded(exact, 1));
    let top = INFINITE_RANK as nat;
    if low <= top {
        precision::lemma_rounding_exact(low, 1);
        precision::lemma_rounding_keeps_order(rounding::magnitude(low) * 1, 1, exact, 1);
        if low < s.rank() {
            rounding::lemma_magnitude_increases(low, s.rank());
        }
    } else {
        rounding::lemma_magnitude_increases(top, low);
        precision::lemma_rounding_exact(top, 1);
        precision::lemma_rounding_keeps_order(rounding::magnitude(top) * 1, 1, exact, 1);
    }
    if high <= top {
        precision::lemma_rounding_exact(high, 1);
        precision::lemma_rounding_keeps_order(exact, 1, rounding::magnitude(high) * 1, 1);
        if s.rank() < high {
            rounding::lemma_magnitude_increases(s.rank(), high);
        }
    } else {
        rounding::lemma_magnitude_increases(s.rank(), high);
    }
}

/// Two is twice one.
pub proof fn lemma_two()
    ensures
        Binary64::of_nat(2).finite(),
        !Binary64::of_nat(2).negative(),
        Binary64::of_nat(2).units() == 2 * precision::one(),
{
    reveal(Binary64::of_ratio);
    precision::lemma_one();
    precision::lemma_magnitude_of_infinity();
    let one = Binary64::of_nat(1);
    let double = lemma_double_rank(one.rank());
    let top = INFINITE_RANK as nat;
    assert(rounding::magnitude(one.rank()) == precision::one());
    if double >= top {
        if top < double {
            rounding::lemma_magnitude_increases(top, double);
        }
    }
    precision::lemma_rounding_exact(double, 1);
    assert(rounding::magnitude(double) * 1 == 2 * precision::one());
    precision::lemma_signed(false, double);
}

/// Half a finite sum of positive numbers is the double nearest to it, and lies
/// between the two.
pub proof fn lemma_half_of_sum(a: Binary64, b: Binary64)
    requires
        a.finite(),
        b.finite(),
        0 < a.units(),
        0 < b.units(),
        a.sum(b).finite(),
    ensures
        ({
            let half = a.sum(b).quotient(Binary64::of_nat(2));
            &&& half == Binary64::of_ratio(a.sum(b).units() as nat, (2 * precision::one()) as nat)
            &&& a.units() <= b.units() ==> a.at_most(half) && half.at_most(b)
            &&& b.units() <= a.units() ==> b.at_most(half) && half.at_most(a)
        }),
{
    lemma_two();
    precision::lemma_magnitude_of_infinity();
    lemma_sum_sign(a, b);
    lemma_sum_commutes(a, b);
    let s = a.sum(b);
    lemma_quotient_is_ratio(s, Binary64::of_nat(2));
    reveal(Binary64::of_ratio);
    let n = s.units() as nat;
    let u = precision::one();
    let d = (2 * u) as nat;
    let small = if a.units() <= b.units() { a } else { b };
    let large = if a.units() <= b.units() { b } else { a };
    lemma_sum_between(small, large);
    let x = rounding::magnitude(small.rank());
    let y = rounding::magnitude(large.rank());
    assert(small.units() == x && large.units() == y && !small.negative() && !large.negative());
    precision::lemma_rounding_exact(small.rank(), d);
    precision::lemma_rounding_exact(large.rank(), d);
    assert((x * d) * d <= (n * u) * d && (n * u) * d <= (y * d) * d) by (nonlinear_arith)
        requires
            2 * x <= n <= 2 * y,
            d == 2 * u,
            u > 0,
    ;
    precision::lemma_rounding_keeps_order(x * d, d, n * u, d);
    precision::lemma_rounding_keeps_order(n * u, d, y * d, d);
    precision::lemma_signed(false, rounding::rounded(n * u, d));
}

/// A difference of two numbers that are not negative is finite.
pub proof fn lemma_difference_finite(a: Binary64, b: Binary64)
    requires
        a.finite(),
        b.finite(),
        0 <= a.units(),
        0 <= b.units(),
    ensures
        a.difference(b).finite(),
{
    lemma_negated(b);
    lemma_value_of_sum(a, b.negated());
    precision::lemma_signed(false, 0);
    let larger = if a.units() < b.units() { b } else { a };
    let x = rounding::magnitude(larger.rank());
    assert(larger.units() == x || larger.units() == 0);
    let exact = if a.units() < b.units() { b.units() - a.units() } else { a.units() - b.units() };
    precision::lemma_rounding_exact(larger.rank(), 1);
    if exact > 0 {
        precision::lemma_rounding_keeps_order(exact as nat, 1, x * 1, 1);
    }
}

/// A difference of two numbers that are not negative is not small against what is
/// no more than twice the larger one: their quotient has the sign of the
/// difference, and is not nothing.
pub proof fn lemma_gap_over(a: Binary64, b: Binary64, m: Binary64)
    requires
        a.finite(),
        b.finite(),
        m.finite(),
        0 <= a.units(),
        0 <= b.units(),
        a.units() != b.units(),
        0 < m.units(),
        m.units() <= 2 * a.units() || m.units() <= 2 * b.units(),
    ensures
        ({
            let relative = a.difference(b).quotient(m);
            &&& !relative.undefined()
            &&& relative.rank() > 0
            &&& relative.negative() == (a.units() < b.units())
        }),
{
    reveal(Binary64::quotient);
    precision::lemma_magnitude_of_infinity();
    lemma_difference_sign(a, b);
    precision::lemma_order(a, b);
    precision::lemma_order(b, a);
    precision::lemma_signed(false, 0);
    let falls = a.units() < b.units();
    let diff = a.difference(b);
    let small = if falls { a } else { b };
    let large = if falls { b } else { a };
    let rs = small.rank();
    let rl = large.rank();
    let x = rounding::magnitude(rl);
    let z = rounding::magnitude(rs);
    assert(large.units() == x && small.units() == z) by {
        if small.negative() && rs > 0 {
            rounding::lemma_magnitude_increases(0, rs);
        }
    }
    let exact = (x - z) as nat;
    assert(rs < rl) by {
        if rl < rs {
            rounding::lemma_magnitude_increases(rl, rs);
        }
    }
    // The difference is at least one step of the larger number.
    if rs < rl - 1 {
        rounding::lemma_magnitude_increases(rs, (rl - 1) as nat);
    }
    precision::lemma_gap_large((rl - 1) as nat);
    rounding::lemma_magnitude_step((rl - 1) as nat);
    assert(x <= 2 * BINADE * exact) by {
        let step = (x - rounding::magnitude((rl - 1) as nat)) as nat;
        assert(step <= exact);
    }
    lemma_value_of_sum(a, b.negated());
    lemma_negated(b);
    let rank = rounding::rounded(exact, 1);
    assert(diff.rank() == rank);
    precision::lemma_rounding_exact(rl, 1);
    precision::lemma_rounding_keeps_order(exact, 1, rounding::magnitude(rl) * 1, 1);
    precision::lemma_rounding_third(exact);
    let d = rounding::magnitude(rank);
    rounding::lemma_magnitude_increases(0, rank);
    let y = rounding::magnitude(m.rank());
    let num = d * precision::one();
    assert(12 * BINADE <= precision::one()) by {
        vstd::arithmetic::power2::lemma_pow2_strictly_increases(60, 1074);
        vstd::arithmetic::power2::lemma2_to64();
        vstd::arithmetic::power2::lemma2_to64_rest();
    }
    assert(y <= num) by (nonlinear_arith)
        requires
            y <= 2 * x,
            x <= 2 * BINADE * exact,
            exact <= 3 * d,
            12 * BINADE <= precision::one(),
            num == d * precision::one(),
            d >= 0,
    ;
    precision::lemma_rounding_exact(1, y);
    assert(rounding::magnitude(1) * y == y) by (nonlinear_arith)
        requires
            rounding::magnitude(1) == 1,
    ;
    assert(y * y <= num * y) by (nonlinear_arith)
        requires
            y <= num,
            y > 0,
    ;
    precision::lemma_rounding_keeps_order(y, y, num, y);
    rounding::lemma_rounded(num, y);
    precision::lemma_signed(falls, rounding::rounded(num, y));
}

/// The difference of two numbers over their sum has the sign of the difference.
pub proof fn lemma_gap_over_sum(a: Binary64, b: Binary64)
    requires
        a.finite(),
        b.finite(),
        0 <= a.units(),
        0 <= b.units(),
        a.units() != b.units(),
        a.sum(b).finite(),
    ensures
        ({
            let relative = a.difference(b).quotient(a.sum(b));
            &&& !relative.undefined()
            &&& relative.rank() > 0
            &&& relative.negative() == (a.units() < b.units())
        }),
{
    lemma_sum_sign(a, b);
    lemma_sum_commutes(a, b);
    if a.units() < b.units() {
        lemma_sum_between(a, b);
    } else {
        lemma_sum_between(b, a);
    }
    lemma_gap_over(a, b, a.sum(b));
}

/// Half is half of one.
pub proof fn lemma_half()
    ensures
        Binary64::of_ratio(1, 2).finite(),
        !Binary64::of_ratio(1, 2).negative(),
        2 * Binary64::of_ratio(1, 2).units() == precision::one(),
{
    reveal(Binary64::of_ratio);
    vstd::arithmetic::power2::lemma2_to64();
    vstd::arithmetic::power2::lemma2_to64_rest();
    vstd::arithmetic::power2::lemma_pow2_adds(1021, 52);
    vstd::arithmetic::power2::lemma_pow2_unfold(1074);
    let h = vstd::arithmetic::power2::pow2(1073);
    let rank = (1022 * BINADE) as nat;
    assert(rank / (BINADE as nat) == 1022 && rank % (BINADE as nat) == 0);
    assert(rounding::magnitude(rank) == h) by {
        assert(BINADE * vstd::arithmetic::power2::pow2(1021) == h) by (nonlinear_arith)
            requires
                h == vstd::arithmetic::power2::pow2(1021) * vstd::arithmetic::power2::pow2(52),
                vstd::arithmetic::power2::pow2(52) == BINADE,
        ;
    }
    precision::lemma_rounding_exact(rank, 2);
    assert(rounding::magnitude(rank) * 2 == 1 * precision::one());
    precision::lemma_signed(false, rank);
}

/// A number over one half is twice the number.
pub proof fn lemma_over_half(a: Binary64)
    requires
        a.finite(),
        !a.negative(),
    ensures
        a.quotient(Binary64::of_ratio(1, 2)).finite() ==> a.quotient(
            Binary64::of_ratio(1, 2),
        ).units() == 2 * a.units(),
{
    lemma_half();
    precision::lemma_magnitude_of_infinity();
    reveal(Binary64::quotient);
    let half = Binary64::of_ratio(1, 2);
    let h = rounding::magnitude(half.rank());
    let x = rounding::magnitude(a.rank());
    let u = precision::one();
    assert(2 * h == u && half.rank() > 0);
    let double = lemma_double_rank(a.rank());
    let top = INFINITE_RANK as nat;
    assert(x * u == (2 * x) * h) by (nonlinear_arith)
        requires
            2 * h == u,
    ;
    if double <= top {
        precision::lemma_rounding_exact(double, h);
        precision::lemma_signed(false, double);
    } else {
        rounding::lemma_magnitude_increases(top, double);
        precision::lemma_rounding_exact(top, h);
        let m = rounding::magnitude(top);
        assert((m * h) * h <= (x * u) * h) by (nonlinear_arith)
            requires
                m <= 2 * x,
                x * u == (2 * x) * h,
        ;
        precision::lemma_rounding_keeps_order(m * h, h, x * u, h);
        rounding::lemma_rounded(x * u, h);
        precision::lemma_signed(false, rounding::rounded(x * u, h));
    }
}

/// Two numbers are equal where their values are, whatever the sign of zero; what
/// is not a number is equal to nothing, not even to itself, and neither less nor
/// more than anything.
pub proof fn lemma_equals(a: Binary64, b: Binary64)
    ensures
        a.finite() && b.finite() ==> (a.equals(b) <==> a.units() == b.units()),
        a.equals(b) <==> a.at_most(b) && b.at_most(a),
        a.undefined() || b.undefined() ==> !a.equals(b) && !a.less(b) && !a.at_most(b),
        !a.undefined() && !b.undefined() ==> (a.less(b) || b.less(a) || a.equals(b)),
        !(a.less(b) && b.less(a)),
{
    if a.finite() && b.finite() {
        precision::lemma_order(a, b);
        precision::lemma_order(b, a);
    }
}

} // verus!
