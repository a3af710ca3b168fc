//! How far rounded results lie from exact ones.

use crate::number::binary64::Binary64;
use crate::number::rounding;
use crate::number::rounding::{BINADE, INFINITE_RANK, UNIT_EXPONENT};
use vstd::arithmetic::power2::*;
use vstd::prelude::*;

verus! {

/// How many units make the number one.
pub open spec fn one() -> nat {
    pow2(UNIT_EXPONENT as nat)
}

/// The relative size of the error that rounding a result below eight allows:
/// one part in two to the power 48.
pub open spec fn grain() -> nat {
    0x1_0000_0000_0000
}

/// A larger ratio is not rounded to a smaller rank.
pub proof fn lemma_rounding_keeps_order(n1: nat, d1: nat, n2: nat, d2: nat)
    requires
        d1 > 0,
        d2 > 0,
        n1 * d2 <= n2 * d1,
    ensures
        rounding::rounded(n1, d1) <= rounding::rounded(n2, d2),
{
    let a = rounding::rounded(n1, d1);
    let b = rounding::rounded(n2, d2);
    rounding::lemma_rounded(n1, d1);
    rounding::lemma_rounded(n2, d2);
    if b < a {
        let low = rounding::magnitude((a - 1) as nat) + rounding::magnitude(a);
        let high = rounding::magnitude(b) + rounding::magnitude(b + 1);
        if b + 1 < a {
            rounding::lemma_magnitude_increases(b, (a - 1) as nat);
            rounding::lemma_magnitude_increases(b + 1, a);
        }
        let w = d1 * d2;
        assert(w > 0) by (nonlinear_arith)
            requires
                w == d1 * d2,
                d1 > 0,
                d2 > 0,
        ;
        assert(w * low <= 2 * (n1 * d2)) by (nonlinear_arith)
            requires
                w == d1 * d2,
                d1 * low <= 2 * n1,
                d2 > 0,
        ;
        assert(2 * (n2 * d1) <= w * high) by (nonlinear_arith)
            requires
                w == d1 * d2,
                2 * n2 <= d2 * high,
                d1 > 0,
        ;
        if b + 1 < a {
            assert(w * high < w * low) by (nonlinear_arith)
                requires
                    high < low,
                    w > 0,
            ;
        } else {
            assert(d1 * low == 2 * n1) by (nonlinear_arith)
                requires
                    w == d1 * d2,
                    w * low == 2 * (n1 * d2),
                    d1 * low <= 2 * n1,
                    d2 > 0,
            ;
            assert(2 * n2 == d2 * high) by (nonlinear_arith)
                requires
                    w == d1 * d2,
                    w * high == 2 * (n2 * d1),
                    2 * n2 <= d2 * high,
                    d1 > 0,
            ;
        }
    }
}

/// A magnitude is rounded to its own rank.
pub proof fn lemma_rounding_exact(rank: nat, den: nat)
    requires
        rank <= INFINITE_RANK,
        den > 0,
    ensures
        rounding::rounded(rounding::magnitude(rank) * den, den) == rank,
{
    let here = rounding::magnitude(rank);
    let num = here * den;
    if rank > 0 {
        rounding::lemma_magnitude_step((rank - 1) as nat);
        let below = rounding::magnitude((rank - 1) as nat);
        assert(den * (below + here) < 2 * num) by (nonlinear_arith)
            requires
                below < here,
                den > 0,
                num == here * den,
        ;
    }
    rounding::lemma_magnitude_step(rank);
    let above = rounding::magnitude(rank + 1);
    assert(2 * num < den * (here + above)) by (nonlinear_arith)
        requires
            here < above,
            den > 0,
            num == here * den,
    ;
    rounding::lemma_rounded_is(num, den, rank);
}

/// The step from a rank to the next one is small against its magnitude.
proof fn lemma_gap(rank: nat)
    ensures
        rounding::magnitude(rank) < rounding::magnitude(rank + 1),
        (rounding::magnitude(rank + 1) - rounding::magnitude(rank)) * BINADE
            <= rounding::magnitude(rank) + BINADE,
{
    let (t, q) = rounding::lemma_rank_split(rank);
    rounding::lemma_magnitude_step(rank);
    rounding::lemma_magnitude(t, q + 1);
    assert(t * BINADE as nat + (q + 1) == rank + 1);
    let p = pow2(t);
    lemma_pow2_pos(t);
    let gap = rounding::magnitude(rank + 1) - rounding::magnitude(rank);
    assert(gap == p) by (nonlinear_arith)
        requires
            gap == (q + 1) * p - q * p,
    ;
    if t == 0 {
        lemma2_to64();
    } else {
        assert(p * BINADE <= q * p) by (nonlinear_arith)
            requires
                BINADE <= q,
                p > 0,
        ;
    }
}

pub proof fn lemma_magnitude_of_infinity()
    ensures
        rounding::magnitude(INFINITE_RANK as nat) > 16 * one(),
        one() >= 6 * BINADE,
        one() > 0,
{
    lemma2_to64();
    lemma2_to64_rest();
    lemma_pow2_adds(1022, 52);
    lemma_pow2_pos(1022);
    let top = INFINITE_RANK as nat;
    assert(top / (BINADE as nat) == 2047 && top % (BINADE as nat) == 0);
    assert(rounding::magnitude(top) == BINADE * pow2(2046));
    lemma_pow2_strictly_increases(1074, 2046);
    assert(BINADE * pow2(2046) > 16 * one()) by (nonlinear_arith)
        requires
            pow2(2046) > one(),
            BINADE >= 16,
    ;
    lemma_pow2_strictly_increases(3, 1022);
    assert(one() >= 6 * BINADE) by (nonlinear_arith)
        requires
            one() == pow2(1022) * BINADE,
            pow2(1022) >= 6,
    ;
}

/// A ratio below eight is rounded to a finite rank, whose magnitude is no more
/// than one grain away.
pub proof fn lemma_rounding_close(num: nat, den: nat)
    requires
        den > 0,
        num <= 8 * (one() * den),
    ensures
        ({
            let rank = rounding::rounded(num, den);
            let here = rounding::magnitude(rank);
            &&& rank < INFINITE_RANK
            &&& (here * den - num) * grain() <= one() * den
            &&& (num - here * den) * grain() <= one() * den
        }),
{
    let rank = rounding::rounded(num, den);
    let here = rounding::magnitude(rank);
    let u = one();
    rounding::lemma_rounded(num, den);
    lemma_magnitude_of_infinity();
    // The magnitude is at most sixteen.
    let below = if rank > 0 { rounding::magnitude((rank - 1) as nat) } else { 0 };
    assert(here <= 16 * u) by {
        if rank > 0 {
            assert(den * (below + here) <= 2 * num);
            assert(here <= 16 * u) by (nonlinear_arith)
                requires
                    den * (below + here) <= 2 * num,
                    num <= 8 * (u * den),
                    den > 0,
                    below >= 0,
            ;
        }
    }
    assert(rank < INFINITE_RANK);
    lemma_gap(rank);
    let above = rounding::magnitude(rank + 1);
    // Rounding down loses at most half a step.
    lemma_half_step(num as int, den as int, here as int, above as int, u as int);
    // Rounding up gains at most half a step.
    if rank > 0 {
        lemma_gap((rank - 1) as nat);
        lemma_half_step_down(num as int, den as int, here as int, below as int, u as int);
    } else {
        assert(here * den == 0) by (nonlinear_arith)
            requires
                here == 0,
        ;
        assert((0 - num) * grain() <= u * den) by (nonlinear_arith)
            requires
                num >= 0,
                u > 0,
                den > 0,
                grain() > 0,
        ;
    }
}

proof fn lemma_half_step(num: int, den: int, here: int, above: int, u: int)
    requires
        2 * num <= den * (here + above),
        (above - here) * BINADE <= here + BINADE,
        here <= 16 * u,
        u >= BINADE,
        den > 0,
    ensures
        (num - here * den) * grain() <= u * den,
{
    let gap = above - here;
    assert(2 * (num - here * den) <= den * gap) by (nonlinear_arith)
        requires
            2 * num <= den * (here + above),
            gap == above - here,
    ;
    lemma_gap_small(gap, here, u);
    lemma_scale_down(num - here * den, den, gap, u);
}

proof fn lemma_half_step_down(num: int, den: int, here: int, below: int, u: int)
    requires
        den * (below + here) <= 2 * num,
        (here - below) * BINADE <= below + BINADE,
        below <= here <= 16 * u,
        u >= BINADE,
        den > 0,
    ensures
        (here * den - num) * grain() <= u * den,
{
    let gap = here - below;
    assert(2 * (here * den - num) <= den * gap) by (nonlinear_arith)
        requires
            den * (below + here) <= 2 * num,
            gap == here - below,
    ;
    lemma_gap_small(gap, below, u);
    lemma_scale_down(here * den - num, den, gap, u);
}

proof fn lemma_gap_small(gap: int, here: int, u: int)
    requires
        gap * BINADE <= here + BINADE,
        here <= 16 * u,
        u >= BINADE,
    ensures
        gap * BINADE <= 32 * u,
{
}

proof fn lemma_scale_down(error: int, den: int, gap: int, u: int)
    requires
        2 * error <= den * gap,
        gap * BINADE <= 32 * u,
        den > 0,
    ensures
        error * grain() <= u * den,
{
    assert((den * gap) * BINADE <= 32 * (u * den)) by (nonlinear_arith)
        requires
            gap * BINADE <= 32 * u,
            den > 0,
    ;
    assert((2 * error) * BINADE <= (den * gap) * BINADE) by (nonlinear_arith)
        requires
            2 * error <= den * gap,
            BINADE > 0,
    ;
    assert(BINADE == 16 * grain());
    assert((2 * error) * BINADE == 32 * (error * grain())) by (nonlinear_arith)
        requires
            BINADE == 16 * grain(),
    ;
}

/// What the parts of a finite number are.
pub proof fn lemma_signed(negative: bool, rank: nat)
    requires
        rank <= INFINITE_RANK,
    ensures
        ({
            let x = Binary64::signed(negative, rank);
            &&& x.rank() == rank
            &&& x.negative() == negative
            &&& x.units() == if negative {
                -(rounding::magnitude(rank) as int)
            } else {
                rounding::magnitude(rank) as int
            }
            &&& x.order() == if negative {
                -(rank as int)
            } else {
                rank as int
            }
        }),
{
}

/// The number one is one.
pub proof fn lemma_one()
    ensures
        Binary64::of_nat(1).finite(),
        Binary64::of_nat(1).units() == one(),
{
    reveal(Binary64::of_ratio);
    lemma2_to64();
    lemma2_to64_rest();
    lemma_pow2_adds(1022, 52);
    let rank = (1023 * BINADE) as nat;
    assert(rank / (BINADE as nat) == 1023 && rank % (BINADE as nat) == 0);
    assert(rounding::magnitude(rank) == one()) by {
        assert(BINADE * pow2(1022) == one()) by (nonlinear_arith)
            requires
                one() == pow2(1022) * pow2(52),
                pow2(52) == BINADE,
        ;
    }
    lemma_rounding_exact(rank, 1);
    assert(rounding::magnitude(rank) * 1 == 1 * one()) by (nonlinear_arith)
        requires
            rounding::magnitude(rank) == one(),
    ;
    lemma_signed(false, rank);
}

/// The order of finite numbers is the order of their values.
pub proof fn lemma_order(a: Binary64, b: Binary64)
    requires
        a.finite(),
        b.finite(),
    ensures
        a.less(b) <==> a.units() < b.units(),
        a.at_most(b) <==> a.units() <= b.units(),
{
    if a.rank() < b.rank() {
        rounding::lemma_magnitude_increases(a.rank(), b.rank());
    } else if b.rank() < a.rank() {
        rounding::lemma_magnitude_increases(b.rank(), a.rank());
    }
    if 0 < a.rank() {
        rounding::lemma_magnitude_increases(0, a.rank());
    }
    if 0 < b.rank() {
        rounding::lemma_magnitude_increases(0, b.rank());
    }
}

/// A sum below eight is finite and no more than one grain away from the exact
/// one. It is positive exactly where that is.
pub proof fn lemma_sum_close(a: Binary64, b: Binary64)
    requires
        a.finite(),
        b.finite(),
        -8 * one() <= a.units() + b.units() <= 8 * one(),
    ensures
        a.sum(b).finite(),
        (a.sum(b).units() - (a.units() + b.units())) * grain() <= one(),
        ((a.units() + b.units()) - a.sum(b).units()) * grain() <= one(),
        a.units() + b.units() > 0 ==> a.sum(b).units() > 0,
{
    reveal(Binary64::sum);
    let exact = a.units() + b.units();
    lemma_magnitude_of_infinity();
    if exact == 0 {
        lemma_signed(a.negative() && b.negative(), 0);
    } else {
        let n = if exact < 0 { (-exact) as nat } else { exact as nat };
        assert(n <= 8 * (one() * 1));
        lemma_rounding_close(n, 1);
        let rank = rounding::rounded(n, 1);
        lemma_signed(exact < 0, rank);
        assert(rounding::magnitude(rank) * 1 == rounding::magnitude(rank));
        assert(one() * 1 == one());
        // A sum of at least one unit is not rounded to nothing.
        lemma_rounding_exact(1, 1);
        assert(rounding::magnitude(1) * 1 == 1);
        lemma_rounding_keeps_order(1, 1, n, 1);
        rounding::lemma_magnitude_increases(0, rank);
    }
}

/// A difference below eight is finite and no more than one grain away from the
/// exact one. It is positive exactly where that is.
pub proof fn lemma_difference_close(a: Binary64, b: Binary64)
    requires
        a.finite(),
        b.finite(),
        -8 * one() <= a.units() - b.units() <= 8 * one(),
    ensures
        a.difference(b).finite(),
        (a.difference(b).units() - (a.units() - b.units())) * grain() <= one(),
        ((a.units() - b.units()) - a.difference(b).units()) * grain() <= one(),
        a.units() - b.units() > 0 ==> a.difference(b).units() > 0,
{
    lemma_signed(!b.negative(), b.rank());
    lemma_sum_close(a, b.negated());
}

/// A product below eight is finite and no more than one grain away from the
/// exact one, which counts in squares of the unit.
pub proof fn lemma_product_close(a: Binary64, b: Binary64)
    requires
        a.finite(),
        b.finite(),
        0 <= a.units(),
        0 <= b.units(),
        a.units() * b.units() <= 8 * (one() * one()),
    ensures
        a.product(b).finite(),
        0 <= a.product(b).units(),
        (a.product(b).units() * one() - a.units() * b.units()) * grain() <= one() * one(),
        (a.units() * b.units() - a.product(b).units() * one()) * grain() <= one() * one(),
{
    reveal(Binary64::product);
    lemma_magnitude_of_infinity();
    let x = rounding::magnitude(a.rank());
    let y = rounding::magnitude(b.rank());
    if 0 < a.rank() {
        rounding::lemma_magnitude_increases(0, a.rank());
    }
    if 0 < b.rank() {
        rounding::lemma_magnitude_increases(0, b.rank());
    }
    assert(a.negative() ==> x == 0);
    assert(b.negative() ==> y == 0);
    assert(x == a.units() && y == b.units());
    assert((x * y) as int == a.units() * b.units());
    lemma_rounding_close(x * y, one());
    let rank = rounding::rounded(x * y, one());
    let negative = a.negative() != b.negative();
    lemma_signed(negative, rank);
    if negative {
        assert(x * y == 0) by (nonlinear_arith)
            requires
                x == 0 || y == 0,
        ;
        lemma_rounding_exact(0, one());
        assert(rounding::magnitude(0) * one() == 0) by (nonlinear_arith)
            requires
                rounding::magnitude(0) == 0,
        ;
        assert(rank == 0);
    }
}

/// A finite number times nothing is nothing.
pub proof fn lemma_product_nothing(a: Binary64)
    requires
        a.finite(),
    ensures
        a.product(Binary64::nothing()).finite(),
        a.product(Binary64::nothing()).units() == 0,
{
    reveal(Binary64::product);
    lemma_magnitude_of_infinity();
    let x = rounding::magnitude(a.rank());
    assert(x * rounding::magnitude(0) == 0 && rounding::magnitude(0) * one() == 0)
        by (nonlinear_arith)
        requires
            rounding::magnitude(0) == 0,
    ;
    lemma_rounding_exact(0, one());
    lemma_signed(a.negative(), 0);
}

/// A product of positive numbers is positive, unless it rounds to nothing.
pub proof fn lemma_product_not_negative(a: Binary64, b: Binary64)
    requires
        a.finite(),
        b.finite(),
        a.units() > 0,
        b.units() > 0,
    ensures
        a.product(b) == Binary64::nothing() || Binary64::nothing().less(a.product(b)),
{
    reveal(Binary64::product);
    lemma_magnitude_of_infinity();
    let n = rounding::magnitude(a.rank()) * rounding::magnitude(b.rank());
    assert(!a.negative() && !b.negative());
    rounding::lemma_rounded(n, one());
    lemma_signed(false, rounding::rounded(n, one()));
    lemma_signed(false, 0);
}

/// A number times at least one keeps its sign, and is not rounded to a smaller
/// rank.
pub proof fn lemma_product_grows(a: Binary64, b: Binary64)
    requires
        !a.undefined(),
        a.rank() > 0,
        b.finite(),
        b.units() >= one(),
    ensures
        a.product(b).rank() >= a.rank(),
        !a.product(b).undefined(),
        a.product(b).negative() == a.negative(),
{
    reveal(Binary64::product);
    lemma_magnitude_of_infinity();
    let x = rounding::magnitude(a.rank());
    let y = rounding::magnitude(b.rank());
    assert(!b.negative() && b.rank() > 0);
    if a.finite() {
        assert((x * one()) * one() <= (x * y) * one()) by (nonlinear_arith)
            requires
                one() <= y,
                x >= 0,
                one() > 0,
        ;
        lemma_rounding_keeps_order(x * one(), one(), x * y, one());
        lemma_rounding_exact(a.rank(), one());
        rounding::lemma_rounded(x * y, one());
        lemma_signed(a.negative(), rounding::rounded(x * y, one()));
    } else {
        lemma_signed(a.negative(), INFINITE_RANK as nat);
    }
}

/// The step to a rank is not small against its magnitude.
pub proof fn lemma_gap_large(rank: nat)
    ensures
        rounding::magnitude(rank + 1) <= 2 * BINADE * (rounding::magnitude(rank + 1)
            - rounding::magnitude(rank)),
{
    let (t, q) = rounding::lemma_rank_split(rank);
    rounding::lemma_magnitude(t, q + 1);
    assert(t * BINADE as nat + (q + 1) == rank + 1);
    let p = pow2(t);
    lemma_pow2_pos(t);
    assert((q + 1) * p <= 2 * BINADE * ((q + 1) * p - q * p)) by (nonlinear_arith)
        requires
            q + 1 <= 2 * BINADE,
            p > 0,
    ;
}

/// Rounding to a whole unit loses no more than two thirds.
pub proof fn lemma_rounding_third(n: nat)
    requires
        n >= 1,
    ensures
        rounding::rounded(n, 1) < INFINITE_RANK ==> 3 * rounding::magnitude(
            rounding::rounded(n, 1),
        ) >= n,
{
    let rank = rounding::rounded(n, 1);
    rounding::lemma_rounded(n, 1);
    if rank < INFINITE_RANK {
        lemma_gap(rank);
        let here = rounding::magnitude(rank);
        let above = rounding::magnitude(rank + 1);
        assert(2 * n <= here + above);
        assert(above - here <= here + 1);
    }
}

/// A difference of positive numbers is not small against the second one: their
/// quotient has the sign of the difference, and is not nothing.
pub proof fn lemma_relative_difference(a: Binary64, b: Binary64)
    requires
        a.finite(),
        b.finite(),
        0 <= a.units(),
        0 < b.units(),
        a.units() != b.units(),
    ensures
        ({
            let relative = a.difference(b).quotient(b);
            &&& !relative.undefined()
            &&& relative.rank() > 0
            &&& relative.negative() == (a.units() < b.units())
        }),
{
    reveal(Binary64::sum);
    reveal(Binary64::quotient);
    lemma_magnitude_of_infinity();
    lemma_signed(!b.negative(), b.rank());
    let ra = a.rank();
    let rb = b.rank();
    let x = rounding::magnitude(ra);
    let y = rounding::magnitude(rb);
    if 0 < ra {
        rounding::lemma_magnitude_increases(0, ra);
    }
    assert(a.units() == x && b.units() == y && rb > 0 && !b.negative());
    let falls = x < y;
    let exact = if falls { (y - x) as nat } else { (x - y) as nat };
    let diff = a.difference(b);
    let rank = rounding::rounded(exact, 1);
    // The difference is at least one step of the second number.
    assert(y <= 2 * BINADE * exact) by {
        if falls {
            if ra < rb - 1 {
                rounding::lemma_magnitude_increases(ra, (rb - 1) as nat);
            } else if ra > rb - 1 && ra > rb {
                rounding::lemma_magnitude_increases(rb, ra);
            }
            lemma_gap_large((rb - 1) as nat);
            let below = rounding::magnitude((rb - 1) as nat);
            assert(y - below <= exact);
        } else {
            if ra < rb {
                rounding::lemma_magnitude_increases(ra, rb);
            } else if rb + 1 < ra {
                rounding::lemma_magnitude_increases(rb + 1, ra);
            }
            lemma_gap_large(rb);
            rounding::lemma_magnitude_step(rb);
            let above = rounding::magnitude(rb + 1);
            assert(above - y <= exact);
        }
    }
    // It is no larger than the larger number, which is finite.
    let larger = if falls { rb } else { ra };
    lemma_rounding_exact(larger, 1);
    lemma_rounding_keeps_order(exact, 1, rounding::magnitude(larger) * 1, 1);
    lemma_rounding_third(exact);
    lemma_signed(falls, rank);
    assert(diff == Binary64::signed(falls, rank));
    let d = rounding::magnitude(rank);
    let num = d * one();
    assert(y <= num) by (nonlinear_arith)
        requires
            y <= 2 * BINADE * exact,
            exact <= 3 * d,
            6 * BINADE <= one(),
            num == d * one(),
            d >= 0,
    ;
    lemma_rounding_exact(1, y);
    assert(rounding::magnitude(1) * y == y) by (nonlinear_arith)
        requires
            rounding::magnitude(1) == 1,
    ;
    assert(y * y <= num * y) by (nonlinear_arith)
        requires
            y <= num,
            y > 0,
    ;
    lemma_rounding_keeps_order(y, y, num, y);
    rounding::lemma_rounded(num, y);
    lemma_signed(falls, rounding::rounded(num, y));
}

/// A ratio below eight is finite and no more than one grain away from the exact
/// one.
pub proof fn lemma_ratio_close(n: nat, d: nat)
    requires
        d > 0,
        n <= 8 * d,
    ensures
        Binary64::of_ratio(n, d).finite(),
        0 <= Binary64::of_ratio(n, d).units(),
        (Binary64::of_ratio(n, d).units() * d - n * one()) * grain() <= one() * d,
        (n * one() - Binary64::of_ratio(n, d).units() * d) * grain() <= one() * d,
{
    reveal(Binary64::of_ratio);
    lemma_magnitude_of_infinity();
    assert(n * one() <= 8 * (one() * d)) by (nonlinear_arith)
        requires
            n <= 8 * d,
            one() > 0,
    ;
    lemma_rounding_close(n * one(), d);
    lemma_signed(false, rounding::rounded(n * one(), d));
}

/// A count below two to the power 64 is finite as a double, and not negative.
pub proof fn lemma_count(n: nat)
    requires
        n <= u64::MAX,
    ensures
        Binary64::of_nat(n).finite(),
        !Binary64::of_nat(n).negative(),
        n > 0 ==> Binary64::of_nat(n).rank() > 0,
{
    reveal(Binary64::of_ratio);
    lemma_magnitude_of_infinity();
    lemma2_to64();
    lemma2_to64_rest();
    // Two to the power 64.
    let top = (1087 * BINADE) as nat;
    assert(top / (BINADE as nat) == 1087 && top % (BINADE as nat) == 0);
    lemma_pow2_adds(1086, 52);
    lemma_pow2_adds(64, 1074);
    let limit = rounding::magnitude(top);
    assert(limit == pow2(64) * one()) by {
        assert(BINADE * pow2(1086) == pow2(64) * one()) by (nonlinear_arith)
            requires
                pow2(1138) == pow2(1086) * pow2(52),
                pow2(1138) == pow2(64) * one(),
                pow2(52) == BINADE,
        ;
    }
    lemma_rounding_exact(top, 1);
    assert((n * one()) * 1 <= (limit * 1) * 1) by (nonlinear_arith)
        requires
            n <= pow2(64),
            limit == pow2(64) * one(),
            one() > 0,
    ;
    lemma_rounding_keeps_order(n * one(), 1, limit * 1, 1);
    let rank = rounding::rounded(n * one(), 1);
    lemma_signed(false, rank);
    if n > 0 {
        lemma_rounding_exact(1, 1);
        assert((rounding::magnitude(1) * 1) * 1 <= (n * one()) * 1) by (nonlinear_arith)
            requires
                n >= 1,
                one() >= 1,
                rounding::magnitude(1) == 1,
        ;
        lemma_rounding_keeps_order(rounding::magnitude(1) * 1, 1, n * one(), 1);
    }
}

/// A smaller count is not a larger double.
pub proof fn lemma_count_order(a: nat, b: nat)
    requires
        a <= b <= u64::MAX,
    ensures
        Binary64::of_nat(a).rank() <= Binary64::of_nat(b).rank(),
{
    reveal(Binary64::of_ratio);
    lemma_magnitude_of_infinity();
    assert((a * one()) * 1 <= (b * one()) * 1) by (nonlinear_arith)
        requires
            a <= b,
            one() > 0,
    ;
    lemma_rounding_keeps_order(a * one(), 1, b * one(), 1);
    rounding::lemma_rounded(a * one(), 1);
    rounding::lemma_rounded(b * one(), 1);
    lemma_signed(false, rounding::rounded(a * one(), 1));
    lemma_signed(false, rounding::rounded(b * one(), 1));
}

/// The quotient of two numbers of which the first is not the larger lies between
/// zero and one.
pub proof fn lemma_share(a: Binary64, b: Binary64)
    requires
        a.finite(),
        b.finite(),
        !a.negative(),
        !b.negative(),
        a.rank() <= b.rank(),
        b.rank() > 0,
    ensures
        Binary64::nothing().at_most(a.quotient(b)),
        a.quotient(b).at_most(Binary64::of_nat(1)),
{
    reveal(Binary64::quotient);
    lemma_magnitude_of_infinity();
    lemma_one();
    let unit = Binary64::of_nat(1);
    lemma_signed(false, 0);
    lemma_order(Binary64::nothing(), unit);
    let n = rounding::magnitude(a.rank());
    let d = rounding::magnitude(b.rank());
    rounding::lemma_magnitude_increases(0, b.rank());
    if a.rank() < b.rank() {
        rounding::lemma_magnitude_increases(a.rank(), b.rank());
    }
    assert((n * one()) * d <= (one() * d) * d) by (nonlinear_arith)
        requires
            n <= d,
            one() > 0,
    ;
    lemma_rounding_keeps_order(n * one(), d, one() * d, d);
    lemma_rounding_exact(unit.rank(), d);
    lemma_signed(false, rounding::rounded(n * one(), d));
}

/// Ten thousand is at least one.
pub proof fn lemma_ten_thousand()
    ensures
        Binary64::of_nat(10_000).finite(),
        Binary64::of_nat(10_000).units() >= one(),
        Binary64::of_nat(10_000).units() > 0,
{
    let n = Binary64::of_nat(10_000);
    lemma_one();
    lemma_count(1);
    lemma_count(10_000);
    lemma_count_order(1, 10_000);
    if Binary64::of_nat(1).rank() < n.rank() {
        rounding::lemma_magnitude_increases(Binary64::of_nat(1).rank(), n.rank());
    }
    rounding::lemma_magnitude_increases(0, n.rank());
}

/// Nothing over a positive number is nothing.
pub proof fn lemma_nothing_over(b: Binary64)
    requires
        b.finite(),
        b.units() > 0,
    ensures
        Binary64::nothing().quotient(b) == Binary64::nothing(),
{
    reveal(Binary64::quotient);
    let d = rounding::magnitude(b.rank());
    assert(!b.negative() && b.rank() > 0);
    rounding::lemma_magnitude_increases(0, b.rank());
    lemma_signed(false, 0);
    assert(rounding::magnitude(0) * one() == 0 && rounding::magnitude(0) * d == 0)
        by (nonlinear_arith)
        requires
            rounding::magnitude(0) == 0,
    ;
    lemma_rounding_exact(0, d);
}

/// Nothing times a positive number is nothing.
pub proof fn lemma_nothing_times(b: Binary64)
    requires
        b.finite(),
        b.units() > 0,
    ensures
        Binary64::nothing().product(b) == Binary64::nothing(),
{
    reveal(Binary64::product);
    lemma_magnitude_of_infinity();
    let y = rounding::magnitude(b.rank());
    assert(!b.negative());
    lemma_signed(false, 0);
    assert(rounding::magnitude(0) * y == 0 && rounding::magnitude(0) * one() == 0)
        by (nonlinear_arith)
        requires
            rounding::magnitude(0) == 0,
    ;
    lemma_rounding_exact(0, one());
}

/// How far a ratio lies from the magnitude of a rank, times the denominator.
pub open spec fn distance(num: nat, den: nat, rank: nat) -> int {
    let at = den * rounding::magnitude(rank);
    if num <= at {
        at - num
    } else {
        num - at
    }
}

/// A ratio is rounded to the nearest: no other rank lies nearer to it.
pub proof fn lemma_no_rank_is_nearer(num: nat, den: nat, rank: nat)
    requires
        den > 0,
        rank <= INFINITE_RANK,
    ensures
        distance(num, den, rounding::rounded(num, den)) <= distance(num, den, rank),
{
    let r = rounding::rounded(num, den);
    rounding::lemma_rounded(num, den);
    let here = rounding::magnitude(r);
    let there = rounding::magnitude(rank);
    if rank < r {
        let below = rounding::magnitude((r - 1) as nat);
        if rank < r - 1 {
            rounding::lemma_magnitude_increases(rank, (r - 1) as nat);
        }
        rounding::lemma_magnitude_step((r - 1) as nat);
        assert(den * there <= den * below && den * below < den * here && den * (below + here)
            == den * below + den * here) by (nonlinear_arith)
            requires
                there <= below < here,
                den > 0,
        ;
    } else if r < rank {
        let above = rounding::magnitude(r + 1);
        if r + 1 < rank {
            rounding::lemma_magnitude_increases(r + 1, rank);
        }
        rounding::lemma_magnitude_step(r);
        assert(den * above <= den * there && den * here < den * above && den * (here + above)
            == den * here + den * above) by (nonlinear_arith)
            requires
                here < above <= there,
                den > 0,
        ;
    }
}

/// Of two ranks that are equally near the even one is taken.
pub proof fn lemma_ties_to_even(num: nat, den: nat, rank: nat)
    requires
        den > 0,
        rank + 1 <= INFINITE_RANK,
        2 * num == den * (rounding::magnitude(rank) + rounding::magnitude(rank + 1)),
    ensures
        rounding::rounded(num, den) == if rank % 2 == 0 {
            rank
        } else {
            rank + 1
        },
{
    let r = rounding::rounded(num, den);
    rounding::lemma_rounded(num, den);
    lemma_no_rank_is_nearer(num, den, rank);
    let here = rounding::magnitude(rank);
    let above = rounding::magnitude(rank + 1);
    rounding::lemma_magnitude_step(rank);
    assert(den * (here + above) == den * here + den * above && den * here < den * above)
        by (nonlinear_arith)
        requires
            here < above,
            den > 0,
    ;
    if r < rank {
        let there = rounding::magnitude(r);
        rounding::lemma_magnitude_increases(r, rank);
        assert(den * there < den * here) by (nonlinear_arith)
            requires
                there < here,
                den > 0,
        ;
    } else if rank + 1 < r {
        let there = rounding::magnitude(r);
        rounding::lemma_magnitude_increases(rank + 1, r);
        assert(den * above < den * there) by (nonlinear_arith)
            requires
                above < there,
                den > 0,
        ;
    }
}

} // verus!
