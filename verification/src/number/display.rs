//! Doubles written out with four digits behind the point.

use crate::number::algebra;
use crate::number::binary64::Binary64;
use crate::number::reading;
use crate::number::rounding;
use crate::number::rounding::{decode, power_of_two, INFINITE_RANK, UNIT_EXPONENT};
use crate::utils::text;
use crate::utils::text::decimal_text;
use vstd::arithmetic::power::*;
use vstd::arithmetic::power2::*;
use vstd::prelude::*;
use vstd::string::*;

verus! {

/// A ratio rounded to a whole number, where of two equally near ones the even
/// one is taken.
pub open spec fn rounded_ratio(num: nat, den: nat) -> nat {
    let q = num / den;
    let r = num % den;
    if 2 * r > den || (2 * r == den && q % 2 == 1) {
        q + 1
    } else {
        q
    }
}

/// The last four digits of a number, with leading zeros.
pub open spec fn four_digits(n: nat) -> Seq<char> {
    seq![
        (n / 1000 % 10 + '0' as u32) as char,
        (n / 100 % 10 + '0' as u32) as char,
        (n / 10 % 10 + '0' as u32) as char,
        (n % 10 + '0' as u32) as char,
    ]
}

/// A number of ten-thousandths, with four digits behind the point.
pub open spec fn ten_thousandths(n: nat) -> Seq<char> {
    text::decimal(n / 10_000) + "."@ + four_digits(n % 10_000)
}

/// A double with four digits behind the point.
pub open spec fn fixed_text(x: Binary64) -> Seq<char> {
    let sign = if x.negative() {
        "-"@
    } else {
        ""@
    };
    if x.undefined() {
        "NaN"@
    } else if x.infinite() {
        sign + "inf"@
    } else {
        sign + ten_thousandths(
            rounded_ratio(
                rounding::magnitude(x.rank()) * 10_000,
                pow2(UNIT_EXPONENT as nat),
            ),
        )
    }
}

/// The number that decimal digits stand for, the least significant first.
spec fn digits_number(digits: Seq<u8>) -> nat
    decreases digits.len(),
{
    if digits.len() == 0 {
        0
    } else {
        (digits_number(digits.drop_last()) + digits.last() * pow(10, (digits.len() - 1) as nat))
            as nat
    }
}

spec fn are_digits(digits: Seq<u8>) -> bool {
    forall|i: int| 0 <= i < digits.len() ==> (#[trigger] digits[i]) < 10
}

/// Digits without a leading zero are how their value is written.
proof fn lemma_decimal_unique(t: Seq<char>)
    requires
        t.len() > 0,
        text::all_digits(t),
        t.len() == 1 || t[0] != '0',
    ensures
        t == text::decimal(text::digits_value(t)),
        t[0] != '0' ==> text::digits_value(t) > 0,
    decreases t.len(),
{
    let rest = t.drop_last();
    let d = text::digit_value(t.last());
    assert(text::is_digit(t[t.len() - 1]));
    assert((d + '0' as u32) as char == t.last());
    if t.len() == 1 {
        assert(rest =~= Seq::<char>::empty());
        assert(text::digits_value(rest) == 0);
        assert(text::digits_value(t) == d);
        assert(t =~= text::decimal(d));
    } else {
        assert(text::all_digits(rest)) by {
            assert forall|i: int| 0 <= i < rest.len() implies text::is_digit(#[trigger] rest[i]) by {
                assert(text::is_digit(t[i]));
            }
        }
        assert(rest[0] == t[0]);
        lemma_decimal_unique(rest);
        let v = text::digits_value(rest);
        let n = text::digits_value(t);
        assert(n == v * 10 + d);
        assert(n / 10 == v && n % 10 == d);
        assert(t =~= rest.push(t.last()));
    }
}

fn digits_of(n: u64) -> (r: Vec<u8>)
    requires
        n > 0,
    ensures
        r@.len() > 0,
        are_digits(r@),
        r@.last() != 0,
        digits_number(r@) == n,
{
    let mut digits: Vec<u8> = Vec::new();
    let mut rest: u64 = n;
    assert(pow(10, 0) == 1) by {
        reveal(pow);
    }
    assert(rest * pow(10, 0) == rest) by (nonlinear_arith)
        requires
            pow(10, 0) == 1,
    ;
    while rest > 0
        invariant
            are_digits(digits@),
            digits_number(digits@) + rest * pow(10, digits@.len()) == n,
            rest == 0 ==> digits@.len() > 0 && digits@.last() != 0,
        decreases rest,
    {
        let ghost before = digits@;
        let ghost whole = rest;
        let ghost p = pow(10, before.len());
        digits.push((rest % 10) as u8);
        rest = rest / 10;
        proof {
            assert(digits@.drop_last() =~= before);
            lemma_pow_unfold(before.len() as nat);
            let d = (whole % 10) as int;
            assert(whole * p == d * p + rest * (10 * p)) by (nonlinear_arith)
                requires
                    whole == 10 * rest + d,
            ;
            lemma_nonnegative(d, p);
        }
    }
    proof {
        assert(0 * pow(10, digits@.len()) == 0);
    }
    digits
}

/// The next power of ten.
proof fn lemma_pow_unfold(n: nat)
    ensures
        pow(10, n + 1) == 10 * pow(10, n),
        pow(10, n) > 0,
{
    reveal(pow);
    lemma_pow_positive(10, n);
}

proof fn lemma_nonnegative(a: int, b: int)
    requires
        a >= 0,
        b >= 0,
    ensures
        a * b >= 0,
{
    assert(a * b >= 0) by (nonlinear_arith)
        requires
            a >= 0,
            b >= 0,
    ;
}

proof fn lemma_digits_update(digits: Seq<u8>, i: int, n: int, d: u8)
    requires
        0 <= n <= i < digits.len(),
    ensures
        digits_number(digits.update(i, d).take(n)) == digits_number(digits.take(n)),
{
    assert(digits.update(i, d).take(n) =~= digits.take(n));
}

fn double_digits(digits: &mut Vec<u8>)
    requires
        old(digits)@.len() > 0,
        are_digits(old(digits)@),
        old(digits)@.last() != 0,
    ensures
        final(digits)@.len() > 0,
        are_digits(final(digits)@),
        final(digits)@.last() != 0,
        digits_number(final(digits)@) == 2 * digits_number(old(digits)@),
{
    let ghost start = digits@;
    let len: usize = digits.len();
    let mut carry: u8 = 0;
    let mut i: usize = 0;
    proof {
        assert(start.take(0) =~= Seq::<u8>::empty());
        assert(digits@.take(0) =~= Seq::<u8>::empty());
        reveal(pow);
        assert(carry * pow(10, 0) == 0);
    }
    while i < len
        invariant
            i <= len == digits@.len() == start.len(),
            carry <= 1,
            are_digits(start),
            start.last() != 0,
            forall|j: int| 0 <= j < i ==> (#[trigger] digits@[j]) < 10,
            forall|j: int| i <= j < len ==> (#[trigger] digits@[j]) == start[j],
            digits_number(digits@.take(i as int)) + carry * pow(10, i as nat) == 2 * digits_number(
                start.take(i as int),
            ),
            i == len && carry == 0 ==> digits@.last() != 0,
        decreases len - i,
    {
        let ghost before = digits@;
        let ghost carried = carry;
        let ghost p = pow(10, i as nat);
        let v: u8 = 2 * digits[i] + carry;
        let d: u8 = v % 10;
        digits[i] = d;
        carry = v / 10;
        proof {
            lemma_digits_update(before, i as int, i as int, d);
            assert(digits@ == before.update(i as int, d));
            assert(digits@.take(i + 1).drop_last() =~= digits@.take(i as int));
            assert(start.take(i + 1).drop_last() =~= start.take(i as int));
            lemma_pow_unfold(i as nat);
            let s = start[i as int] as int;
            lemma_nonnegative(d as int, p);
            lemma_nonnegative(s, p);
            assert(d * p + carry * (10 * p) == 2 * (s * p) + carried * p) by (nonlinear_arith)
                requires
                    2 * s + carried == 10 * carry + d,
            ;
        }
        i = i + 1;
    }
    proof {
        assert(digits@.take(len as int) =~= digits@);
        assert(start.take(len as int) =~= start);
    }
    if carry > 0 {
        let ghost before = digits@;
        digits.push(carry);
        proof {
            assert(digits@.drop_last() =~= before);
            lemma_pow_unfold(len as nat);
            lemma_nonnegative(carry as int, pow(10, len as nat));
        }
    }
}

fn digits_text(digits: &Vec<u8>) -> (r: String)
    requires
        digits@.len() > 0,
        are_digits(digits@),
        digits@.last() != 0,
    ensures
        r@ == text::decimal(digits_number(digits@)),
{
    let mut out: String = String::new();
    let mut i: usize = digits.len();
    let ghost n = digits_number(digits@);
    proof {
        assert(digits@.take(i as int) =~= digits@);
        assert(out@ =~= Seq::<char>::empty());
        assert(0 * pow(10, i as nat) == 0);
    }
    while i > 0
        invariant
            i <= digits@.len(),
            are_digits(digits@),
            digits@.last() != 0,
            text::all_digits(out@),
            out@.len() == digits@.len() - i,
            out@.len() > 0 ==> out@[0] != '0',
            text::digits_value(out@) * pow(10, i as nat) + digits_number(digits@.take(i as int))
                == n,
        decreases i,
    {
        let ghost before = out@;
        let ghost value = text::digits_value(before);
        i = i - 1;
        let d: u8 = digits[i];
        out.push((d + 48u8) as char);
        proof {
            let c = out@.last();
            let p = pow(10, i as nat);
            assert(out@.drop_last() =~= before);
            assert(text::is_digit(c) && text::digit_value(c) == d);
            assert(digits@.take(i + 1).drop_last() =~= digits@.take(i as int));
            lemma_pow_unfold(i as nat);
            lemma_nonnegative(d as int, p);
            assert((value * 10 + d) * p == value * (10 * p) + d * p) by (nonlinear_arith);
            assert forall|k: int| 0 <= k < out@.len() implies text::is_digit(#[trigger] out@[k]) by {
                if k < before.len() {
                    assert(text::is_digit(before[k]));
                }
            }
        }
    }
    proof {
        assert(pow(10, 0) == 1) by {
            reveal(pow);
        }
        assert(text::digits_value(out@) * pow(10, 0) == text::digits_value(out@))
            by (nonlinear_arith)
            requires
                pow(10, 0) == 1,
        ;
        assert(digits@.take(0) =~= Seq::<u8>::empty());
        lemma_decimal_unique(out@);
    }
    out
}

fn push_four(out: String, n: u64) -> (r: String)
    requires
        n < 10_000,
    ensures
        r@ == out@ + "."@ + four_digits(n as nat),
{
    let mut r: String = out.concat(".");
    let ghost start = r@;
    r.push(((n / 1000 % 10) as u8 + 48u8) as char);
    r.push(((n / 100 % 10) as u8 + 48u8) as char);
    r.push(((n / 10 % 10) as u8 + 48u8) as char);
    r.push(((n % 10) as u8 + 48u8) as char);
    assert(r@ =~= start + four_digits(n as nat));
    r
}

/// What is left of a multiple of a power of two when it is divided by a higher
/// one.
proof fn lemma_cancel_power(m: nat, e: nat, k: nat)
    ensures
        rounded_ratio(m * pow2(e), pow2(e + k)) == rounded_ratio(m, pow2(k)),
{
    let p = pow2(e);
    let den = pow2(k);
    lemma_pow2_pos(e);
    lemma_pow2_pos(k);
    lemma_pow2_adds(e, k);
    let q = m / den;
    let r = m % den;
    assert(m == q * den + r && 0 <= r < den) by (nonlinear_arith)
        requires
            q == m / den,
            r == m % den,
            den > 0,
    ;
    let num = m * p;
    let whole = p * den;
    assert(num == q * whole + r * p && 0 <= r * p < whole) by (nonlinear_arith)
        requires
            m == q * den + r,
            0 <= r < den,
            p > 0,
            num == m * p,
            whole == p * den,
    ;
    vstd::arithmetic::div_mod::lemma_fundamental_div_mod_converse(
        num as int,
        whole as int,
        q as int,
        (r * p) as int,
    );
    rounding::lemma_cancel((2 * r) as int, den as int, p as int);
    assert((2 * r) * p == 2 * (r * p) && den * p == whole) by (nonlinear_arith)
        requires
            whole == p * den,
    ;
}

/// A whole number of ten-thousandths that is a multiple of one.
proof fn lemma_whole(n: nat)
    ensures
        rounded_ratio(n * 10_000, 1) == n * 10_000,
        (n * 10_000) / 10_000 == n,
        (n * 10_000) % 10_000 == 0,
{
}

impl Binary64 {
    /// The number with four digits behind the point.
    pub fn to_fixed(self) -> (r: String)
        ensures
            r@ == fixed_text(self),
    {
        if self.is_nan() {
            return "NaN".to_owned();
        }
        let sign: String = if self.bits >= crate::number::binary64::SIGN_BIT {
            "-".to_owned()
        } else {
            "".to_owned()
        };
        let rank: u64 = self.abs().bits;
        if rank == INFINITE_RANK {
            return sign.concat("inf");
        }
        let (m, e) = decode(rank);
        let ghost value = rounding::magnitude(self.rank());
        let ghost one = pow2(UNIT_EXPONENT as nat);
        proof {
            lemma2_to64();
            lemma2_to64_rest();
            assert((m * pow2(e as nat)) * 10_000 == (m * 10_000) * pow2(e as nat)) by (nonlinear_arith);
        }
        if e < UNIT_EXPONENT {
            let k: u32 = UNIT_EXPONENT - e;
            let top: u128 = m as u128 * 10_000;
            proof {
                lemma_cancel_power(top as nat, e as nat, k as nat);
            }
            let n: u128 = if k > 126 {
                proof {
                    lemma_pow2_strictly_increases(126, k as nat);
                    lemma_pow2_adds(63, 63);
                    vstd::arithmetic::div_mod::lemma_basic_div(top as int, pow2(k as nat) as int);
                    vstd::arithmetic::div_mod::lemma_small_mod(top as nat, pow2(k as nat));
                }
                0
            } else {
                let den: u128 = power_of_two(k);
                proof {
                    lemma_pow2_pos(k as nat);
                }
                let q: u128 = top / den;
                let rest: u128 = top % den;
                proof {
                    assert(q <= top) by (nonlinear_arith)
                        requires
                            q == top / den,
                            den > 0,
                    ;
                }
                if 2 * rest > den || (2 * rest == den && q % 2 == 1) {
                    q + 1
                } else {
                    q
                }
            };
            assert(n == rounded_ratio(value * 10_000, one));
            let whole: u64 = (n / 10_000) as u64;
            let part: u64 = (n % 10_000) as u64;
            let body: String = push_four(decimal_text(whole), part);
            sign.concat(body.as_str())
        } else {
            let mut digits: Vec<u8> = digits_of(m);
            let mut j: u32 = UNIT_EXPONENT;
            assert(m * pow2(0) == m);
            while j < e
                invariant
                    UNIT_EXPONENT <= j <= e,
                    digits@.len() > 0,
                    are_digits(digits@),
                    digits@.last() != 0,
                    digits_number(digits@) == m * pow2((j - UNIT_EXPONENT) as nat),
                decreases e - j,
            {
                double_digits(&mut digits);
                proof {
                    lemma_pow2_unfold((j + 1 - UNIT_EXPONENT) as nat);
                    let p = pow2((j - UNIT_EXPONENT) as nat);
                    assert(2 * (m * p) == m * (2 * p)) by (nonlinear_arith);
                }
                j = j + 1;
            }
            let body: String = push_four(digits_text(&digits), 0);
            proof {
                let lift = (e - UNIT_EXPONENT) as nat;
                let n = digits_number(digits@);
                lemma_pow2_adds(UNIT_EXPONENT as nat, lift);
                lemma_cancel_power(n * 10_000, UNIT_EXPONENT as nat, 0);
                assert(value * 10_000 == (n * 10_000) * one) by (nonlinear_arith)
                    requires
                        value == m * pow2(e as nat),
                        pow2(e as nat) == one * pow2(lift),
                        n == m * pow2(lift),
                ;
                lemma_whole(n);
            }
            sign.concat(body.as_str())
        }
    }
}

/// What is shown of a number that is not negative reads back as a ten-thousandth
/// that lies no more than half a ten-thousandth away from it: of two that are
/// equally near, the even one.
pub proof fn lemma_shown_reads_back(x: Binary64) -> (n: nat)
    requires
        x.finite(),
        !x.negative(),
    ensures
        reading::read_double(fixed_text(x)) == Some(Binary64::of_ratio(n, 10_000)),
        2 * (n * pow2(UNIT_EXPONENT as nat) - 10_000 * x.units()) <= pow2(UNIT_EXPONENT as nat),
        2 * (10_000 * x.units() - n * pow2(UNIT_EXPONENT as nat)) <= pow2(UNIT_EXPONENT as nat),
        2 * (n * pow2(UNIT_EXPONENT as nat) - 10_000 * x.units()) == pow2(UNIT_EXPONENT as nat) || 2
            * (10_000 * x.units() - n * pow2(UNIT_EXPONENT as nat)) == pow2(UNIT_EXPONENT as nat)
            ==> n % 2 == 0,
{
    let u = pow2(UNIT_EXPONENT as nat);
    lemma_pow2_pos(UNIT_EXPONENT as nat);
    let num = rounding::magnitude(x.rank()) * 10_000;
    let n = rounded_ratio(num, u);
    let q = num / u;
    let r = num % u;
    assert(num == q * u + r && 0 <= r < u) by (nonlinear_arith)
        requires
            q == num / u,
            r == num % u,
            u > 0,
    ;
    assert((q + 1) * u == q * u + u) by (nonlinear_arith);
    let a = text::decimal(n / 10_000);
    let b = four_digits(n % 10_000);
    text::lemma_decimal_value(n / 10_000);
    reveal_strlit("");
    reveal_strlit(".");
    assert("."@ =~= seq!['.']);
    assert(fixed_text(x) =~= a + seq!['.'] + b);
    assert(text::all_digits(b));
    lemma_four_digits(a, n % 10_000);
    reading::lemma_reads_fraction(a, b);
    assert(pow(10, 4) == 10_000) by {
        reveal_with_fuel(pow, 5);
    }
    n
}

proof fn lemma_four_digits(a: Seq<char>, m: nat)
    requires
        m < 10_000,
    ensures
        text::digits_value(a + four_digits(m)) == text::digits_value(a) * 10_000 + m,
        four_digits(m).len() == 4,
        text::all_digits(four_digits(m)),
{
    let b = four_digits(m);
    lemma_value_of_four(a, b);
    lemma_digit_char(m / 1000 % 10);
    lemma_digit_char(m / 100 % 10);
    lemma_digit_char(m / 10 % 10);
    lemma_digit_char(m % 10);
    lemma_four_places(m);
}

proof fn lemma_digit_char(d: nat)
    requires
        d < 10,
    ensures
        text::is_digit((d + '0' as u32) as char),
        text::digit_value((d + '0' as u32) as char) == d,
{
}

proof fn lemma_four_places(m: nat)
    requires
        m < 10_000,
    ensures
        (m / 1000 % 10) * 1000 + (m / 100 % 10) * 100 + (m / 10 % 10) * 10 + m % 10 == m,
{
    let tens = m / 10;
    let hundreds = tens / 10;
    let thousands = hundreds / 10;
    assert(m / 100 == hundreds);
    assert(m / 1000 == thousands);
    assert(thousands < 10);
}

proof fn lemma_value_of_four(a: Seq<char>, b: Seq<char>)
    requires
        b.len() == 4,
    ensures
        text::digits_value(a + b) == text::digits_value(a) * 10_000 + text::digit_value(b[0]) * 1000
            + text::digit_value(b[1]) * 100 + text::digit_value(b[2]) * 10 + text::digit_value(
            b[3],
        ),
{
    let t4 = a + b;
    let t3 = a + b.take(3);
    let t2 = a + b.take(2);
    let t1 = a + b.take(1);
    assert(t4.drop_last() =~= t3 && t4.last() == b[3]);
    assert(t3.drop_last() =~= t2 && t3.last() == b[2]);
    assert(t2.drop_last() =~= t1 && t2.last() == b[1]);
    assert(t1.drop_last() =~= a && t1.last() == b[0]);
    assert(text::digits_value(t1) == text::digits_value(a) * 10 + text::digit_value(b[0]));
    assert(text::digits_value(t2) == text::digits_value(t1) * 10 + text::digit_value(b[1]));
    assert(text::digits_value(t3) == text::digits_value(t2) * 10 + text::digit_value(b[2]));
    assert(text::digits_value(t4) == text::digits_value(t3) * 10 + text::digit_value(b[3]));
}

/// The sign is shown in front, and a number and its opposite are shown alike but
/// for it.
pub proof fn lemma_sign_is_shown(x: Binary64)
    requires
        !x.undefined(),
        !x.negative(),
    ensures
        fixed_text(x.negated()) == seq!['-'] + fixed_text(x),
{
    algebra::lemma_negated(x);
    reveal_strlit("-");
    reveal_strlit("");
    assert("-"@ =~= seq!['-']);
    assert(""@ + "inf"@ =~= "inf"@);
    assert(fixed_text(x.negated()) =~= seq!['-'] + fixed_text(x));
}

} // verus!
