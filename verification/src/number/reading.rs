//! Reading doubles from decimal text.

use crate::number::bignat::BigNat;
use crate::number::binary64::{Binary64, NAN_BITS, SIGN_BIT};
use crate::number::rounding;
use crate::number::rounding::{BINADE, INFINITE_RANK, UNIT_EXPONENT};
use crate::utils::text;
use crate::utils::text::chars_of;
use vstd::arithmetic::power::*;
use vstd::arithmetic::power2::*;
use vstd::prelude::*;

verus! {

/// How many digits a text starts with.
pub open spec fn digit_run(text: Seq<char>) -> nat
    decreases text.len(),
{
    if text.len() > 0 && text::is_digit(text[0]) {
        1 + digit_run(text.drop_first())
    } else {
        0
    }
}

pub open spec fn is_sign(c: char) -> bool {
    c == '+' || c == '-'
}

/// The text after a leading sign.
pub open spec fn without_sign(text: Seq<char>) -> Seq<char> {
    if text.len() > 0 && is_sign(text[0]) {
        text.drop_first()
    } else {
        text
    }
}

pub open spec fn has_minus(text: Seq<char>) -> bool {
    text.len() > 0 && text[0] == '-'
}

/// Whether two texts agree but for the case of ASCII letters.
pub open spec fn same_letters(a: Seq<char>, b: Seq<char>) -> bool {
    a.len() == b.len() && forall|i: int|
        0 <= i < a.len() ==> text::ascii_lower(#[trigger] a[i]) == b[i]
}

/// The exponent part of a number: nothing, or `e` and a signed whole number.
pub open spec fn exponent_part(tail: Seq<char>) -> Option<int> {
    if tail.len() == 0 {
        Some(0)
    } else if tail[0] == 'e' || tail[0] == 'E' {
        let body = tail.drop_first();
        let digits = without_sign(body);
        if digits.len() > 0 && text::all_digits(digits) {
            let size = text::digits_value(digits) as int;
            Some(if has_minus(body) { -size } else { size })
        } else {
            None
        }
    } else {
        None
    }
}

/// A number without sign: its digits, with the point left out, and the power of
/// ten that they count.
pub open spec fn plain_number(text: Seq<char>) -> Option<(Seq<char>, int)> {
    let whole = digit_run(text);
    let pointed = whole < text.len() && text[whole as int] == '.';
    let fraction = if pointed { digit_run(text.skip(whole as int + 1)) } else { 0 };
    let end = if pointed { whole + 1 + fraction } else { whole };
    let digits = text.take(whole as int) + (if pointed {
        text.subrange(whole as int + 1, end as int)
    } else {
        Seq::empty()
    });
    if digits.len() == 0 {
        None
    } else {
        match exponent_part(text.skip(end as int)) {
            Some(e) => Some((digits, e - fraction)),
            None => None,
        }
    }
}

/// The double nearest to `n` times ten to the power `p`.
pub open spec fn decimal_double(n: nat, p: int) -> Binary64 {
    if p >= 0 {
        Binary64::of_ratio(n * pow(10, p as nat) as nat, 1)
    } else {
        Binary64::of_ratio(n, pow(10, (-p) as nat) as nat)
    }
}

/// The double that a text without sign stands for.
pub open spec fn unsigned_double(text: Seq<char>) -> Option<Binary64> {
    if same_letters(text, "inf"@) || same_letters(text, "infinity"@) {
        Some(Binary64 { bits: INFINITE_RANK })
    } else if same_letters(text, "nan"@) {
        Some(Binary64::not_a_number())
    } else {
        match plain_number(text) {
            Some((digits, p)) => Some(decimal_double(text::digits_value(digits), p)),
            None => None,
        }
    }
}

/// The double that a text stands for, if it stands for one.
pub open spec fn read_double(text: Seq<char>) -> Option<Binary64> {
    match unsigned_double(without_sign(text)) {
        Some(x) => Some(if has_minus(text) { x.negated() } else { x }),
        None => None,
    }
}

proof fn lemma_digit_run(text: Seq<char>, n: nat)
    requires
        n <= text.len(),
        forall|i: int| 0 <= i < n ==> text::is_digit(#[trigger] text[i]),
        n < text.len() ==> !text::is_digit(text[n as int]),
    ensures
        digit_run(text) == n,
    decreases n,
{
    if n > 0 {
        assert(text::is_digit(text[0]));
        let rest = text.drop_first();
        assert forall|i: int| 0 <= i < n - 1 implies text::is_digit(#[trigger] rest[i]) by {
            assert(rest[i] == text[i + 1]);
        }
        lemma_digit_run(rest, (n - 1) as nat);
    }
}

/// The end of the digits that start at `from`.
fn skip_digits(chars: &Vec<char>, from: usize) -> (end: usize)
    requires
        from <= chars@.len(),
    ensures
        from <= end <= chars@.len(),
        end - from == digit_run(chars@.skip(from as int)),
        forall|i: int| from <= i < end ==> text::is_digit(#[trigger] chars@[i]),
{
    let mut end: usize = from;
    while end < chars.len() && chars[end] >= '0' && chars[end] <= '9'
        invariant
            from <= end <= chars@.len(),
            forall|i: int| from <= i < end ==> text::is_digit(#[trigger] chars@[i]),
        decreases chars@.len() - end,
    {
        end = end + 1;
    }
    proof {
        lemma_digit_run(chars@.skip(from as int), (end - from) as nat);
    }
    end
}

/// Whether the characters from `from` on are `word`, but for the case of letters.
fn reads_word(chars: &Vec<char>, from: usize, word: &Vec<char>) -> (r: bool)
    requires
        from <= chars@.len(),
    ensures
        r == same_letters(chars@.skip(from as int), word@),
{
    let end: usize = chars.len();
    let n: usize = end - from;
    if n != word.len() {
        return false;
    }
    let mut i: usize = 0;
    while i < n
        invariant
            i <= n,
            end == chars@.len(),
            from <= end,
            n == chars@.len() - from,
            n == word@.len(),
            forall|k: int|
                0 <= k < i ==> text::ascii_lower(#[trigger] chars@.skip(from as int)[k])
                    == word@[k],
        decreases n - i,
    {
        let c: char = chars[from + i];
        let low: char = if c >= 'A' && c <= 'Z' { (c as u8 + 32) as char } else { c };
        assert(chars@.skip(from as int)[i as int] == c);
        assert(low == text::ascii_lower(c));
        if low != word[i] {
            return false;
        }
        i = i + 1;
    }
    true
}

/// A bound that exponents are cut at: far above any that matters.
pub const EXPONENT_CUT: u128 = 0x1_0000_0000_0000_0000_0000_0000;

/// Reads the exponent part that starts at `from`. An exponent beyond the cut is
/// handed back as the cut itself.
fn read_exponent(chars: &Vec<char>, from: usize) -> (r: Option<i128>)
    requires
        from <= chars@.len(),
    ensures
        match exponent_part(chars@.skip(from as int)) {
            Some(e) => r matches Some(x) && {
                ||| x == e
                ||| x == EXPONENT_CUT && e > EXPONENT_CUT
                ||| x == -EXPONENT_CUT && e < -EXPONENT_CUT
            },
            None => r is None,
        },
        r matches Some(x) ==> -EXPONENT_CUT <= x <= EXPONENT_CUT,
{
    let ghost tail = chars@.skip(from as int);
    if from == chars.len() {
        return Some(0);
    }
    if chars[from] != 'e' && chars[from] != 'E' {
        return None;
    }
    let ghost body = tail.drop_first();
    let mut i: usize = from + 1;
    let mut minus: bool = false;
    if i < chars.len() && (chars[i] == '+' || chars[i] == '-') {
        minus = chars[i] == '-';
        i = i + 1;
    }
    let start: usize = i;
    let ghost digits = without_sign(body);
    proof {
        if start == from + 1 {
            assert(digits =~= chars@.skip(start as int));
        } else {
            assert(body[0] == chars@[from + 1]);
            assert(digits =~= chars@.skip(start as int));
        }
    }
    if start == chars.len() {
        return None;
    }
    let mut value: u128 = 0;
    assert(digits.take(0) =~= Seq::<char>::empty());
    while i < chars.len()
        invariant
            start <= i <= chars@.len(),
            digits == chars@.skip(start as int),
            value <= EXPONENT_CUT,
            ({
                let so_far = text::digits_value(digits.take(i - start));
                value == so_far || (value == EXPONENT_CUT && so_far > EXPONENT_CUT)
            }),
            forall|k: int| 0 <= k < i - start ==> text::is_digit(#[trigger] digits[k]),
            start < chars@.len(),
            tail == chars@.skip(from as int),
            tail.len() > 0,
            tail[0] == 'e' || tail[0] == 'E',
            digits == without_sign(tail.drop_first()),
        decreases chars@.len() - i,
    {
        let c: char = chars[i];
        assert(c == digits[i - start]);
        if c < '0' || c > '9' {
            assert(!text::all_digits(digits));
            return None;
        }
        let ghost k = i - start;
        assert(digits.take(k + 1).drop_last() =~= digits.take(k));
        let next: u128 = value * 10 + (c as u32 - 48) as u128;
        value = if next > EXPONENT_CUT { EXPONENT_CUT } else { next };
        i = i + 1;
    }
    assert(digits.take(i - start) =~= digits);
    if minus {
        Some(-(value as i128))
    } else {
        Some(value as i128)
    }
}

proof fn lemma_digits_bound(text: Seq<char>)
    requires
        text::all_digits(text),
    ensures
        text::digits_value(text) < pow(10, text.len()),
    decreases text.len(),
{
    if text.len() == 0 {
        lemma_pow0(10);
    } else {
        lemma_digits_bound(text.drop_last());
        reveal(pow);
        assert(text::is_digit(text.last()));
    }
}

proof fn lemma_ten_to_the(n: nat)
    ensures
        pow(10, n) >= pow2(3 * n),
        pow(10, n) > 0,
    decreases n,
{
    lemma2_to64();
    if n == 0 {
        lemma_pow0(10);
    } else {
        lemma_ten_to_the((n - 1) as nat);
        reveal(pow);
        lemma_pow2_adds(3 * ((n - 1) as nat), 3);
        assert(3 * ((n - 1) as nat) + 3 == 3 * n);
    }
}

/// A positive number times ten to a large power is beyond every double.
proof fn lemma_huge(n: nat, p: nat)
    requires
        n >= 1,
        p >= 400,
    ensures
        rounding::rounded((n * pow(10, p) as nat) * pow2(UNIT_EXPONENT as nat), 1)
            == INFINITE_RANK,
{
    let one = pow2(UNIT_EXPONENT as nat);
    let num = (n * pow(10, p) as nat) * one;
    let top = INFINITE_RANK as nat;
    lemma_ten_to_the(p);
    lemma_pow2_strictly_increases(1100, 3 * p);
    lemma_pow2_adds(1100, UNIT_EXPONENT as nat);
    lemma_pow2_pos(UNIT_EXPONENT as nat);
    rounding::lemma_magnitude(2046, BINADE as nat);
    rounding::lemma_magnitude_step((top - 1) as nat);
    lemma2_to64();
    lemma2_to64_rest();
    lemma_pow2_adds(52, 2046);
    lemma_pow2_strictly_increases(2098, 2174);
    let t = pow(10, p) as nat;
    assert(num >= pow2(1100) * one) by (nonlinear_arith)
        requires
            num == (n * t) * one,
            n >= 1,
            t >= pow2(1100),
    ;
    let low = 1 * (rounding::magnitude((top - 1) as nat) + rounding::magnitude(top));
    assert(low < 2 * num);
    rounding::lemma_rounded_is(num, 1, top);
}

/// A number divided by ten to a much larger power than it has digits is nearest
/// to zero.
proof fn lemma_tiny(n: nat, len: nat, p: nat)
    requires
        n < pow(10, len),
        p >= len + 400,
    ensures
        rounding::rounded(n * pow2(UNIT_EXPONENT as nat), pow(10, p) as nat) == 0,
{
    let one = pow2(UNIT_EXPONENT as nat);
    let num = n * one;
    let den = pow(10, p) as nat;
    let a = pow(10, len) as nat;
    let rest = (p - len) as nat;
    let b = pow(10, rest) as nat;
    lemma_pow_adds(10, len, rest);
    lemma_ten_to_the(rest);
    lemma_ten_to_the(len);
    lemma_ten_to_the(p);
    lemma_pow2_strictly_increases(UNIT_EXPONENT as nat + 1, 3 * rest);
    lemma_pow2_unfold(UNIT_EXPONENT as nat + 1);
    lemma_pow2_pos(UNIT_EXPONENT as nat);
    assert(den == a * b) by (nonlinear_arith)
        requires
            den == pow(10, len) * pow(10, rest),
            a == pow(10, len),
            b == pow(10, rest),
    ;
    assert(2 * num < den * (rounding::magnitude(0) + rounding::magnitude(1))) by (nonlinear_arith)
        requires
            num == n * one,
            n < a,
            den == a * b,
            b > 2 * one,
            one > 0,
            rounding::magnitude(0) + rounding::magnitude(1) == 1,
    ;
    rounding::lemma_rounded_is(num, den, 0);
}

/// Whether a ratio is at least the magnitude of a rank.
fn reaches(num: &BigNat, den: &BigNat, rank: u64) -> (r: bool)
    requires
        rank <= INFINITE_RANK,
    ensures
        r == (den@ * rounding::magnitude(rank as nat) <= num@),
{
    let (m, e) = rounding::decode(rank);
    let mut x: BigNat = den.copy();
    x.scale(m, 0);
    x.double(e);
    proof {
        assert((den@ * m) * pow2(e as nat) == den@ * (m * pow2(e as nat))) by (nonlinear_arith);
    }
    !num.is_below(&x)
}

/// The rank of the double nearest to a ratio of any size.
fn round_ratio(num: &BigNat, den: &BigNat) -> (rank: u64)
    requires
        den@ > 0,
    ensures
        rank == rounding::rounded(num@, den@),
{
    if reaches(num, den, INFINITE_RANK) {
        proof {
            let top = INFINITE_RANK as nat;
            rounding::lemma_magnitude_step((top - 1) as nat);
            let a = rounding::magnitude((top - 1) as nat);
            let b = rounding::magnitude(top);
            assert(den@ * (a + b) < 2 * num@) by (nonlinear_arith)
                requires
                    den@ * b <= num@,
                    a < b,
                    den@ > 0,
            ;
            rounding::lemma_rounded_is(num@, den@, top);
        }
        return INFINITE_RANK;
    }
    let mut low: u64 = 0;
    let mut high: u64 = INFINITE_RANK;
    proof {
        assert(den@ * rounding::magnitude(0) == 0) by (nonlinear_arith)
            requires
                rounding::magnitude(0) == 0,
        ;
    }
    while low + 1 < high
        invariant
            low < high <= INFINITE_RANK,
            den@ * rounding::magnitude(low as nat) <= num@,
            num@ < den@ * rounding::magnitude(high as nat),
        decreases high - low,
    {
        let middle: u64 = low + (high - low) / 2;
        if reaches(num, den, middle) {
            low = middle;
        } else {
            high = middle;
        }
    }
    let (m, e) = rounding::decode(low);
    let mut twice: BigNat = num.copy();
    twice.scale(2, 0);
    let mut between: BigNat = den.copy();
    between.scale(2 * m + 1, 0);
    between.double(e);
    proof {
        let here = rounding::magnitude(low as nat);
        let above = rounding::magnitude((low + 1) as nat);
        lemma_next_magnitude(low as nat, m as nat, e as nat);
        assert((den@ * (2 * m + 1)) * pow2(e as nat) == den@ * (here + above)) by (nonlinear_arith)
            requires
                here == m * pow2(e as nat),
                above == (m + 1) * pow2(e as nat),
        ;
        rounding::lemma_magnitude_step((low + 1) as nat);
        assert(2 * num@ < den@ * (above + rounding::magnitude((low + 2) as nat)))
            by (nonlinear_arith)
            requires
                num@ < den@ * above,
                above < rounding::magnitude((low + 2) as nat),
                den@ > 0,
        ;
        if low > 0 {
            rounding::lemma_magnitude_step((low - 1) as nat);
            let below = rounding::magnitude((low - 1) as nat);
            assert(den@ * (below + here) < 2 * num@) by (nonlinear_arith)
                requires
                    den@ * here <= num@,
                    below < here,
                    den@ > 0,
            ;
        }
    }
    let down: bool = twice.is_below(&between);
    let up: bool = between.is_below(&twice);
    let rank: u64 = if down || (!up && low % 2 == 0) { low } else { low + 1 };
    proof {
        rounding::lemma_rounded_is(num@, den@, rank as nat);
    }
    rank
}

proof fn lemma_next_magnitude(rank: nat, m: nat, e: nat)
    requires
        rank < INFINITE_RANK,
        rounding::magnitude(rank) == m * pow2(e),
        m < 2 * BINADE,
        e == 0 || BINADE <= m,
    ensures
        rounding::magnitude(rank + 1) == (m + 1) * pow2(e),
{
    rounding::lemma_magnitude(e, m);
    let same = e * BINADE as nat + m;
    if same < rank {
        rounding::lemma_magnitude_increases(same, rank);
    }
    if rank < same {
        rounding::lemma_magnitude_increases(rank, same);
    }
    rounding::lemma_magnitude(e, m + 1);
    assert(e * BINADE as nat + (m + 1) == rank + 1);
}

/// The number that some digits stand for.
fn big_number(digits: &Vec<char>) -> (r: BigNat)
    requires
        text::all_digits(digits@),
    ensures
        r@ == text::digits_value(digits@),
{
    let mut n: BigNat = BigNat::new();
    let mut i: usize = 0;
    assert(digits@.take(0) =~= Seq::<char>::empty());
    while i < digits.len()
        invariant
            i <= digits@.len(),
            text::all_digits(digits@),
            n@ == text::digits_value(digits@.take(i as int)),
        decreases digits@.len() - i,
    {
        let c: char = digits[i];
        assert(text::is_digit(digits@[i as int]));
        assert(digits@.take(i + 1).drop_last() =~= digits@.take(i as int));
        n.scale(10, (c as u32 - 48) as u64);
        i = i + 1;
    }
    assert(digits@.take(i as int) =~= digits@);
    n
}

/// Multiplies by ten to the power `p`.
fn times_ten_to_the(n: &mut BigNat, p: u128)
    ensures
        final(n)@ == old(n)@ * pow(10, p as nat),
{
    let mut i: u128 = 0;
    proof {
        lemma_pow0(10);
        assert(n@ * 1 == n@);
    }
    while i < p
        invariant
            i <= p,
            n@ == old(n)@ * pow(10, i as nat),
        decreases p - i,
    {
        proof {
            reveal(pow);
            let v = old(n)@;
            let t = pow(10, i as nat);
            assert((v * t) * 10 == v * (10 * t)) by (nonlinear_arith);
        }
        n.scale(10, 0);
        i = i + 1;
    }
}

/// The digits as a machine number, if they fit in one.
fn small_number(digits: &Vec<char>) -> (r: Option<u64>)
    requires
        text::all_digits(digits@),
    ensures
        r == if text::digits_value(digits@) <= u64::MAX {
            Some(text::digits_value(digits@) as u64)
        } else {
            None
        },
{
    let mut n: u64 = 0;
    let mut i: usize = 0;
    assert(digits@.take(0) =~= Seq::<char>::empty());
    while i < digits.len()
        invariant
            i <= digits@.len(),
            text::all_digits(digits@),
            n == text::digits_value(digits@.take(i as int)),
        decreases digits@.len() - i,
    {
        let c: char = digits[i];
        assert(text::is_digit(digits@[i as int]));
        assert(digits@.take(i + 1).drop_last() =~= digits@.take(i as int));
        let d: u64 = (c as u32 - 48) as u64;
        proof {
            text::lemma_digits_value_grows(digits@, i + 1);
        }
        if n > (u64::MAX - d) / 10 {
            assert(n * 10 + d > u64::MAX);
            return None;
        }
        n = n * 10 + d;
        i = i + 1;
    }
    assert(digits@.take(i as int) =~= digits@);
    Some(n)
}

/// Ten to a power that fits in a machine number.
fn small_power(p: u32) -> (r: u64)
    requires
        p <= 19,
    ensures
        r == pow(10, p as nat),
        r > 0,
{
    let mut r: u64 = 1;
    let mut i: u32 = 0;
    proof {
        lemma_pow0(10);
    }
    while i < p
        invariant
            i <= p <= 19,
            r == pow(10, i as nat),
            r > 0,
            i == 0 ==> r == 1,
            i <= 18 ==> r <= 1_000_000_000_000_000_000,
        decreases p - i,
    {
        proof {
            lemma_small_powers(i as nat);
            lemma_small_powers((i + 1) as nat);
            reveal(pow);
        }
        r = r * 10;
        i = i + 1;
    }
    r
}

proof fn lemma_small_powers(i: nat)
    ensures
        i <= 18 ==> pow(10, i) <= 1_000_000_000_000_000_000,
{
    if i <= 18 {
        assert(pow(10, 18) == 1_000_000_000_000_000_000) by {
            reveal_with_fuel(pow, 20);
        }
        lemma_pow_increases(10, i, 18);
    }
}

proof fn lemma_zero_digits(p: int)
    ensures
        decimal_double(0, p) == Binary64::nothing(),
{
    reveal(Binary64::of_ratio);
    let one = pow2(UNIT_EXPONENT as nat);
    lemma_ten_to_the(if p < 0 { (-p) as nat } else { p as nat });
    let den = if p < 0 { pow(10, (-p) as nat) as nat } else { 1 };
    assert(0 * pow(10, p as nat) as nat == 0);
    assert(0 * one == 0) by (nonlinear_arith);
    assert(den * (rounding::magnitude(0) + rounding::magnitude(1)) > 0) by (nonlinear_arith)
        requires
            den > 0,
            rounding::magnitude(0) + rounding::magnitude(1) == 1,
    ;
    rounding::lemma_rounded_is(0, den, 0);
}

/// The double nearest to some digits times ten to the power `p`. A power beyond
/// the cut stands for one that is farther out.
fn double_of_digits(digits: &Vec<char>, p: i128, Ghost(exact): Ghost<int>) -> (r: Binary64)
    requires
        text::all_digits(digits@),
        p == exact || (p >= 1000 && exact >= 1000) || (p < -0x4_0000_0000_0000_0000 && exact
            < -0x4_0000_0000_0000_0000),
    ensures
        r == decimal_double(text::digits_value(digits@), exact),
{
    reveal(Binary64::of_ratio);
    let ghost n = text::digits_value(digits@);
    let ghost one = pow2(UNIT_EXPONENT as nat);
    let small: Option<u64> = small_number(digits);
    if let Some(v) = small {
        if v == 0 {
            proof {
                lemma_zero_digits(exact);
            }
            return Binary64 { bits: 0 };
        }
        if -19 <= p && p <= 0 {
            let d: u64 = small_power((-p) as u32);
            proof {
                lemma_pow0(10);
                assert(n * 1 == n);
            }
            return Binary64::ratio(v, d);
        }
    }
    let mut num: BigNat = big_number(digits);
    let zero: BigNat = BigNat::new();
    if !zero.is_below(&num) {
        proof {
            lemma_zero_digits(exact);
        }
        return Binary64 { bits: 0 };
    }
    let len: usize = digits.len();
    proof {
        lemma_digits_bound(digits@);
    }
    if p >= 400 {
        proof {
            lemma_huge(n, exact as nat);
        }
        return Binary64 { bits: INFINITE_RANK };
    }
    if p + (len as i128) <= -400 {
        proof {
            lemma_tiny(n, len as nat, (-exact) as nat);
        }
        return Binary64 { bits: 0 };
    }
    let mut den: BigNat = BigNat::new();
    den.scale(1, 1);
    proof {
        assert(den@ == 1);
        lemma_pow0(10);
        assert(n * 1 == n);
    }
    if p >= 0 {
        times_ten_to_the(&mut num, p as u128);
    } else {
        let q: u128 = (-p) as u128;
        times_ten_to_the(&mut den, q);
        proof {
            assert(1 * pow(10, q as nat) == pow(10, q as nat)) by (nonlinear_arith);
            assert(q == -p);
        }
    }
    num.double(UNIT_EXPONENT);
    proof {
        if p < 0 {
            lemma_ten_to_the((-p) as nat);
            assert(den@ == pow(10, (-p) as nat));
        } else {
            lemma_ten_to_the(p as nat);
        }
    }
    let rank: u64 = round_ratio(&num, &den);
    proof {
        rounding::lemma_rounded(num@, den@);
    }
    Binary64 { bits: rank }
}

/// Reads a number without sign that starts at `from`.
fn read_plain(chars: &Vec<char>, from: usize) -> (r: Option<Binary64>)
    requires
        from <= chars@.len(),
    ensures
        r == match plain_number(chars@.skip(from as int)) {
            Some((digits, p)) => Some(decimal_double(text::digits_value(digits), p)),
            None => None,
        },
{
    let ghost body = chars@.skip(from as int);
    let whole: usize = skip_digits(chars, from);
    let mut digits: Vec<char> = Vec::new();
    let mut i: usize = from;
    while i < whole
        invariant
            from <= i <= whole <= chars@.len(),
            digits@ == chars@.subrange(from as int, i as int),
        decreases whole - i,
    {
        digits.push(chars[i]);
        i = i + 1;
        assert(digits@ =~= chars@.subrange(from as int, i as int));
    }
    let mut end: usize = whole;
    let mut fraction: usize = 0;
    let pointed: bool = whole < chars.len() && chars[whole] == '.';
    assert(body.take(whole - from) =~= chars@.subrange(from as int, whole as int));
    if pointed {
        end = skip_digits(chars, whole + 1);
        fraction = end - (whole + 1);
        assert(body.skip(whole - from + 1) =~= chars@.skip(whole + 1));
        let mut j: usize = whole + 1;
        let ghost before = digits@;
        while j < end
            invariant
                whole + 1 <= j <= end <= chars@.len(),
                digits@ == before + chars@.subrange(whole + 1, j as int),
            decreases end - j,
        {
            digits.push(chars[j]);
            j = j + 1;
            assert(digits@ =~= before + chars@.subrange(whole + 1, j as int));
        }
        assert(body.subrange(whole - from + 1, end - from) =~= chars@.subrange(
            whole + 1,
            end as int,
        ));
    }
    let ghost parts = body.take(whole - from) + (if pointed {
        body.subrange(whole - from + 1, end - from)
    } else {
        Seq::empty()
    });
    assert(digits@ =~= parts);
    assert(body.skip(end - from) =~= chars@.skip(end as int));
    if digits.len() == 0 {
        return None;
    }
    proof {
        assert forall|k: int| 0 <= k < digits@.len() implies text::is_digit(
            #[trigger] digits@[k],
        ) by {
            if k < whole - from {
                assert(digits@[k] == chars@[from + k]);
            } else {
                assert(digits@[k] == chars@[k - (whole - from) + whole + 1]);
            }
        }
    }
    match read_exponent(chars, end) {
        Some(e) => {
            let ghost exact = exponent_part(body.skip(end - from))->Some_0 - fraction;
            Some(double_of_digits(&digits, e - fraction as i128, Ghost(exact)))
        },
        None => None,
    }
}

impl Binary64 {
    /// Reads a double: an optional sign and a decimal number with an optional
    /// exponent, `inf`, `infinity` or `nan`.
    pub fn parse(text: &str) -> (r: Option<Binary64>)
        ensures
            r == read_double(text@),
    {
        let chars: Vec<char> = chars_of(text);
        let minus: bool = chars.len() > 0 && chars[0] == '-';
        let from: usize = if minus || (chars.len() > 0 && chars[0] == '+') { 1 } else { 0 };
        let ghost body = without_sign(text@);
        assert(body =~= chars@.skip(from as int));
        let x: Option<Binary64> = if reads_word(&chars, from, &chars_of("inf")) || reads_word(
            &chars,
            from,
            &chars_of("infinity"),
        ) {
            Some(Binary64 { bits: INFINITE_RANK })
        } else if reads_word(&chars, from, &chars_of("nan")) {
            Some(Binary64 { bits: NAN_BITS })
        } else {
            read_plain(&chars, from)
        };
        match x {
            Some(v) => Some(if minus { v.negate() } else { v }),
            None => None,
        }
    }
}

/// Whether a text starts with a digit or a point.
spec fn starts_plain(text: Seq<char>) -> bool {
    text.len() > 0 && (text::is_digit(text[0]) || text[0] == '.')
}

proof fn lemma_no_word(text: Seq<char>)
    requires
        starts_plain(text),
    ensures
        !same_letters(text, "inf"@),
        !same_letters(text, "infinity"@),
        !same_letters(text, "nan"@),
        without_sign(text) == text,
        !has_minus(text),
{
    reveal_strlit("inf");
    reveal_strlit("infinity");
    reveal_strlit("nan");
    assert(text::ascii_lower(text[0]) == text[0]);
}

/// A decimal fraction is read as the double nearest to its value: its digits
/// without the point, over ten to the power of how many stand behind the point.
pub proof fn lemma_reads_fraction(a: Seq<char>, b: Seq<char>)
    requires
        text::all_digits(a),
        text::all_digits(b),
        a.len() + b.len() > 0,
    ensures
        read_double(a + seq!['.'] + b) == Some(
            Binary64::of_ratio(text::digits_value(a + b), pow(10, b.len()) as nat),
        ),
{
    let whole = a + seq!['.'] + b;
    if a.len() > 0 {
        assert(text::is_digit(a[0]));
        assert(whole[0] == a[0]);
    }
    lemma_no_word(whole);
    assert forall|i: int| 0 <= i < a.len() implies text::is_digit(#[trigger] whole[i]) by {
        assert(whole[i] == a[i]);
    }
    assert(whole[a.len() as int] == '.');
    lemma_digit_run(whole, a.len());
    assert(whole.skip(a.len() as int + 1) =~= b);
    lemma_digit_run(b, b.len());
    let end = a.len() + 1 + b.len();
    assert(whole.take(a.len() as int) =~= a);
    assert(whole.subrange(a.len() as int + 1, end as int) =~= b);
    assert(whole.skip(end as int).len() == 0);
    lemma_ten_to_the(b.len());
    lemma_pow0(10);
    let v = text::digits_value(a + b);
    assert(plain_number(whole) == Some((a + b, -(b.len() as int))));
    if b.len() == 0 {
        assert(v * (pow(10, 0) as nat) == v) by (nonlinear_arith)
            requires
                pow(10, 0) == 1,
        ;
    }
}

/// A whole number is read as the double nearest to it.
pub proof fn lemma_reads_whole(a: Seq<char>)
    requires
        text::all_digits(a),
        a.len() > 0,
    ensures
        read_double(a) == Some(Binary64::of_nat(text::digits_value(a))),
{
    assert(text::is_digit(a[0]));
    lemma_no_word(a);
    lemma_digit_run(a, a.len());
    assert(a.take(a.len() as int) =~= a);
    assert(a + Seq::<char>::empty() =~= a);
    assert(a.skip(a.len() as int).len() == 0);
    lemma_pow0(10);
    let v = text::digits_value(a);
    assert(plain_number(a) == Some((a, 0int)));
    assert(v * (pow(10, 0) as nat) == v) by (nonlinear_arith)
        requires
            pow(10, 0) == 1,
    ;
}

/// A count that is written out is read back as itself.
pub proof fn lemma_reads_count(n: nat)
    ensures
        read_double(text::decimal(n)) == Some(Binary64::of_nat(n)),
{
    text::lemma_decimal_value(n);
    lemma_reads_whole(text::decimal(n));
}

/// An exponent moves the point: `e` and a number of tens multiply, `e-` and a
/// number of tens divide.
pub proof fn lemma_reads_exponent(a: Seq<char>, tens: Seq<char>)
    requires
        text::all_digits(a),
        a.len() > 0,
        text::all_digits(tens),
        tens.len() > 0,
    ensures
        read_double(a + seq!['e'] + tens) == Some(
            Binary64::of_nat(
                text::digits_value(a) * pow(10, text::digits_value(tens)) as nat,
            ),
        ),
        text::digits_value(tens) > 0 ==> read_double(a + seq!['e', '-'] + tens) == Some(
            Binary64::of_ratio(
                text::digits_value(a),
                pow(10, text::digits_value(tens)) as nat,
            ),
        ),
{
    lemma_exponent_splits(a, seq!['e'] + tens);
    lemma_exponent_splits(a, seq!['e', '-'] + tens);
    let up = seq!['e'] + tens;
    let down = seq!['e', '-'] + tens;
    assert(up.drop_first() =~= tens);
    assert(text::is_digit(tens[0]));
    assert(down.drop_first() =~= seq!['-'] + tens);
    assert(down.drop_first().drop_first() =~= tens);
    assert(a + seq!['e'] + tens =~= a + up);
    assert(a + seq!['e', '-'] + tens =~= a + down);
}

proof fn lemma_exponent_splits(a: Seq<char>, tail: Seq<char>)
    requires
        text::all_digits(a),
        a.len() > 0,
        tail.len() > 0,
        tail[0] == 'e',
    ensures
        read_double(a + tail) == match exponent_part(tail) {
            Some(e) => Some(decimal_double(text::digits_value(a), e)),
            None => None,
        },
{
    let whole = a + tail;
    assert(text::is_digit(a[0]));
    assert(whole[0] == a[0]);
    lemma_no_word(whole);
    assert forall|i: int| 0 <= i < a.len() implies text::is_digit(#[trigger] whole[i]) by {
        assert(whole[i] == a[i]);
    }
    assert(whole[a.len() as int] == 'e');
    lemma_digit_run(whole, a.len());
    assert(whole.take(a.len() as int) =~= a);
    assert(a + Seq::<char>::empty() =~= a);
    assert(whole.skip(a.len() as int) =~= tail);
}

/// A minus sign in front turns the sign of what is read, and a plus sign changes
/// nothing.
pub proof fn lemma_reads_sign(text: Seq<char>)
    requires
        text.len() == 0 || !is_sign(text[0]),
    ensures
        read_double(seq!['+'] + text) == read_double(text),
        read_double(seq!['-'] + text) == match read_double(text) {
            Some(x) => Some(x.negated()),
            None => None,
        },
{
    assert((seq!['+'] + text).drop_first() =~= text);
    assert((seq!['-'] + text).drop_first() =~= text);
}

/// Nothing is read from an empty text, nor from one that starts with anything but
/// a sign, a digit, a point or the letter of a word.
pub proof fn lemma_reads_nothing(text: Seq<char>)
    ensures
        text.len() == 0 ==> read_double(text) is None,
        text.len() > 0 && !is_sign(text[0]) && !text::is_digit(text[0]) && text[0] != '.'
            && text::ascii_lower(text[0]) != 'i' && text::ascii_lower(text[0]) != 'n'
            ==> read_double(text) is None,
{
    reveal_strlit("inf");
    reveal_strlit("infinity");
    reveal_strlit("nan");
    if text.len() > 0 && !text::is_digit(text[0]) {
        lemma_digit_run(text, 0);
    }
    if text.len() == 0 {
        assert(digit_run(text) == 0);
    }
}

/// The words for what is no number of digits.
pub proof fn lemma_reads_words()
    ensures
        read_double("inf"@) is Some && read_double("inf"@)->0.infinite(),
        read_double("infinity"@) == read_double("inf"@),
        read_double("nan"@) is Some && read_double("nan"@)->0.undefined(),
{
    reveal_strlit("inf");
    reveal_strlit("infinity");
    reveal_strlit("nan");
    assert(same_letters("inf"@, "inf"@));
    assert(same_letters("infinity"@, "infinity"@));
    assert(same_letters("nan"@, "nan"@));
    assert(!same_letters("nan"@, "inf"@)) by {
        assert(text::ascii_lower("nan"@[0]) != "inf"@[0]);
    }
}

} // verus!
