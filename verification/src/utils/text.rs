//! Text, read as sequences of characters.

use vstd::prelude::*;
use vstd::string::*;

verus! {

/// The lowercase form of a text, by the Unicode property.
pub uninterp spec fn lowercase(text: Seq<char>) -> Seq<char>;

/// The uppercase form of a text, by the Unicode property.
pub uninterp spec fn uppercase(text: Seq<char>) -> Seq<char>;

pub open spec fn ascii(text: Seq<char>) -> bool {
    forall|i: int| 0 <= i < text.len() ==> (#[trigger] text[i]) as u32 <= 127
}

pub open spec fn ascii_lower(c: char) -> char {
    if 'A' <= c <= 'Z' {
        (c as u32 + 32) as char
    } else {
        c
    }
}

pub open spec fn ascii_upper(c: char) -> char {
    if 'a' <= c <= 'z' {
        (c as u32 - 32) as char
    } else {
        c
    }
}

/// `str::to_lowercase`: the Unicode lowercase form, which depends on the text
/// alone. In ASCII text it maps each capital letter to its small one and keeps
/// every other character.
pub assume_specification[ str::to_lowercase ](s: &str) -> (r: String)
    ensures
        r@ == lowercase(s@),
        ascii(s@) ==> r@ == s@.map_values(|c: char| ascii_lower(c)),
;

/// `str::to_uppercase`: the Unicode uppercase form, which depends on the text
/// alone. In ASCII text it maps each small letter to its capital one and keeps
/// every other character.
pub assume_specification[ str::to_uppercase ](s: &str) -> (r: String)
    ensures
        r@ == uppercase(s@),
        ascii(s@) ==> r@ == s@.map_values(|c: char| ascii_upper(c)),
;

/// `String::push`: appends one character.
pub assume_specification[ String::push ](s: &mut String, c: char)
    ensures
        final(s)@ == old(s)@.push(c),
;

/// The texts of a list.
pub open spec fn texts(list: Seq<String>) -> Seq<Seq<char>> {
    Seq::new(list.len(), |i: int| list[i]@)
}

/// The characters of a text.
pub fn chars_of(s: &str) -> (r: Vec<char>)
    ensures
        r@ == s@,
{
    let mut out: Vec<char> = Vec::new();
    for c in it: s.chars()
        invariant
            out@ == s@.take(it.index()),
            it.seq() == s@,
    {
        out.push(c);
        assert(out@ =~= s@.take(it.index() + 1));
    }
    assert(out@ =~= s@);
    out
}

/// The text of some characters, from `from` up to `to`.
pub fn text_of(chars: &Vec<char>, from: usize, to: usize) -> (r: String)
    requires
        from <= to <= chars@.len(),
    ensures
        r@ == chars@.subrange(from as int, to as int),
{
    let mut out: String = String::new();
    let mut i: usize = from;
    while i < to
        invariant
            from <= i <= to <= chars@.len(),
            out@ == chars@.subrange(from as int, i as int),
        decreases to - i,
    {
        out.push(chars[i]);
        i = i + 1;
        assert(out@ =~= chars@.subrange(from as int, i as int));
    }
    out
}

/// Whether two texts are the same.
pub fn same_text(a: &str, b: &str) -> (r: bool)
    ensures
        r == (a@ == b@),
{
    a.to_owned() == b.to_owned()
}

/// Whether `part` stands at position `i` of `text`.
pub open spec fn stands_at(text: Seq<char>, part: Seq<char>, i: int) -> bool {
    0 <= i && i + part.len() <= text.len() && text.subrange(i, i + part.len()) == part
}

/// Whether `part` occurs in `text`.
pub open spec fn occurs_in(text: Seq<char>, part: Seq<char>) -> bool {
    exists|i: int| stands_at(text, part, i)
}

fn starts_here(text: &Vec<char>, part: &Vec<char>, i: usize) -> (r: bool)
    requires
        i + part@.len() <= text@.len(),
    ensures
        r == stands_at(text@, part@, i as int),
{
    let end: usize = text.len();
    let mut j: usize = 0;
    while j < part.len()
        invariant
            end == text@.len(),
            i + part@.len() <= end,
            j <= part@.len(),
            forall|k: int| 0 <= k < j ==> text@[i + k] == part@[k],
        decreases part@.len() - j,
    {
        if text[i + j] != part[j] {
            assert(text@.subrange(i as int, i + part@.len())[j as int] != part@[j as int]);
            return false;
        }
        j = j + 1;
    }
    assert(text@.subrange(i as int, i + part@.len()) =~= part@);
    true
}

/// Whether `part` occurs in `text`.
pub fn contains_text(text: &str, part: &str) -> (r: bool)
    ensures
        r == occurs_in(text@, part@),
{
    let t: Vec<char> = chars_of(text);
    let p: Vec<char> = chars_of(part);
    if p.len() > t.len() {
        return false;
    }
    let last: usize = t.len() - p.len();
    let mut i: usize = 0;
    while i <= last
        invariant
            t@ == text@,
            p@ == part@,
            last + p@.len() == t@.len(),
            i <= last + 1,
            forall|k: int| 0 <= k < i ==> !stands_at(t@, p@, k),
        decreases last + 1 - i,
    {
        if starts_here(&t, &p, i) {
            return true;
        }
        if i == last {
            return false;
        }
        i = i + 1;
    }
    false
}

pub open spec fn is_digit(c: char) -> bool {
    '0' <= c <= '9'
}

pub open spec fn digit_value(c: char) -> nat {
    (c as u32 - '0' as u32) as nat
}

pub open spec fn all_digits(text: Seq<char>) -> bool {
    forall|i: int| 0 <= i < text.len() ==> is_digit(#[trigger] text[i])
}

/// The number that decimal digits stand for.
pub open spec fn digits_value(text: Seq<char>) -> nat
    decreases text.len(),
{
    if text.len() == 0 {
        0
    } else {
        digits_value(text.drop_last()) * 10 + digit_value(text.last())
    }
}

/// The decimal digits of a number, without leading zeros.
pub open spec fn decimal(n: nat) -> Seq<char>
    decreases n,
{
    if n < 10 {
        seq![(n + '0' as u32) as char]
    } else {
        decimal(n / 10).push((n % 10 + '0' as u32) as char)
    }
}

fn digit_char(d: u64) -> (r: char)
    requires
        d < 10,
    ensures
        r == (d + '0' as u32) as char,
{
    (d as u8 + 48u8) as char
}

/// The decimal digits of a number.
pub fn decimal_text(n: u64) -> (r: String)
    ensures
        r@ == decimal(n as nat),
    decreases n,
{
    if n < 10 {
        let mut out: String = String::new();
        out.push(digit_char(n));
        assert(out@ =~= decimal(n as nat));
        out
    } else {
        let mut out: String = decimal_text(n / 10);
        out.push(digit_char(n % 10));
        out
    }
}

/// Reading back the decimal digits of a number gives the number.
pub proof fn lemma_decimal_value(n: nat)
    ensures
        all_digits(decimal(n)),
        decimal(n).len() > 0,
        digits_value(decimal(n)) == n,
    decreases n,
{
    if n < 10 {
        let t = decimal(n);
        assert(t.drop_last() =~= Seq::<char>::empty());
        assert(digits_value(t.drop_last()) == 0);
    } else {
        lemma_decimal_value(n / 10);
        assert(decimal(n).drop_last() =~= decimal(n / 10));
    }
}

/// White space, by the Unicode property.
pub open spec fn is_space(c: char) -> bool {
    ||| 9 <= c as u32 <= 13
    ||| c as u32 == 0x20
    ||| c as u32 == 0x85
    ||| c as u32 == 0xA0
    ||| c as u32 == 0x1680
    ||| 0x2000 <= c as u32 <= 0x200A
    ||| c as u32 == 0x2028
    ||| c as u32 == 0x2029
    ||| c as u32 == 0x202F
    ||| c as u32 == 0x205F
    ||| c as u32 == 0x3000
}

fn space(c: char) -> (r: bool)
    ensures
        r == is_space(c),
{
    let u: u32 = c as u32;
    (9 <= u && u <= 13) || u == 0x20 || u == 0x85 || u == 0xA0 || u == 0x1680 || (0x2000 <= u && u
        <= 0x200A) || u == 0x2028 || u == 0x2029 || u == 0x202F || u == 0x205F || u == 0x3000
}

/// A text without the white space at its ends.
pub open spec fn trimmed(text: Seq<char>) -> Seq<char>
    decreases text.len(),
{
    if text.len() == 0 {
        text
    } else if is_space(text[0]) {
        trimmed(text.drop_first())
    } else if is_space(text.last()) {
        trimmed(text.drop_last())
    } else {
        text
    }
}

/// The characters from `from` up to `to`, without the white space at their ends.
pub fn trim_range(chars: &Vec<char>, from: usize, to: usize) -> (r: String)
    requires
        from <= to <= chars@.len(),
    ensures
        r@ == trimmed(chars@.subrange(from as int, to as int)),
{
    let ghost whole = chars@.subrange(from as int, to as int);
    let mut a: usize = from;
    let mut b: usize = to;
    while a < b && space(chars[a])
        invariant
            from <= a <= b <= to <= chars@.len(),
            trimmed(chars@.subrange(a as int, b as int)) == trimmed(whole),
        decreases b - a,
    {
        assert(chars@.subrange(a as int, b as int).drop_first() =~= chars@.subrange(
            a + 1,
            b as int,
        ));
        a = a + 1;
    }
    while a < b && space(chars[b - 1])
        invariant
            from <= a <= b <= to <= chars@.len(),
            a < b ==> !is_space(chars@[a as int]),
            trimmed(chars@.subrange(a as int, b as int)) == trimmed(whole),
        decreases b - a,
    {
        assert(chars@.subrange(a as int, b as int).drop_last() =~= chars@.subrange(
            a as int,
            b - 1,
        ));
        b = b - 1;
    }
    text_of(chars, a, b)
}

/// The parts of a text between the separators.
pub open spec fn split_text(text: Seq<char>, sep: char) -> Seq<Seq<char>>
    decreases text.len(),
{
    if text.len() == 0 {
        seq![text]
    } else {
        let before = split_text(text.drop_last(), sep);
        if text.last() == sep {
            before.push(Seq::empty())
        } else {
            before.update(before.len() - 1, before.last().push(text.last()))
        }
    }
}

/// What a whole number is written as: digits, after at most one plus sign, that
/// fit in 64 bits.
pub open spec fn whole_number(text: Seq<char>) -> Option<u64> {
    let digits = if text.len() > 0 && text[0] == '+' { text.drop_first() } else { text };
    if digits.len() > 0 && all_digits(digits) && digits_value(digits) <= u64::MAX {
        Some(digits_value(digits) as u64)
    } else {
        None
    }
}

/// More digits do not make the number less.
pub proof fn lemma_digits_value_grows(text: Seq<char>, i: int)
    requires
        0 <= i <= text.len(),
    ensures
        digits_value(text.take(i)) <= digits_value(text),
    decreases text.len() - i,
{
    if i == text.len() {
        assert(text.take(i) =~= text);
    } else {
        lemma_digits_value_grows(text, i + 1);
        assert(text.take(i + 1).drop_last() =~= text.take(i));
    }
}

/// Reads a whole number.
pub fn read_whole_number(text: &str) -> (r: Option<u64>)
    ensures
        r == whole_number(text@),
{
    let chars: Vec<char> = chars_of(text);
    let start: usize = if chars.len() > 0 && chars[0] == '+' { 1 } else { 0 };
    let ghost digits = text@.skip(start as int);
    proof {
        if start == 0 {
            assert(digits =~= text@);
        } else {
            assert(digits =~= text@.drop_first());
        }
    }
    if chars.len() == start {
        return None;
    }
    let mut value: u64 = 0;
    let mut i: usize = start;
    proof {
        assert(digits.take(0) =~= Seq::<char>::empty());
    }
    while i < chars.len()
        invariant
            chars@ == text@,
            start <= i <= chars@.len(),
            digits == text@.skip(start as int),
            value == digits_value(digits.take(i - start)),
            forall|k: int| 0 <= k < i - start ==> is_digit(#[trigger] digits[k]),
            digits.len() > 0,
            digits == if text@.len() > 0 && text@[0] == '+' { text@.drop_first() } else { text@ },
        decreases chars@.len() - i,
    {
        let c: char = chars[i];
        assert(c == digits[i - start]);
        if c < '0' || c > '9' {
            assert(!all_digits(digits));
            return None;
        }
        let d: u64 = (c as u32 - 48) as u64;
        let ghost k = i - start;
        proof {
            assert(digits.take(k + 1).drop_last() =~= digits.take(k));
            lemma_digits_value_grows(digits, k + 1);
        }
        if value > (u64::MAX - d) / 10 {
            assert(value * 10 + d > u64::MAX);
            return None;
        }
        value = value * 10 + d;
        i = i + 1;
    }
    assert(digits.take(i - start) =~= digits);
    Some(value)
}

/// A text is trimmed at both ends and nowhere else: what is left is a stretch of
/// the text that neither starts nor ends with white space, and all that is left
/// out before and after it is white space.
pub proof fn lemma_trimmed(text: Seq<char>) -> (r: (int, int))
    ensures
        0 <= r.0 <= r.1 <= text.len(),
        trimmed(text) == text.subrange(r.0, r.1),
        r.0 < r.1 ==> !is_space(text[r.0]) && !is_space(text[r.1 - 1]),
        forall|i: int| 0 <= i < r.0 ==> is_space(#[trigger] text[i]),
        forall|i: int| r.1 <= i < text.len() ==> is_space(#[trigger] text[i]),
    decreases text.len(),
{
    if text.len() == 0 {
        assert(text.subrange(0, 0) =~= text);
        (0, 0)
    } else if is_space(text[0]) {
        let rest = text.drop_first();
        let (a, b) = lemma_trimmed(rest);
        assert(rest.subrange(a, b) =~= text.subrange(a + 1, b + 1));
        assert forall|i: int| 0 <= i < a + 1 implies is_space(#[trigger] text[i]) by {
            if i > 0 {
                assert(is_space(rest[i - 1]));
            }
        }
        assert forall|i: int| b + 1 <= i < text.len() implies is_space(#[trigger] text[i]) by {
            assert(is_space(rest[i - 1]));
        }
        (a + 1, b + 1)
    } else if is_space(text.last()) {
        let rest = text.drop_last();
        let (a, b) = lemma_trimmed(rest);
        assert(rest.subrange(a, b) =~= text.subrange(a, b));
        assert forall|i: int| 0 <= i < a implies is_space(#[trigger] text[i]) by {
            assert(is_space(rest[i]));
        }
        assert forall|i: int| b <= i < text.len() implies is_space(#[trigger] text[i]) by {
            if i < rest.len() {
                assert(is_space(rest[i]));
            }
        }
        (a, b)
    } else {
        assert(text.subrange(0, text.len() as int) =~= text);
        (0, text.len() as int)
    }
}

/// What white space is among the characters of ASCII: the blank and the five
/// controls from the tabulator to the carriage return.
pub proof fn lemma_ascii_space(c: char)
    requires
        c as u32 <= 127,
    ensures
        is_space(c) <==> c == ' ' || c == '\t' || c == '\n' || c as u32 == 11 || c as u32 == 12 || c
            == '\r',
{
}

/// A text without separators is one part, and a separator ends a part: the parts
/// of two texts with a separator between them are those of the first and those
/// of the second.
pub proof fn lemma_split(a: Seq<char>, b: Seq<char>, sep: char)
    ensures
        split_text(a + seq![sep] + b, sep) == split_text(a, sep) + split_text(b, sep),
        (forall|i: int| 0 <= i < a.len() ==> #[trigger] a[i] != sep) ==> split_text(a, sep)
            == seq![a],
        split_text(a, sep).len() > 0,
    decreases a.len() + b.len(),
{
    lemma_split_whole(a, sep);
    let joined = a + seq![sep] + b;
    if b.len() == 0 {
        assert(joined.drop_last() =~= a);
        assert(joined.last() == sep);
        assert(split_text(b, sep) =~= seq![Seq::<char>::empty()]) by {
            assert(b =~= Seq::<char>::empty());
        }
        assert(split_text(joined, sep) =~= split_text(a, sep) + split_text(b, sep));
    } else {
        let rest = b.drop_last();
        lemma_split(a, rest, sep);
        lemma_split_whole(rest, sep);
        assert(joined.drop_last() =~= a + seq![sep] + rest);
        assert(joined.last() == b.last());
        assert(split_text(joined, sep) =~= split_text(a, sep) + split_text(b, sep));
    }
}

proof fn lemma_split_whole(text: Seq<char>, sep: char)
    ensures
        split_text(text, sep).len() > 0,
        (forall|i: int| 0 <= i < text.len() ==> #[trigger] text[i] != sep) ==> split_text(text, sep)
            == seq![text],
    decreases text.len(),
{
    if text.len() > 0 {
        let rest = text.drop_last();
        lemma_split_whole(rest, sep);
        if forall|i: int| 0 <= i < text.len() ==> #[trigger] text[i] != sep {
            assert forall|i: int| 0 <= i < rest.len() implies #[trigger] rest[i] != sep by {
                assert(text[i] != sep);
            }
            assert(text[text.len() - 1] != sep);
            assert(rest.push(text.last()) =~= text);
            assert(split_text(text, sep) =~= seq![text]);
        }
    }
}

/// Digits stand for their place value: a digit in front counts ten times as much
/// for each digit behind it.
pub proof fn lemma_digits_place(digit: char, text: Seq<char>)
    requires
        is_digit(digit),
    ensures
        digits_value(seq![digit] + text) == digit_value(digit) * vstd::arithmetic::power::pow(
            10,
            text.len(),
        ) + digits_value(text),
        digit_value('0') == 0,
        digit_value('1') == 1,
        digit_value('9') == 9,
    decreases text.len(),
{
    let whole = seq![digit] + text;
    let d = digit_value(digit) as int;
    if text.len() == 0 {
        assert(whole.drop_last() =~= Seq::<char>::empty());
        assert(digits_value(whole.drop_last()) == 0);
        vstd::arithmetic::power::lemma_pow0(10);
    } else {
        let rest = text.drop_last();
        lemma_digits_place(digit, rest);
        assert(whole.drop_last() =~= seq![digit] + rest);
        reveal(vstd::arithmetic::power::pow);
        let p = vstd::arithmetic::power::pow(10, rest.len());
        assert(vstd::arithmetic::power::pow(10, text.len()) == 10 * p);
        assert((d * p) * 10 == d * (10 * p)) by (nonlinear_arith);
    }
}

/// A whole number is read back from its digits, with or without a plus sign, and
/// no other text with a sign, a blank or a point is one.
pub proof fn lemma_whole_number(n: u64, text: Seq<char>, i: int)
    ensures
        whole_number(decimal(n as nat)) == Some(n),
        whole_number(seq!['+'] + decimal(n as nat)) == Some(n),
        text.len() == 0 ==> whole_number(text) is None,
        0 < i < text.len() && !is_digit(text[i]) ==> whole_number(text) is None,
        text.len() > 0 && text[0] != '+' && !is_digit(text[0]) ==> whole_number(text) is None,
{
    lemma_decimal_value(n as nat);
    let t = decimal(n as nat);
    assert(is_digit(t[0]));
    assert((seq!['+'] + t).drop_first() =~= t);
    if 0 < i < text.len() && !is_digit(text[i]) {
        if text[0] == '+' {
            assert(text.drop_first()[i - 1] == text[i]);
        }
    }
}

/// A text occurs in every text that holds it between two others, and not in a
/// shorter one.
pub proof fn lemma_occurs(before: Seq<char>, part: Seq<char>, after: Seq<char>, text: Seq<char>)
    ensures
        occurs_in(before + part + after, part),
        text.len() < part.len() ==> !occurs_in(text, part),
        occurs_in(text, part) ==> exists|i: int|
            0 <= i <= text.len() - part.len() && #[trigger] text.subrange(i, i + part.len()) == part,
{
    let whole = before + part + after;
    let i = before.len() as int;
    assert(whole.subrange(i, i + part.len()) =~= part);
    assert(stands_at(whole, part, i));
    if occurs_in(text, part) {
        let k = choose|k: int| stands_at(text, part, k);
        assert(text.subrange(k, k + part.len()) == part);
    }
}

} // verus!
