//! Rounding of exact ratios to the nearest double-precision magnitude.
//!
//! A magnitude is named by its *rank*: the bit pattern of the double without
//! the sign bit. Ranks order the magnitudes, the rank after the largest finite
//! one stands for infinity, and even ranks are the ones with an even last
//! fraction bit. All values are counted in units of two to the power -1074,
//! the smallest positive double, so that every finite magnitude is a natural
//! number of units.

use vstd::arithmetic::mul::*;
use vstd::arithmetic::power2::*;
use vstd::prelude::*;

verus! {

/// Two to the power 52: the number of ranks that share one exponent.
pub const BINADE: u64 = 0x10_0000_0000_0000;

/// The rank of infinity.
pub const INFINITE_RANK: u64 = 0x7FF0_0000_0000_0000;

/// How many units make the number one, as a power of two.
pub const UNIT_EXPONENT: u32 = 1074;

/// The magnitude that a rank stands for, in units. At the rank of infinity it
/// is the first power of two that no double reaches.
pub open spec fn magnitude(rank: nat) -> nat {
    if rank < BINADE {
        rank
    } else {
        ((BINADE + rank % (BINADE as nat)) * pow2((rank / (BINADE as nat) - 1) as nat)) as nat
    }
}

/// Whether `rank` is the double nearest to `num / den` units, where of two
/// equally near ones the one of even rank is taken.
pub open spec fn nearest(num: nat, den: nat, rank: nat) -> bool {
    &&& rank <= INFINITE_RANK
    &&& rank > 0 ==> {
        let low = den * (magnitude((rank - 1) as nat) + magnitude(rank));
        low < 2 * num || (low == 2 * num && rank % 2 == 0)
    }
    &&& rank < INFINITE_RANK ==> {
        let high = den * (magnitude(rank) + magnitude(rank + 1));
        2 * num < high || (2 * num == high && rank % 2 == 0)
    }
}

/// The rank of the double nearest to `num / den` units.
#[verifier::opaque]
pub open spec fn rounded(num: nat, den: nat) -> nat {
    choose|rank: nat| nearest(num, den, rank)
}

pub proof fn lemma_magnitude(t: nat, q: nat)
    requires
        (t == 0 && q <= 2 * BINADE) || BINADE <= q <= 2 * BINADE,
    ensures
        magnitude(t * BINADE as nat + q) == q * pow2(t),
{
    let rank = t * BINADE as nat + q;
    lemma2_to64();
    lemma_pow2_unfold(t + 1);
    if q < BINADE {
    } else if q < 2 * BINADE {
        assert(rank / (BINADE as nat) == t + 1 && rank % (BINADE as nat) == q - BINADE)
            by (nonlinear_arith)
            requires
                rank == t * BINADE as nat + q,
                BINADE <= q < 2 * BINADE,
                BINADE == 0x10_0000_0000_0000u64,
        ;
    } else {
        assert(rank / (BINADE as nat) == t + 2 && rank % (BINADE as nat) == 0)
            by (nonlinear_arith)
            requires
                rank == t * BINADE as nat + 2 * BINADE,
                BINADE == 0x10_0000_0000_0000u64,
        ;
        assert(BINADE * pow2(t + 1) == q * pow2(t)) by (nonlinear_arith)
            requires
                pow2(t + 1) == 2 * pow2(t),
                q == 2 * BINADE,
        ;
    }
}

/// Splits a rank into the exponent and the significand that its magnitude has.
pub proof fn lemma_rank_split(rank: nat) -> (r: (nat, nat))
    ensures
        rank == r.0 * BINADE as nat + r.1,
        magnitude(rank) == r.1 * pow2(r.0),
        r.0 == 0 || BINADE <= r.1,
        r.1 < 2 * BINADE,
        rank < INFINITE_RANK ==> r.0 <= 2045,
{
    lemma2_to64();
    if rank < BINADE {
        (0, rank)
    } else {
        let t = (rank / (BINADE as nat) - 1) as nat;
        let q = BINADE as nat + rank % (BINADE as nat);
        assert(rank == t * BINADE as nat + q) by (nonlinear_arith)
            requires
                t == rank / (BINADE as nat) - 1,
                q == BINADE as nat + rank % (BINADE as nat),
                BINADE > 0,
        ;
        (t, q)
    }
}

pub proof fn lemma_magnitude_step(rank: nat)
    ensures
        magnitude(rank) < magnitude(rank + 1),
{
    let (t, q) = lemma_rank_split(rank);
    lemma_magnitude(t, q + 1);
    assert(t * BINADE as nat + (q + 1) == rank + 1);
    lemma_pow2_pos(t);
    assert(q * pow2(t) < (q + 1) * pow2(t)) by (nonlinear_arith)
        requires
            pow2(t) > 0,
    ;
}

/// A larger rank stands for a larger magnitude.
pub proof fn lemma_magnitude_increases(a: nat, b: nat)
    requires
        a < b,
    ensures
        magnitude(a) < magnitude(b),
    decreases b - a,
{
    lemma_magnitude_step((b - 1) as nat);
    if a + 1 < b {
        lemma_magnitude_increases(a, (b - 1) as nat);
    }
}

proof fn lemma_nearest_at_most(num: nat, den: nat, a: nat, b: nat)
    requires
        den > 0,
        nearest(num, den, a),
        nearest(num, den, b),
    ensures
        b <= a,
{
    if a + 1 < b {
        let high = magnitude(a) + magnitude(a + 1);
        let low = magnitude((b - 1) as nat) + magnitude(b);
        lemma_magnitude_increases(a, (b - 1) as nat);
        lemma_magnitude_increases(a + 1, b);
        assert(den * high < den * low) by (nonlinear_arith)
            requires
                high < low,
                den > 0,
        ;
    }
}

/// At most one rank is nearest to a ratio.
pub proof fn lemma_nearest_unique(num: nat, den: nat, a: nat, b: nat)
    requires
        den > 0,
        nearest(num, den, a),
        nearest(num, den, b),
    ensures
        a == b,
{
    lemma_nearest_at_most(num, den, a, b);
    lemma_nearest_at_most(num, den, b, a);
}

proof fn lemma_floor_rank(num: nat, den: nat, top: nat) -> (rank: nat)
    requires
        den > 0,
    ensures
        rank <= top,
        den * magnitude(rank) <= num,
        rank == top || num < den * magnitude(rank + 1),
    decreases top,
{
    if top == 0 {
        assert(den * magnitude(0) == 0) by (nonlinear_arith)
            requires
                magnitude(0) == 0,
        ;
        0
    } else if den * magnitude(top) <= num {
        top
    } else {
        lemma_floor_rank(num, den, (top - 1) as nat)
    }
}

/// Every ratio has a nearest rank, and `rounded` is it.
pub proof fn lemma_rounded(num: nat, den: nat)
    requires
        den > 0,
    ensures
        nearest(num, den, rounded(num, den)),
{
    reveal(rounded);
    let floor = lemma_floor_rank(num, den, INFINITE_RANK as nat);
    let here = magnitude(floor);
    let above = magnitude(floor + 1);
    lemma_magnitude_step(floor);
    if floor > 0 {
        lemma_magnitude_step((floor - 1) as nat);
        let below = magnitude((floor - 1) as nat);
        assert(den * (below + here) < 2 * num) by (nonlinear_arith)
            requires
                below < here,
                den * here <= num,
                den > 0,
        ;
    }
    if floor < INFINITE_RANK {
        lemma_magnitude_step(floor + 1);
        assert(2 * num < den * (above + magnitude(floor + 2))) by (nonlinear_arith)
            requires
                num < den * above,
                above < magnitude(floor + 2),
                den > 0,
        ;
        let middle = den * (here + above);
        if 2 * num < middle || (2 * num == middle && floor % 2 == 0) {
            assert(nearest(num, den, floor));
        } else {
            assert(nearest(num, den, floor + 1));
        }
    } else {
        assert(nearest(num, den, floor));
    }
}

/// A rank that is nearest to a ratio is what the ratio rounds to.
pub proof fn lemma_rounded_is(num: nat, den: nat, rank: nat)
    requires
        den > 0,
        nearest(num, den, rank),
    ensures
        rounded(num, den) == rank,
{
    lemma_rounded(num, den);
    lemma_nearest_unique(num, den, rank, rounded(num, den));
}

/// Rounding at significand `q` and exponent `t`: `q` or `q + 1`, whichever
/// side of the middle the ratio lies on.
proof fn lemma_rounded_at(num: nat, den: nat, t: nat, q: nat, up: bool)
    requires
        den > 0,
        (t == 0 && q < 2 * BINADE) || BINADE <= q < 2 * BINADE,
        q * (den * pow2(t)) <= num,
        num < (q + 1) * (den * pow2(t)),
        up ==> {
            ||| (2 * q + 1) * (den * pow2(t)) < 2 * num
            ||| (2 * q + 1) * (den * pow2(t)) == 2 * num && q % 2 == 1
        },
        !up ==> {
            ||| 2 * num < (2 * q + 1) * (den * pow2(t))
            ||| (2 * q + 1) * (den * pow2(t)) == 2 * num && q % 2 == 0
        },
    ensures
        ({
            let rank = t * BINADE as nat + q + (if up { 1nat } else { 0nat });
            rounded(num, den) == if rank <= INFINITE_RANK { rank } else { INFINITE_RANK as nat }
        }),
{
    let w = den * pow2(t);
    let floor = t * BINADE as nat + q;
    let rank = floor + (if up { 1nat } else { 0nat });
    let here = magnitude(floor);
    let above = magnitude(floor + 1);
    lemma_magnitude(t, q);
    lemma_magnitude(t, q + 1);
    assert(floor + 1 == t * BINADE as nat + (q + 1));
    lemma_magnitude_step(floor + 1);
    let beyond = magnitude(floor + 2);
    assert(den * here == q * w && den * above == (q + 1) * w && den * (here + above) == (2 * q + 1)
        * w) by (nonlinear_arith)
        requires
            w == den * pow2(t),
            here == q * pow2(t),
            above == (q + 1) * pow2(t),
    ;
    assert(2 * num < den * (above + beyond)) by (nonlinear_arith)
        requires
            num < (q + 1) * w,
            den * above == (q + 1) * w,
            above < beyond,
            den > 0,
    ;
    assert(floor % 2 == q % 2) by (nonlinear_arith)
        requires
            floor == t * BINADE as nat + q,
            BINADE == 0x10_0000_0000_0000u64,
    ;
    if floor > 0 {
        lemma_magnitude_step((floor - 1) as nat);
        let below = magnitude((floor - 1) as nat);
        assert(den * (below + here) < 2 * num) by (nonlinear_arith)
            requires
                below < here,
                den * here == q * w,
                q * w <= num,
                den > 0,
        ;
    }
    if rank <= INFINITE_RANK {
        lemma_rounded_is(num, den, rank);
    } else {
        let top = INFINITE_RANK as nat;
        if top < floor {
            lemma_magnitude_increases(top, floor);
        }
        lemma_magnitude_step((top - 1) as nat);
        assert(den * (magnitude((top - 1) as nat) + magnitude(top)) < 2 * num) by (nonlinear_arith)
            requires
                magnitude((top - 1) as nat) < magnitude(top),
                magnitude(top) <= here,
                den * here == q * w,
                q * w <= num,
                den > 0,
        ;
        lemma_rounded_is(num, den, top);
    }
}

/// The magnitude of a rank, as a significand and an exponent.
pub fn decode(rank: u64) -> (r: (u64, u32))
    requires
        rank <= INFINITE_RANK,
    ensures
        magnitude(rank as nat) == r.0 * pow2(r.1 as nat),
        r.0 < 2 * BINADE,
        r.1 <= 2046,
        rank < INFINITE_RANK ==> r.1 <= 2045,
        r.1 == 0 || BINADE <= r.0,
        rank > 0 ==> r.0 > 0,
{
    proof {
        lemma2_to64();
    }
    if rank < BINADE {
        assert(rank * pow2(0) == rank) by (nonlinear_arith)
            requires
                pow2(0) == 1,
        ;
        (rank, 0)
    } else {
        let m: u64 = BINADE + rank % BINADE;
        let e: u64 = rank / BINADE - 1;
        proof {
            assert(e <= 2046);
            assert(magnitude(rank as nat) == (m * pow2(e as nat)) as nat);
            lemma_pow2_pos(e as nat);
            lemma_mul_strictly_positive(m as int, pow2(e as nat) as int);
        }
        (m, e as u32)
    }
}

/// Two to the power `n`.
pub fn power_of_two(n: u32) -> (r: u128)
    requires
        n <= 126,
    ensures
        r == pow2(n as nat),
        r <= 0x4000_0000_0000_0000_0000_0000_0000_0000,
{
    let mut r: u128 = 1;
    let mut i: u32 = 0;
    proof {
        lemma2_to64();
        lemma2_to64_rest();
        lemma_pow2_adds(63, 63);
    }
    while i < n
        invariant
            i <= n <= 126,
            r == pow2(i as nat),
            pow2(126) == 0x4000_0000_0000_0000_0000_0000_0000_0000,
        decreases n - i,
    {
        proof {
            lemma_pow2_unfold((i + 1) as nat);
            if i + 1 < 126 {
                lemma_pow2_strictly_increases((i + 1) as nat, 126);
            }
        }
        r = r * 2;
        i = i + 1;
    }
    proof {
        if n < 126 {
            lemma_pow2_strictly_increases(n as nat, 126);
        }
    }
    r
}

/// The number of binary digits of a positive number.
pub fn bit_length(value: u128) -> (len: u32)
    requires
        value > 0,
    ensures
        1 <= len <= 128,
        pow2((len - 1) as nat) <= value < pow2(len as nat),
{
    let mut rest: u128 = value;
    let mut len: u32 = 0;
    proof {
        lemma2_to64();
        assert(value == rest * pow2(0));
    }
    while rest > 1
        invariant
            rest >= 1,
            rest * pow2(len as nat) <= value < (rest + 1) * pow2(len as nat),
            len <= 127,
        decreases rest,
    {
        let half: u128 = rest / 2;
        proof {
            let p = pow2(len as nat);
            lemma_pow2_pos(len as nat);
            lemma_pow2_unfold((len + 1) as nat);
            assert(half * (2 * p) <= value < (half + 1) * (2 * p)) by (nonlinear_arith)
                requires
                    rest * p <= value < (rest + 1) * p,
                    half == rest / 2,
                    p > 0,
            ;
            if len == 127 {
                lemma2_to64_rest();
                lemma_pow2_adds(64, 63);
                assert(rest * p >= 2 * p) by (nonlinear_arith)
                    requires
                        rest >= 2,
                        p > 0,
                ;
            }
        }
        rest = half;
        len = len + 1;
    }
    proof {
        lemma_pow2_unfold((len + 1) as nat);
    }
    len + 1
}

/// Two to the power `exp`, made whole by a fixed power of two.
pub open spec fn shifted(exp: int) -> nat {
    pow2((exp + 4096) as nat)
}

/// Whether `head` counts the whole multiples of two to the power `exp` in
/// `num / den`, and `more` says whether anything is left over.
pub open spec fn heads(num: nat, den: nat, head: nat, exp: int, more: bool) -> bool {
    let step = den * shifted(exp);
    if more {
        head * step < num * shifted(0) < (head + 1) * step
    } else {
        head * step == num * shifted(0)
    }
}

proof fn lemma_drop_low_bits(
    num: nat,
    den: nat,
    head: nat,
    exp: int,
    more: bool,
    t: nat,
    half: nat,
    q: nat,
    r: nat,
    up: bool,
)
    requires
        den > 0,
        exp + 4096 >= 0,
        t > exp,
        heads(num, den, head, exp, more),
        2 * half == pow2((t - exp) as nat),
        head == q * (2 * half) + r,
        r < 2 * half,
        up == (r > half || (r == half && (more || q % 2 == 1))),
    ensures
        q * (den * pow2(t)) <= num,
        num < (q + 1) * (den * pow2(t)),
        up ==> {
            ||| (2 * q + 1) * (den * pow2(t)) < 2 * num
            ||| (2 * q + 1) * (den * pow2(t)) == 2 * num && q % 2 == 1
        },
        !up ==> {
            ||| 2 * num < (2 * q + 1) * (den * pow2(t))
            ||| (2 * q + 1) * (den * pow2(t)) == 2 * num && q % 2 == 0
        },
{
    let d = den * shifted(exp);
    let p = shifted(0);
    let w = den * pow2(t);
    let n = num * p;
    lemma_pow2_adds(t, 4096);
    lemma_pow2_adds((exp + 4096) as nat, (t - exp) as nat);
    assert(t + 4096 == (exp + 4096) + (t - exp));
    lemma_pow2_pos(4096);
    lemma_pow2_pos((exp + 4096) as nat);
    lemma_mul_strictly_positive(den as int, shifted(exp) as int);
    assert(w * p == d * (2 * half)) by (nonlinear_arith)
        requires
            w == den * pow2(t),
            d == den * shifted(exp),
            pow2(t) * p == shifted(exp) * (2 * half),
    ;
    let middle = (q * (2 * half) + half) * d;
    assert(q * (2 * half) * d <= head * d && (head + 1) * d <= (q + 1) * (2 * half) * d)
        by (nonlinear_arith)
        requires
            head == q * (2 * half) + r,
            0 <= r < 2 * half,
            d > 0,
    ;
    assert(r < half ==> (head + 1) * d <= middle) by (nonlinear_arith)
        requires
            head == q * (2 * half) + r,
            middle == (q * (2 * half) + half) * d,
            d > 0,
    ;
    assert(r > half ==> middle < head * d) by (nonlinear_arith)
        requires
            head == q * (2 * half) + r,
            middle == (q * (2 * half) + half) * d,
            d > 0,
    ;
    assert(head * d < (head + 1) * d) by (nonlinear_arith)
        requires
            d > 0,
    ;
    assert(q * (2 * half) * d == (q * w) * p) by (nonlinear_arith)
        requires
            w * p == d * (2 * half),
    ;
    assert((q + 1) * (2 * half) * d == ((q + 1) * w) * p) by (nonlinear_arith)
        requires
            w * p == d * (2 * half),
    ;
    assert(2 * middle == ((2 * q + 1) * w) * p) by (nonlinear_arith)
        requires
            w * p == d * (2 * half),
            middle == (q * (2 * half) + half) * d,
    ;
    assert((2 * num) * p == 2 * n) by (nonlinear_arith)
        requires
            n == num * p,
    ;
    lemma_cancel((q * w) as int, num as int, p as int);
    lemma_cancel(num as int, ((q + 1) * w) as int, p as int);
    lemma_cancel((2 * num) as int, ((2 * q + 1) * w) as int, p as int);
}

/// A positive common factor does not change how two numbers compare.
pub proof fn lemma_cancel(a: int, b: int, p: int)
    requires
        p > 0,
    ensures
        a * p < b * p <==> a < b,
        a * p == b * p <==> a == b,
{
    assert(a < b ==> a * p < b * p) by (nonlinear_arith)
        requires
            p > 0,
    ;
    assert(a > b ==> a * p > b * p) by (nonlinear_arith)
        requires
            p > 0,
    ;
}

/// Rounds the ratio that `head`, `exp` and `more` describe.
pub fn round_head(
    head: u128,
    exp: i32,
    more: bool,
    Ghost(num): Ghost<nat>,
    Ghost(den): Ghost<nat>,
) -> (rank: u64)
    requires
        den > 0,
        -4000 <= exp <= 4000,
        head > 0,
        head < pow2(124),
        more ==> head >= pow2(55),
        heads(num, den, head as nat, exp as int, more),
    ensures
        rank == rounded(num, den),
{
    let len: u32 = bit_length(head);
    proof {
        if len > 124 {
            if 124 < len - 1 {
                lemma_pow2_strictly_increases(124, (len - 1) as nat);
            }
        }
        if more && len <= 55 {
            if len < 55 {
                lemma_pow2_strictly_increases(len as nat, 55);
            }
        }
        lemma2_to64();
        lemma2_to64_rest();
    }
    let fitted: i32 = exp + len as i32 - 53;
    let t: i32 = if fitted > 0 { fitted } else { 0 };
    if t <= exp {
        let gap: u32 = (exp - t) as u32;
        proof {
            if len < 53 {
                lemma_pow2_adds((len - 1) as nat, gap as nat);
                lemma_pow2_adds(len as nat, gap as nat);
            }
        }
        assert(gap + len <= 53);
        let factor: u128 = power_of_two(gap);
        proof {
            lemma_pow2_adds(len as nat, gap as nat);
            lemma_pow2_adds((len - 1) as nat, gap as nat);
            assert(head * factor < pow2(len as nat) * pow2(gap as nat)) by (nonlinear_arith)
                requires
                    head < pow2(len as nat),
                    factor == pow2(gap as nat),
                    factor > 0,
            ;
            assert(head * factor >= pow2((len - 1) as nat) * pow2(gap as nat)) by (nonlinear_arith)
                requires
                    head >= pow2((len - 1) as nat),
                    factor == pow2(gap as nat),
                    factor > 0,
            ;
            if gap + len < 53 {
                lemma_pow2_strictly_increases((gap + len) as nat, 53);
            }
        }
        let q: u64 = (head * factor) as u64;
        proof {
            let tn = t as nat;
            let w = den * pow2(tn);
            lemma_pow2_adds(tn, 4096);
            lemma_pow2_adds((t + 4096) as nat, gap as nat);
            lemma_pow2_pos(4096);
            lemma_pow2_pos(tn);
            lemma_mul_strictly_positive(den as int, pow2(tn) as int);
            assert((q * w) * shifted(0) == num * shifted(0)) by (nonlinear_arith)
                requires
                    q == head * factor,
                    w == den * pow2(tn),
                    pow2(tn) * shifted(0) * factor == shifted(exp as int),
                    head * (den * shifted(exp as int)) == num * shifted(0),
            ;
            lemma_cancel((q * w) as int, num as int, shifted(0) as int);
            assert(q * w == num);
            assert(num < (q + 1) * w && 2 * num < (2 * q + 1) * w) by (nonlinear_arith)
                requires
                    num == q * w,
                    w > 0,
            ;
            lemma_rounded_at(num, den, tn, q as nat, false);
        }
        saturate(t as u64 * BINADE + q)
    } else {
        let drop: u32 = (t - exp) as u32;
        if drop > 126 {
            proof {
                let half = pow2((drop - 1) as nat);
                lemma_pow2_unfold(drop as nat);
                lemma_pow2_strictly_increases(124, (drop - 1) as nat);
                lemma_drop_low_bits(num, den, head as nat, exp as int, more, 0, half, 0, head as nat, false);
                lemma_rounded_at(num, den, 0, 0, false);
            }
            0
        } else {
            let half: u128 = power_of_two(drop - 1);
            proof {
                lemma_pow2_pos((drop - 1) as nat);
            }
            let whole: u128 = half * 2;
            let q: u128 = head / whole;
            let r: u128 = head % whole;
            let up: bool = r > half || (r == half && (more || q % 2 == 1));
            proof {
                lemma_pow2_unfold(drop as nat);
                assert(head == q * (2 * half) + r) by (nonlinear_arith)
                    requires
                        q == head / whole,
                        r == head % whole,
                        whole == 2 * half,
                        half > 0,
                ;
                lemma_drop_low_bits(
                    num,
                    den,
                    head as nat,
                    exp as int,
                    more,
                    t as nat,
                    half as nat,
                    q as nat,
                    r as nat,
                    up,
                );
                lemma_significand(head as nat, len as nat, drop as nat, q as nat, t > 0);
                lemma_rounded_at(num, den, t as nat, q as nat, up);
            }
            let base: u64 = t as u64 * BINADE + q as u64;
            saturate(if up { base + 1 } else { base })
        }
    }
}

proof fn lemma_significand(head: nat, len: nat, drop: nat, q: nat, normal: bool)
    requires
        len >= 1,
        pow2((len - 1) as nat) <= head < pow2(len),
        q == head / pow2(drop),
        normal ==> drop + 53 == len,
        len <= drop + 53,
    ensures
        q < 2 * BINADE,
        normal ==> BINADE <= q,
{
    lemma2_to64();
    lemma2_to64_rest();
    lemma_pow2_pos(drop);
    lemma_pow2_adds(53, drop);
    if len < drop + 53 {
        lemma_pow2_strictly_increases(len, drop + 53);
    }
    assert(q < 2 * BINADE) by (nonlinear_arith)
        requires
            q == head / pow2(drop),
            head < 2 * BINADE * pow2(drop),
            pow2(drop) > 0,
    ;
    if normal {
        lemma_pow2_adds(52, drop);
        assert(BINADE <= q) by (nonlinear_arith)
            requires
                q == head / pow2(drop),
                head >= BINADE * pow2(drop),
                pow2(drop) > 0,
        ;
    }
}

fn saturate(rank: u64) -> (r: u64)
    ensures
        r == if rank <= INFINITE_RANK { rank } else { INFINITE_RANK },
{
    if rank <= INFINITE_RANK {
        rank
    } else {
        INFINITE_RANK
    }
}

} // verus!
