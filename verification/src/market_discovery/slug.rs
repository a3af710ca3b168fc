//! Names and boundaries of the five-minute markets.

use crate::utils::clock;
use crate::utils::clock::{utc_now, LAST_SECOND};
use crate::utils::text;
use crate::utils::text::decimal_text;
use vstd::prelude::*;
use vstd::string::*;

verus! {

/// The name of the market on an asset that opens at a time.
pub open spec fn slug_text(asset: Seq<char>, timestamp: nat) -> Seq<char> {
    text::lowercase(asset) + "-updown-5m-"@ + text::decimal(timestamp)
}

/// The last boundary at or before a time.
pub open spec fn boundary(now: int, interval: int) -> int {
    now / interval * interval
}

/// The longest interval for which every boundary after a reading of the clock
/// is a 64-bit count.
pub open spec fn interval_fits(interval: u64) -> bool {
    0 < interval <= u64::MAX - LAST_SECOND
}

/// A boundary is at or before the time, less than one interval away, and a
/// multiple of the interval.
pub proof fn lemma_boundary(now: int, interval: int)
    requires
        0 <= now,
        0 < interval,
    ensures
        0 <= boundary(now, interval) <= now,
        now - boundary(now, interval) < interval,
        boundary(now, interval) % interval == 0,
{
    let q = now / interval;
    assert(0 <= q * interval <= now && now - q * interval < interval) by (nonlinear_arith)
        requires
            q == now / interval,
            0 <= now,
            0 < interval,
    ;
    vstd::arithmetic::div_mod::lemma_mod_multiples_basic(q, interval);
}

/// The first boundary after a time.
pub open spec fn next_boundary(now: int, interval: int) -> int {
    boundary(now, interval) + interval
}

/// Seconds from a time to the first boundary after it.
pub open spec fn secs_left(now: int, interval: int) -> int {
    next_boundary(now, interval) - now
}

/// The current market opened at the greatest multiple of the interval that is not
/// after the time; the next one opens at the least multiple that is, one interval
/// later and as many seconds from now as the current one has left.
pub proof fn lemma_next_opening(now: int, interval: int, k: int)
    requires
        0 <= now,
        0 < interval,
    ensures
        next_boundary(now, interval) == boundary(now, interval) + interval,
        next_boundary(now, interval) == now + secs_left(now, interval),
        boundary(now, interval) <= now < next_boundary(now, interval),
        boundary(now, interval) % interval == 0,
        next_boundary(now, interval) % interval == 0,
        k * interval <= now ==> k * interval <= boundary(now, interval),
        now < k * interval ==> next_boundary(now, interval) <= k * interval,
        0 < secs_left(now, interval) <= interval,
{
    lemma_boundary(now, interval);
    let q = now / interval;
    assert(next_boundary(now, interval) == (q + 1) * interval) by (nonlinear_arith)
        requires
            next_boundary(now, interval) == q * interval + interval,
    ;
    vstd::arithmetic::div_mod::lemma_mod_multiples_basic(q + 1, interval);
    assert(k * interval <= now ==> k * interval <= q * interval) by (nonlinear_arith)
        requires
            0 < interval,
            now < q * interval + interval,
    ;
    assert(now < k * interval ==> q * interval + interval <= k * interval) by (nonlinear_arith)
        requires
            0 < interval,
            q * interval <= now,
    ;
}

/// One interval later the next market is the current one.
pub proof fn lemma_next_becomes_current(now: int, interval: int)
    requires
        0 <= now,
        0 < interval,
    ensures
        boundary(now + interval, interval) == next_boundary(now, interval),
{
    vstd::arithmetic::div_mod::lemma_div_plus_one(now, interval);
    let q = now / interval;
    assert((q + 1) * interval == q * interval + interval) by (nonlinear_arith);
}

/// The time that a market opens at can be read back from its name: the digits at
/// the end of the name stand for it, so that markets that open at different
/// times have different names.
pub proof fn lemma_slug_names_time(asset: Seq<char>, timestamp: nat)
    ensures
        ({
            let start = text::lowercase(asset) + "-updown-5m-"@;
            let digits = slug_text(asset, timestamp).skip(start.len() as int);
            &&& slug_text(asset, timestamp).take(start.len() as int) == start
            &&& text::all_digits(digits)
            &&& text::digits_value(digits) == timestamp
        }),
{
    let start = text::lowercase(asset) + "-updown-5m-"@;
    let whole = slug_text(asset, timestamp);
    assert(whole.take(start.len() as int) =~= start);
    assert(whole.skip(start.len() as int) =~= text::decimal(timestamp));
    text::lemma_decimal_value(timestamp);
}

/// Generates a slug from asset and Unix timestamp.
pub fn format_slug(asset: &str, timestamp: u64) -> (r: String)
    ensures
        r@ == slug_text(asset@, timestamp as nat),
        text::ascii(asset@) ==> r@ == asset@.map_values(|c: char| text::ascii_lower(c))
            + "-updown-5m-"@ + text::decimal(timestamp as nat),
{
    let lower: String = asset.to_lowercase();
    lower.concat("-updown-5m-").concat(decimal_text(timestamp).as_str())
}

fn clock_secs() -> (now: u64)
    ensures
        now <= LAST_SECOND,
{
    utc_now().timestamp() as u64
}

/// The Unix timestamp of the last boundary at or before `now`.
pub fn market_open_at(now: u64, interval_secs: u64) -> (r: u64)
    requires
        interval_secs > 0,
    ensures
        r == boundary(now as int, interval_secs as int),
        r <= now,
        now - r < interval_secs,
{
    proof {
        lemma_boundary(now as int, interval_secs as int);
    }
    (now / interval_secs) * interval_secs
}

/// The Unix timestamp of the first boundary after `now`.
pub fn next_market_open_at(now: u64, interval_secs: u64) -> (r: u64)
    requires
        interval_secs > 0,
        next_boundary(now as int, interval_secs as int) <= u64::MAX,
    ensures
        r == next_boundary(now as int, interval_secs as int),
        now < r,
        r - now <= interval_secs,
{
    market_open_at(now, interval_secs) + interval_secs
}

/// Seconds until a market opens, zero once it has.
pub open spec fn time_to(open_ts: int, now: int) -> int {
    if now < open_ts {
        open_ts - now
    } else {
        0
    }
}

/// After so many seconds the market has opened, and not a second before.
pub proof fn lemma_time_to(open_ts: int, now: int, wait: int)
    requires
        0 <= wait,
    ensures
        0 <= time_to(open_ts, now),
        open_ts <= now + wait <==> time_to(open_ts, now) <= wait,
{
}

/// Seconds from `now` until a market opens, zero once it has.
pub fn secs_until_open(open_ts: u64, now: u64) -> (r: u64)
    ensures
        r == time_to(open_ts as int, now as int),
{
    if now < open_ts {
        open_ts - now
    } else {
        0
    }
}

/// Generates a Polymarket 5-minute market slug for a given asset at a given time.
/// Format: `{asset}-updown-5m-{aligned_timestamp}`
/// The timestamp is aligned to the nearest 5-minute boundary (floor).
pub fn slug_at(asset: &str, now: u64, interval_secs: u64) -> (r: String)
    requires
        interval_secs > 0,
    ensures
        r@ == slug_text(asset@, boundary(now as int, interval_secs as int) as nat),
{
    format_slug(asset, market_open_at(now, interval_secs))
}

/// Generates the current market slug.
pub fn current_slug(asset: &str, interval_secs: u64) -> (r: String)
    requires
        interval_secs > 0,
    ensures
        exists|now: int|
            0 <= now <= LAST_SECOND && r@ == slug_text(
                asset@,
                #[trigger] boundary(now, interval_secs as int) as nat,
            ),
{
    let now: u64 = clock_secs();
    slug_at(asset, now, interval_secs)
}

/// Generates the slug of the market that opens next after a given time.
pub fn next_slug_at(asset: &str, now: u64, interval_secs: u64) -> (r: String)
    requires
        interval_secs > 0,
        next_boundary(now as int, interval_secs as int) <= u64::MAX,
    ensures
        r@ == slug_text(asset@, next_boundary(now as int, interval_secs as int) as nat),
{
    format_slug(asset, next_market_open_at(now, interval_secs))
}

/// Generates the NEXT market slug (the one that hasn't opened yet).
/// Used for pre-fetching token_ids before market opens.
pub fn next_slug(asset: &str, interval_secs: u64) -> (r: String)
    requires
        interval_fits(interval_secs),
    ensures
        exists|now: int|
            0 <= now <= LAST_SECOND && r@ == slug_text(
                asset@,
                #[trigger] next_boundary(now, interval_secs as int) as nat,
            ),
{
    let now: u64 = clock_secs();
    proof {
        lemma_boundary(now as int, interval_secs as int);
    }
    next_slug_at(asset, now, interval_secs)
}

/// Returns seconds remaining in the market interval at a given time.
pub fn secs_remaining_at(now: u64, interval_secs: u64) -> (r: u64)
    requires
        interval_secs > 0,
        next_boundary(now as int, interval_secs as int) <= u64::MAX,
    ensures
        r == secs_left(now as int, interval_secs as int),
        0 < r <= interval_secs,
{
    proof {
        lemma_boundary(now as int, interval_secs as int);
    }
    next_market_open_at(now, interval_secs) - now
}

/// Returns seconds remaining in the current market interval.
pub fn secs_remaining(interval_secs: u64) -> (r: u64)
    requires
        interval_fits(interval_secs),
    ensures
        0 < r <= interval_secs,
        exists|now: int|
            0 <= now <= LAST_SECOND && r == #[trigger] secs_left(now, interval_secs as int),
{
    let now: u64 = clock_secs();
    proof {
        lemma_boundary(now as int, interval_secs as int);
    }
    secs_remaining_at(now, interval_secs)
}

/// Returns the Unix timestamp when the current market opened.
pub fn current_market_open_ts(interval_secs: u64) -> (r: u64)
    requires
        interval_secs > 0,
    ensures
        r <= LAST_SECOND,
        r % interval_secs == 0,
        exists|now: int|
            0 <= now <= LAST_SECOND && r == #[trigger] boundary(now, interval_secs as int),
{
    let now: u64 = clock_secs();
    proof {
        lemma_boundary(now as int, interval_secs as int);
    }
    market_open_at(now, interval_secs)
}

/// Returns the Unix timestamp when the next market opens.
pub fn next_market_open_ts(interval_secs: u64) -> (r: u64)
    requires
        interval_fits(interval_secs),
    ensures
        exists|now: int|
            0 <= now <= LAST_SECOND && r == #[trigger] next_boundary(now, interval_secs as int),
{
    let now: u64 = clock_secs();
    proof {
        lemma_boundary(now as int, interval_secs as int);
    }
    next_market_open_at(now, interval_secs)
}

/// All times of one interval belong to one market: the one that opened at its
/// start.
pub proof fn lemma_one_market_per_interval(now: int, interval: int, k: int)
    requires
        0 < interval,
        0 <= k,
        k * interval <= now < (k + 1) * interval,
    ensures
        boundary(now, interval) == k * interval,
        next_boundary(now, interval) == (k + 1) * interval,
        secs_left(now, interval) == (k + 1) * interval - now,
{
    assert(0 <= k * interval) by (nonlinear_arith)
        requires
            0 <= k,
            0 < interval,
    ;
    lemma_next_opening(now, interval, k);
    lemma_next_opening(now, interval, k + 1);
    assert((k + 1) * interval == k * interval + interval) by (nonlinear_arith);
    let q = now / interval;
    assert(q == k) by (nonlinear_arith)
        requires
            q * interval <= now < q * interval + interval,
            k * interval <= now < k * interval + interval,
            0 < interval,
    ;
}

} // verus!
