//! Points in time, in UTC.

use chrono::{DateTime, Utc};
use vstd::prelude::*;

verus! {

/// The first second that the calendar reaches, counted from 1970.
pub const FIRST_SECOND: i64 = -8_334_601_228_800;

/// The last second that the calendar reaches, counted from 1970.
pub const LAST_SECOND: i64 = 8_210_266_876_799;

pub const NANOS_PER_SEC: u32 = 1_000_000_000;

pub const SECS_PER_DAY: i64 = 86_400;

/// Whether a second lies within the calendar.
pub open spec fn in_calendar(secs: int) -> bool {
    FIRST_SECOND <= secs <= LAST_SECOND
}

/// Division that drops the fraction, whatever the sign.
pub open spec fn truncated(a: int, b: int) -> int {
    if a >= 0 {
        a / b
    } else {
        -((-a) / b)
    }
}

/// A point in time: whole seconds since 1970 and nanoseconds within the second.
#[derive(Clone, Copy, Debug, PartialEq, Eq, Structural)]
pub struct Timestamp {
    secs: i64,
    subsec: u32,
}

impl Timestamp {
    #[verifier::type_invariant]
    spec fn inv(self) -> bool {
        in_calendar(self.secs as int) && self.subsec < NANOS_PER_SEC
    }

    /// Whole seconds since 1970.
    pub closed spec fn seconds(self) -> int {
        self.secs as int
    }

    /// Nanoseconds within the second.
    pub closed spec fn fraction(self) -> int {
        self.subsec as int
    }

    /// Whether this is a point that the calendar reaches.
    pub closed spec fn valid(self) -> bool {
        self.inv()
    }

    /// Nanoseconds since 1970.
    pub open spec fn nanos(self) -> int {
        self.seconds() * NANOS_PER_SEC + self.fraction()
    }

    /// The point `secs` seconds and `subsec` nanoseconds after the start of 1970.
    pub fn from_parts(secs: i64, subsec: u32) -> (r: Option<Timestamp>)
        ensures
            r is Some <==> in_calendar(secs as int) && subsec < NANOS_PER_SEC,
            r matches Some(t) ==> t.seconds() == secs && t.fraction() == subsec && t.valid(),
    {
        if secs >= FIRST_SECOND && secs <= LAST_SECOND && subsec < NANOS_PER_SEC {
            Some(Timestamp { secs, subsec })
        } else {
            None
        }
    }

    /// Whole seconds since 1970.
    pub fn timestamp(self) -> (r: i64)
        ensures
            r == self.seconds(),
            in_calendar(r as int),
    {
        proof {
            use_type_invariant(&self);
        }
        self.secs
    }

    /// Nanoseconds within the second.
    pub fn subsec_nanos(self) -> (r: u32)
        ensures
            r == self.fraction(),
            r < NANOS_PER_SEC,
    {
        proof {
            use_type_invariant(&self);
        }
        self.subsec
    }

    /// Whether `self` comes before `other`.
    pub fn is_before(self, other: Timestamp) -> (r: bool)
        ensures
            r == (self.nanos() < other.nanos()),
    {
        proof {
            use_type_invariant(&self);
            use_type_invariant(&other);
        }
        self.secs < other.secs || (self.secs == other.secs && self.subsec < other.subsec)
    }

    /// The point `secs` seconds later.
    pub fn plus_secs(self, secs: i64) -> (r: Timestamp)
        requires
            in_calendar(self.seconds() + secs),
        ensures
            r.nanos() == self.nanos() + secs * NANOS_PER_SEC,
            r.seconds() == self.seconds() + secs,
            r.fraction() == self.fraction(),
            r.valid(),
    {
        proof {
            use_type_invariant(&self);
        }
        Timestamp { secs: self.secs + secs, subsec: self.subsec }
    }

    /// The point `secs` seconds earlier.
    pub fn minus_secs(self, secs: i64) -> (r: Timestamp)
        requires
            in_calendar(self.seconds() - secs),
        ensures
            r.nanos() == self.nanos() - secs * NANOS_PER_SEC,
            r.seconds() == self.seconds() - secs,
            r.fraction() == self.fraction(),
            r.valid(),
    {
        proof {
            use_type_invariant(&self);
        }
        Timestamp { secs: self.secs - secs, subsec: self.subsec }
    }

    /// Whole seconds from `earlier` to `self`, negative if it lies later.
    pub fn secs_since(self, earlier: Timestamp) -> (r: i64)
        ensures
            r == truncated(self.nanos() - earlier.nanos(), NANOS_PER_SEC as int),
    {
        proof {
            use_type_invariant(&self);
            use_type_invariant(&earlier);
        }
        let whole: i64 = self.secs - earlier.secs;
        if whole > 0 && self.subsec < earlier.subsec {
            whole - 1
        } else if whole < 0 && self.subsec > earlier.subsec {
            whole + 1
        } else {
            whole
        }
    }

    /// Nanoseconds from `earlier` to `self`, negative if it lies later.
    pub fn nanos_since(self, earlier: Timestamp) -> (r: i128)
        ensures
            r == self.nanos() - earlier.nanos(),
            -17_000_000_000_000_000_000_000 < r < 17_000_000_000_000_000_000_000,
    {
        proof {
            use_type_invariant(&self);
            use_type_invariant(&earlier);
        }
        (self.secs as i128 - earlier.secs as i128) * 1_000_000_000 + (self.subsec as i128
            - earlier.subsec as i128)
    }

    /// The day of the calendar in UTC, counted from the start of 1970.
    pub open spec fn day(self) -> int {
        self.seconds() / SECS_PER_DAY as int
    }

    /// Whether `self` lies on a later day than `before`.
    pub fn is_on_later_day(self, before: Timestamp) -> (r: bool)
        ensures
            r == later_day(self.seconds(), before.seconds()),
    {
        proof {
            use_type_invariant(&self);
            use_type_invariant(&before);
        }
        let shift: i64 = SECS_PER_DAY * 100_000_000;
        proof {
            let n = 100_000_000int;
            let d = SECS_PER_DAY as int;
            vstd::arithmetic::div_mod::lemma_hoist_over_denominator(self.secs as int, n, d as nat);
            vstd::arithmetic::div_mod::lemma_hoist_over_denominator(
                before.secs as int,
                n,
                d as nat,
            );
        }
        (self.secs + shift) / SECS_PER_DAY > (before.secs + shift) / SECS_PER_DAY
    }

    /// Whole milliseconds from `earlier` to `self`, negative if it lies later.
    pub fn millis_since(self, earlier: Timestamp) -> (r: i64)
        ensures
            r == truncated(self.nanos() - earlier.nanos(), 1_000_000),
            r > i64::MIN,
    {
        proof {
            use_type_invariant(&self);
            use_type_invariant(&earlier);
        }
        let nanos: i128 = self.nanos_since(earlier);
        if nanos >= 0 {
            (nanos / 1_000_000) as i64
        } else {
            -(((-nanos) / 1_000_000) as i64)
        }
    }

    /// Whole seconds from `earlier` to `self`, or zero if it lies later.
    pub fn elapsed_secs(self, earlier: Timestamp) -> (r: u64)
        ensures
            r == elapsed(self.nanos(), earlier.nanos()),
    {
        let secs: i64 = self.secs_since(earlier);
        if secs > 0 {
            secs as u64
        } else {
            0
        }
    }
}

/// Whether a second lies on a later day of the calendar in UTC than another one.
pub open spec fn later_day(secs: int, before: int) -> bool {
    secs / SECS_PER_DAY as int > before / SECS_PER_DAY as int
}

/// A day ends at midnight: a later second lies on a later day exactly where a
/// midnight, a multiple of 86,400 seconds, lies between the two or at the later.
pub proof fn lemma_later_day(secs: int, before: int, midnight: int)
    ensures
        later_day(secs, before) ==> before < secs,
        before < midnight * 86_400 <= secs ==> later_day(secs, before),
        midnight * 86_400 <= before <= secs < (midnight + 1) * 86_400 ==> !later_day(secs, before),
{
}

/// Whole seconds between two points, or zero if the first lies earlier.
pub open spec fn elapsed(now: int, earlier: int) -> int {
    if now <= earlier {
        0
    } else {
        (now - earlier) / NANOS_PER_SEC as int
    }
}

/// `Utc::now`: the machine's clock. It counts from 1970 on and never beyond the
/// calendar; nothing else holds of every reading.
#[verifier::external_body]
fn read_clock() -> (r: (i64, u32))
    ensures
        0 <= r.0 <= LAST_SECOND,
        r.1 < NANOS_PER_SEC,
{
    let now: DateTime<Utc> = Utc::now();
    (now.timestamp(), now.timestamp_subsec_nanos())
}

/// The current time.
pub fn utc_now() -> (r: Timestamp)
    ensures
        r.valid(),
        0 <= r.seconds() <= LAST_SECOND,
{
    let (secs, subsec) = read_clock();
    Timestamp { secs, subsec }
}

/// `DateTime::from_timestamp_millis`: the point that many milliseconds after the
/// start of 1970, as seconds and nanoseconds, if the calendar reaches it.
#[verifier::external_body]
fn calendar_millis(millis: i64) -> (r: Option<(i64, u32)>)
    ensures
        r == if in_calendar(millis as int / 1000) {
            Some(((millis as int / 1000) as i64, (millis as int % 1000 * 1_000_000) as u32))
        } else {
            None
        },
{
    DateTime::from_timestamp_millis(millis).map(
        |t: DateTime<Utc>| (t.timestamp(), t.timestamp_subsec_nanos()),
    )
}

/// `DateTime::from_timestamp` at a whole second: the point that many seconds
/// after the start of 1970, as seconds and nanoseconds, if the calendar reaches
/// it.
#[verifier::external_body]
fn calendar_seconds(secs: i64) -> (r: Option<(i64, u32)>)
    ensures
        r == if in_calendar(secs as int) {
            Some((secs, 0u32))
        } else {
            None
        },
{
    DateTime::from_timestamp(secs, 0).map(
        |t: DateTime<Utc>| (t.timestamp(), t.timestamp_subsec_nanos()),
    )
}

impl Timestamp {
    /// The point `millis` milliseconds after the start of 1970, if there is one.
    pub fn from_millis(millis: i64) -> (r: Option<Timestamp>)
        ensures
            r is Some <==> in_calendar(millis as int / 1000),
            r matches Some(t) ==> t.valid() && t.nanos() == millis * 1_000_000,
    {
        match calendar_millis(millis) {
            Some((secs, subsec)) => Some(Timestamp { secs, subsec }),
            None => None,
        }
    }

    /// The point `secs` seconds after the start of 1970, if there is one.
    pub fn from_secs(secs: i64) -> (r: Option<Timestamp>)
        ensures
            r is Some <==> in_calendar(secs as int),
            r matches Some(t) ==> t.valid() && t.nanos() == secs * NANOS_PER_SEC,
    {
        match calendar_seconds(secs) {
            Some((s, subsec)) => Some(Timestamp { secs: s, subsec }),
            None => None,
        }
    }
}

/// An unsigned count read as a signed one, as a cast reads it.
pub open spec fn as_signed(n: u64) -> int {
    if n <= i64::MAX {
        n as int
    } else {
        n - 0x1_0000_0000_0000_0000
    }
}

/// An unsigned count read as a signed one.
pub fn signed(n: u64) -> (r: i64)
    ensures
        r == as_signed(n),
{
    if n <= i64::MAX as u64 {
        n as i64
    } else {
        -((u64::MAX - n) as i64) - 1
    }
}

/// The seconds between two points are whole ones, and none where the first lies
/// earlier; they do not change when both points move.
pub proof fn lemma_elapsed(now: int, earlier: int, shift: int)
    ensures
        now >= earlier ==> 0 <= now - earlier - elapsed(now, earlier) * 1_000_000_000
            < 1_000_000_000,
        now < earlier ==> elapsed(now, earlier) == 0,
        elapsed(now + shift, earlier + shift) == elapsed(now, earlier),
{
}

/// A day has 86,400 seconds, counted from midnight, before 1970 as after.
pub proof fn lemma_day(t: Timestamp)
    ensures
        0 <= t.seconds() - t.day() * 86_400 < 86_400,
{
}

/// Dropping the fraction keeps the sign and loses less than one.
pub proof fn lemma_truncated(a: int, b: int)
    requires
        b > 0,
    ensures
        a >= 0 ==> 0 <= a - truncated(a, b) * b < b,
        a <= 0 ==> 0 <= truncated(a, b) * b - a < b,
        truncated(-a, b) == -truncated(a, b),
{
    let n = if a >= 0 { a } else { -a };
    let q = n / b;
    assert(0 <= n - q * b < b) by (nonlinear_arith)
        requires
            b > 0,
            q == n / b,
    ;
    assert((-q) * b == -(q * b)) by (nonlinear_arith);
    if a == 0 {
        assert(0int / b == 0) by (nonlinear_arith)
            requires
                b > 0,
        ;
    }
}

} // verus!
