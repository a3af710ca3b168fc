//! Price moves over rolling windows.

use crate::indicators::price_aggregator;
use crate::indicators::price_aggregator::bps_change;
use crate::number::algebra;
use crate::number::binary64::Binary64;
use crate::utils::clock;
use crate::utils::clock::Timestamp;
use crate::utils::ring_buffer::RingBuffer;
use vstd::prelude::*;

verus! {

/// How far from its target time a sample may lie, in milliseconds.
pub const MAX_OFFSET_MILLIS: i64 = 2000;

/// Tracks rolling momentum over configurable windows (e.g. 5s, 15s).
/// Momentum = (latest_price - price_N_seconds_ago) / price_N_seconds_ago * 10000 bps
#[derive(Debug)]
pub struct MomentumTracker {
    /// Ring buffer of (timestamp, price) tuples.
    samples: RingBuffer<(Timestamp, Binary64)>,
    /// Short window in seconds (e.g. 5s).
    short_window_secs: i64,
    /// Long window in seconds (e.g. 15s).
    long_window_secs: i64,
}

/// Momentum readings at both windows.
#[derive(Debug, Clone, Copy, PartialEq)]
pub struct MomentumState {
    /// BPS change over the short window.
    pub short_bps: Binary64,
    /// BPS change over the long window.
    pub long_bps: Binary64,
    /// Acceleration: short_bps - long_bps (positive = accelerating).
    pub acceleration: Binary64,
    pub latest_price: Binary64,
}

/// How far two points lie apart, in whole milliseconds.
pub open spec fn millis_apart(a: int, b: int) -> int {
    (if a >= b {
        a - b
    } else {
        b - a
    }) / 1_000_000
}

/// The position of the sample closest to a time: of several that are equally
/// close, the oldest.
pub open spec fn closest(samples: Seq<(Timestamp, Binary64)>, target: int) -> int
    decreases samples.len(),
{
    if samples.len() <= 1 {
        0
    } else {
        let best = closest(samples.drop_last(), target);
        if millis_apart(samples.last().0.nanos(), target) < millis_apart(
            samples[best].0.nanos(),
            target,
        ) {
            samples.len() - 1
        } else {
            best
        }
    }
}

/// The price closest to a time, if it lies within two seconds of it.
pub open spec fn price_near(samples: Seq<(Timestamp, Binary64)>, target: int) -> Option<Binary64> {
    if samples.len() == 0 {
        None
    } else {
        let best = samples[closest(samples, target)];
        if millis_apart(best.0.nanos(), target) <= MAX_OFFSET_MILLIS {
            Some(best.1)
        } else {
            None
        }
    }
}

/// The change over a window, in basis points; zero where the window has no
/// price at its start.
pub open spec fn window_bps(samples: Seq<(Timestamp, Binary64)>, secs: i64) -> Binary64 {
    match price_near(samples, samples.last().0.nanos() - secs * clock::NANOS_PER_SEC) {
        Some(past) => price_aggregator::change_bps(past, samples.last().1),
        None => Binary64::nothing(),
    }
}

/// The readings over two windows, if there is a sample.
pub open spec fn momentum_of(
    samples: Seq<(Timestamp, Binary64)>,
    short_secs: i64,
    long_secs: i64,
) -> Option<MomentumState> {
    if samples.len() == 0 {
        None
    } else {
        let short_bps = window_bps(samples, short_secs);
        let long_bps = window_bps(samples, long_secs);
        Some(
            MomentumState {
                short_bps,
                long_bps,
                acceleration: short_bps.difference(long_bps),
                latest_price: samples.last().1,
            },
        )
    }
}

/// How many samples are kept for a long window.
pub open spec fn room_for(long_secs: int) -> nat {
    if long_secs + 5 > 32 {
        (long_secs + 5) as nat
    } else {
        32
    }
}

/// There is room for a sample a second over the long window and five more, and for
/// 32 at least.
pub proof fn lemma_room(long_secs: int)
    requires
        0 <= long_secs,
    ensures
        room_for(long_secs) >= long_secs + 5,
        room_for(long_secs) >= 32,
        long_secs <= 27 ==> room_for(long_secs) == 32,
        long_secs >= 27 ==> room_for(long_secs) == long_secs + 5,
{
}

impl MomentumTracker {
    /// The samples held, from oldest to newest.
    pub closed spec fn held(&self) -> Seq<(Timestamp, Binary64)> {
        self.samples@
    }

    /// How many samples can be held.
    pub closed spec fn room(&self) -> nat {
        self.samples.room()
    }

    pub closed spec fn short_window(&self) -> i64 {
        self.short_window_secs
    }

    pub closed spec fn long_window(&self) -> i64 {
        self.long_window_secs
    }

    #[verifier::type_invariant]
    spec fn inv(self) -> bool {
        self.samples.wf() && self.samples.room() > 0
    }

    /// A tracker with room for the long window at one sample per second, and for
    /// 32 samples at least.
    pub fn new(short_window_secs: i64, long_window_secs: i64) -> (r: Self)
        requires
            0 <= long_window_secs <= usize::MAX - 5,
        ensures
            r.held() == Seq::<(Timestamp, Binary64)>::empty(),
            r.room() == room_for(long_window_secs as int),
            r.short_window() == short_window_secs,
            r.long_window() == long_window_secs,
    {
        let wanted: usize = long_window_secs as usize + 5;
        let capacity: usize = if wanted > 32 { wanted } else { 32 };
        MomentumTracker { samples: RingBuffer::new(capacity), short_window_secs, long_window_secs }
    }

    /// Push a new price sample.
    pub fn push(&mut self, price: Binary64, ts: Timestamp)
        ensures
            final(self).held() == if old(self).held().len() < old(self).room() {
                old(self).held().push((ts, price))
            } else {
                old(self).held().drop_first().push((ts, price))
            },
            final(self).room() == old(self).room(),
            final(self).short_window() == old(self).short_window(),
            final(self).long_window() == old(self).long_window(),
    {
        proof {
            use_type_invariant(&*self);
        }
        let mut samples: RingBuffer<(Timestamp, Binary64)> = RingBuffer::new(1);
        std::mem::swap(&mut self.samples, &mut samples);
        samples.push((ts, price));
        self.samples = samples;
    }

    /// Compute current momentum state.
    pub fn compute(&self) -> (r: Option<MomentumState>)
        requires
            self.held().len() > 0 ==> {
                let now = self.held().last().0.seconds();
                clock::in_calendar(now - self.short_window()) && clock::in_calendar(
                    now - self.long_window(),
                )
            },
        ensures
            r == momentum_of(self.held(), self.short_window(), self.long_window()),
    {
        proof {
            use_type_invariant(self);
        }
        let (now, current_price) = match self.samples.latest() {
            Some(latest) => (latest.0, latest.1),
            None => return None,
        };
        let short_price: Option<Binary64> = self.price_at_offset(now, self.short_window_secs);
        let long_price: Option<Binary64> = self.price_at_offset(now, self.long_window_secs);
        let short_bps: Binary64 = match short_price {
            Some(p) => bps_change(p, current_price),
            None => Binary64::zero(),
        };
        let long_bps: Binary64 = match long_price {
            Some(p) => bps_change(p, current_price),
            None => Binary64::zero(),
        };
        Some(
            MomentumState {
                short_bps,
                long_bps,
                acceleration: short_bps.minus(long_bps),
                latest_price: current_price,
            },
        )
    }

    /// Find the price closest to `now - offset_secs` in our buffer.
    fn price_at_offset(&self, now: Timestamp, offset_secs: i64) -> (r: Option<Binary64>)
        requires
            clock::in_calendar(now.seconds() - offset_secs),
        ensures
            r == price_near(self.held(), now.nanos() - offset_secs * clock::NANOS_PER_SEC),
    {
        proof {
            use_type_invariant(self);
        }
        let target: Timestamp = now.minus_secs(offset_secs);
        let ghost all = self.samples@;
        let ghost goal = target.nanos();
        let mut best: Option<(i64, Binary64)> = None;
        let mut rest = self.samples.iter();
        let mut count: usize = 0;
        let len: usize = self.samples.len();
        assert(all.skip(0) =~= all);
        while count < len
            invariant
                rest.wf(),
                count <= len == all.len(),
                rest@ == all.skip(count as int),
                goal == target.nanos(),
                count == 0 ==> best is None,
                count > 0 ==> {
                    let i = closest(all.take(count as int), goal);
                    &&& 0 <= i < count
                    &&& best == Some((millis_apart(all[i].0.nanos(), goal) as i64, all[i].1))
                    &&& millis_apart(all[i].0.nanos(), goal) <= i64::MAX
                },
            decreases len - count,
        {
            let ghost k = count as int;
            assert(all.take(k + 1).drop_last() =~= all.take(k));
            if let Some(sample) = rest.next() {
                assert(*sample == all[k]);
                let away: i64 = sample.0.millis_since(target);
                let diff: i64 = if away < 0 { -away } else { away };
                assert(diff == millis_apart(all[k].0.nanos(), goal));
                best = match best {
                    Some((best_diff, price)) => if diff < best_diff {
                        Some((diff, sample.1))
                    } else {
                        Some((best_diff, price))
                    },
                    None => Some((diff, sample.1)),
                };
            }
            assert(rest@ =~= all.skip(k + 1));
            count = count + 1;
        }
        assert(all.take(len as int) =~= all);
        match best {
            Some((diff, price)) => if diff <= MAX_OFFSET_MILLIS {
                Some(price)
            } else {
                None
            },
            None => None,
        }
    }

    pub fn clear(&mut self)
        ensures
            final(self).held() == Seq::<(Timestamp, Binary64)>::empty(),
            final(self).room() == old(self).room(),
            final(self).short_window() == old(self).short_window(),
            final(self).long_window() == old(self).long_window(),
    {
        proof {
            use_type_invariant(&*self);
        }
        let mut samples: RingBuffer<(Timestamp, Binary64)> = RingBuffer::new(1);
        std::mem::swap(&mut self.samples, &mut samples);
        samples.clear();
        self.samples = samples;
    }
}

/// The closest sample is at least as close as every other one.
pub proof fn lemma_closest(samples: Seq<(Timestamp, Binary64)>, target: int, i: int)
    requires
        0 <= i < samples.len(),
    ensures
        0 <= closest(samples, target) < samples.len(),
        millis_apart(samples[closest(samples, target)].0.nanos(), target) <= millis_apart(
            samples[i].0.nanos(),
            target,
        ),
    decreases samples.len(),
{
    if samples.len() > 1 {
        if i < samples.len() - 1 {
            lemma_closest(samples.drop_last(), target, i);
        } else {
            lemma_closest(samples.drop_last(), target, 0);
        }
    }
}

/// The whole milliseconds from a sample to a point, either way.
pub open spec fn millis_off(sample: (Timestamp, Binary64), target: int) -> int {
    if sample.0.nanos() <= target {
        (target - sample.0.nanos()) / 1_000_000
    } else {
        (sample.0.nanos() - target) / 1_000_000
    }
}

/// Whether a sample stands for the start of a window that ends with the newest
/// one: it lies no more than two seconds off, no other lies closer, and no older
/// one as close.
pub open spec fn starts_window(samples: Seq<(Timestamp, Binary64)>, secs: i64, i: int) -> bool {
    let start = samples.last().0.nanos() - secs * 1_000_000_000;
    &&& 0 <= i < samples.len()
    &&& millis_off(samples[i], start) <= 2000
    &&& forall|j: int|
        0 <= j < samples.len() ==> millis_off(samples[i], start) <= #[trigger] millis_off(
            samples[j],
            start,
        )
    &&& forall|j: int|
        0 <= j < i ==> millis_off(samples[i], start) < #[trigger] millis_off(samples[j], start)
}

proof fn lemma_closest_is_oldest(samples: Seq<(Timestamp, Binary64)>, target: int)
    requires
        samples.len() > 0,
    ensures
        ({
            let i = closest(samples, target);
            &&& 0 <= i < samples.len()
            &&& forall|j: int|
                0 <= j < samples.len() ==> millis_off(samples[i], target) <= #[trigger] millis_off(
                    samples[j],
                    target,
                )
            &&& forall|j: int|
                0 <= j < i ==> millis_off(samples[i], target) < #[trigger] millis_off(
                    samples[j],
                    target,
                )
        }),
    decreases samples.len(),
{
    if samples.len() > 1 {
        let rest = samples.drop_last();
        lemma_closest_is_oldest(rest, target);
        let best = closest(rest, target);
        assert(rest[best] == samples[best]);
        assert forall|j: int| 0 <= j < samples.len() - 1 implies millis_off(samples[best], target)
            <= #[trigger] millis_off(samples[j], target) by {
            assert(millis_off(rest[j], target) == millis_off(samples[j], target));
        }
        assert forall|j: int| 0 <= j < best implies millis_off(samples[best], target)
            < #[trigger] millis_off(samples[j], target) by {
            assert(millis_off(rest[j], target) == millis_off(samples[j], target));
        }
    }
}

/// The sample that stands for the start of a window gives its price; without such
/// a sample there is none.
proof fn lemma_window_start(samples: Seq<(Timestamp, Binary64)>, secs: i64)
    requires
        samples.len() > 0,
    ensures
        ({
            let start = samples.last().0.nanos() - secs * 1_000_000_000;
            let p = price_near(samples, start);
            &&& forall|i: int|
                #[trigger] starts_window(samples, secs, i) ==> p == Some(samples[i].1)
            &&& p is Some ==> exists|i: int| #[trigger] starts_window(samples, secs, i)
        }),
{
    let start = samples.last().0.nanos() - secs * 1_000_000_000;
    lemma_closest_is_oldest(samples, start);
    let best = closest(samples, start);
    assert forall|i: int| #[trigger] starts_window(samples, secs, i) implies price_near(
        samples,
        start,
    ) == Some(samples[i].1) by {
        assert(millis_off(samples[i], start) <= millis_off(samples[best], start));
        assert(millis_off(samples[best], start) <= millis_off(samples[i], start));
        if i < best {
            assert(millis_off(samples[best], start) < millis_off(samples[i], start));
        } else if best < i {
            assert(millis_off(samples[i], start) < millis_off(samples[best], start));
        }
    }
    if price_near(samples, start) is Some {
        assert(starts_window(samples, secs, best));
    }
}

/// The momentum over a window has the sign of the latest price less the price at
/// the start of the window: negative for a fall, positive for a rise, nothing
/// where the prices are equal; twice the price is ten thousand basis points.
pub proof fn lemma_momentum_has_sign(
    samples: Seq<(Timestamp, Binary64)>,
    secs: i64,
    i: int,
)
    requires
        samples.len() > 0,
        starts_window(samples, secs, i),
        samples[i].1.finite(),
        Binary64::nothing().less(samples[i].1),
        samples.last().1.finite(),
        Binary64::nothing().at_most(samples.last().1),
    ensures
        ({
            let past = samples[i].1;
            let latest = samples.last().1;
            let bps = window_bps(samples, secs);
            &&& past.less(latest) ==> Binary64::nothing().less(bps)
            &&& latest.less(past) ==> bps.less(Binary64::nothing())
            &&& latest.units() == past.units() ==> bps.rank() == 0
            &&& latest.units() == 2 * past.units() ==> bps == Binary64::of_nat(10_000)
        }),
{
    lemma_window_start(samples, secs);
    let past = samples[i].1;
    let latest = samples.last().1;
    price_aggregator::lemma_move_has_direction(past, latest);
    price_aggregator::lemma_move_scale(past, latest);
}

/// Without a sample at the start of the window there is no momentum.
pub proof fn lemma_no_window_no_momentum(samples: Seq<(Timestamp, Binary64)>, secs: i64)
    requires
        samples.len() > 0,
        forall|i: int| !(#[trigger] starts_window(samples, secs, i)),
    ensures
        window_bps(samples, secs) == Binary64::nothing(),
{
    lemma_window_start(samples, secs);
}

/// Only the latest price and the one at the start of a window matter: with other
/// prices in between, and at other times, the momentum is the same.
pub proof fn lemma_momentum_rests_on_two_prices(
    samples: Seq<(Timestamp, Binary64)>,
    other: Seq<(Timestamp, Binary64)>,
    secs: i64,
    other_secs: i64,
    i: int,
    j: int,
)
    requires
        samples.len() > 0,
        other.len() > 0,
        starts_window(samples, secs, i),
        starts_window(other, other_secs, j),
        samples[i].1 == other[j].1,
        samples.last().1 == other.last().1,
    ensures
        window_bps(samples, secs) == window_bps(other, other_secs),
{
    lemma_window_start(samples, secs);
    lemma_window_start(other, other_secs);
}

/// What the readings are: each window has its own momentum, the latest price is
/// that of the newest sample, and the acceleration is positive where the short
/// window moves up faster than the long one, and negative where it moves slower.
pub proof fn lemma_readings(
    samples: Seq<(Timestamp, Binary64)>,
    short_secs: i64,
    long_secs: i64,
)
    ensures
        momentum_of(samples, short_secs, long_secs) is Some <==> samples.len() > 0,
        samples.len() > 0 ==> {
            let m = momentum_of(samples, short_secs, long_secs)->0;
            &&& m.short_bps == window_bps(samples, short_secs)
            &&& m.long_bps == window_bps(samples, long_secs)
            &&& m.latest_price == samples.last().1
            &&& m.short_bps.finite() && m.long_bps.finite() ==> {
                &&& m.long_bps.less(m.short_bps) <==> Binary64::nothing().less(m.acceleration)
                &&& m.short_bps.less(m.long_bps) <==> m.acceleration.less(Binary64::nothing())
            }
            &&& m.short_bps.finite() && m.long_bps.rank() == 0 && m.short_bps.units() != 0
                ==> m.acceleration == m.short_bps
        },
{
    if samples.len() > 0 {
        let m = momentum_of(samples, short_secs, long_secs)->0;
        if m.short_bps.finite() && m.long_bps.finite() {
            algebra::lemma_difference_sign(m.short_bps, m.long_bps);
        }
        algebra::lemma_negated(m.long_bps);
        if m.short_bps.finite() && m.long_bps.rank() == 0 && m.short_bps.units() != 0 {
            algebra::lemma_plus_zero(m.short_bps, m.long_bps.negated());
        }
    }
}

} // verus!
