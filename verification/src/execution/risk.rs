//! Limits on what may be risked.

use crate::number::binary64::Binary64;
use crate::utils::clock;
use crate::utils::clock::{signed, utc_now, Timestamp, FIRST_SECOND, LAST_SECOND};
use crate::utils::name_map::NameMap;
use vstd::prelude::*;
use vstd::string::*;

verus! {

/// Risk manager enforcing position limits, daily loss caps, and cooldowns.
#[derive(Debug)]
pub struct RiskManager {
    /// Max concurrent open positions per asset.
    max_concurrent_positions: usize,
    /// Max daily loss before halting trading.
    max_daily_loss_usd: Binary64,
    /// Number of consecutive losses before cooldown triggers.
    cooldown_trigger_losses: u32,
    /// Cooldown duration in seconds.
    cooldown_duration_secs: u64,
    /// Current open positions per asset.
    open_positions: NameMap<usize>,
    /// Cooldown expiry time (None = no cooldown active).
    cooldown_until: Option<Timestamp>,
    /// Whether trading is halted for the day.
    daily_halt: bool,
}

/// Reasons for rejecting a trade.
#[derive(Debug, Clone, PartialEq, Eq)]
pub enum RiskVeto {
    DailyLossLimitReached,
    MaxPositionsReached { asset: String, current: usize },
    CooldownActive { expires_in_secs: u64 },
    TradingHalted,
}

/// The limits that a risk manager enforces.
#[derive(Debug, Clone, Copy, PartialEq)]
pub struct RiskLimits {
    pub max_concurrent_positions: usize,
    pub max_daily_loss_usd: Binary64,
    pub cooldown_trigger_losses: u32,
    pub cooldown_duration_secs: u64,
}

/// How many positions are open in an asset.
pub open spec fn count_in(counts: Map<Seq<char>, usize>, asset: Seq<char>) -> usize {
    if counts.contains_key(asset) {
        counts[asset]
    } else {
        0
    }
}

/// The open positions with one more in an asset.
pub open spec fn opened(counts: Map<Seq<char>, usize>, asset: Seq<char>) -> Map<
    Seq<char>,
    usize,
> {
    counts.insert(asset, (count_in(counts, asset) + 1) as usize)
}

/// The open positions with one less in an asset, if there is one.
pub open spec fn closed_one(counts: Map<Seq<char>, usize>, asset: Seq<char>) -> Map<
    Seq<char>,
    usize,
> {
    if !counts.contains_key(asset) {
        counts
    } else if counts[asset] > 0 {
        counts.insert(asset, (counts[asset] - 1) as usize)
    } else {
        counts
    }
}

/// Closing a position undoes its opening, and neither touches another asset.
pub proof fn lemma_close_undoes_open(
    counts: Map<Seq<char>, usize>,
    asset: Seq<char>,
    other: Seq<char>,
)
    requires
        count_in(counts, asset) < usize::MAX,
    ensures
        count_in(opened(counts, asset), asset) == count_in(counts, asset) + 1,
        count_in(closed_one(opened(counts, asset), asset), other) == count_in(counts, other),
{
}

impl RiskManager {
    pub closed spec fn limits(&self) -> RiskLimits {
        RiskLimits {
            max_concurrent_positions: self.max_concurrent_positions,
            max_daily_loss_usd: self.max_daily_loss_usd,
            cooldown_trigger_losses: self.cooldown_trigger_losses,
            cooldown_duration_secs: self.cooldown_duration_secs,
        }
    }

    /// The assets that positions were opened in, with how many are open.
    pub closed spec fn counts(&self) -> Map<Seq<char>, usize> {
        self.open_positions@
    }

    /// How many positions are open in an asset.
    pub open spec fn open_in(&self, asset: Seq<char>) -> usize {
        count_in(self.counts(), asset)
    }

    /// When the cooldown ends, if one was started.
    pub closed spec fn cooldown(&self) -> Option<Timestamp> {
        self.cooldown_until
    }

    pub closed spec fn halted(&self) -> bool {
        self.daily_halt
    }

    pub open spec fn cooling(&self, now: Timestamp) -> bool {
        self.cooldown() matches Some(until) && now.nanos() < until.nanos()
    }

    /// Whether a result of the day is a loss that reaches the limit.
    pub open spec fn exceeds_daily_loss(&self, daily_pnl: Binary64) -> bool {
        daily_pnl.at_most(self.limits().max_daily_loss_usd.negated())
    }

    /// Whether `r` is the answer to a new trade: the first reason against it, in
    /// the order of halt, daily loss, open positions, cooldown, and losses in a
    /// row for which no cooldown was started yet; and consent if there is none.
    pub open spec fn answers(
        &self,
        r: Result<(), RiskVeto>,
        asset: Seq<char>,
        daily_pnl: Binary64,
        consecutive_losses: u32,
        now: Timestamp,
    ) -> bool {
        if self.halted() {
            r == Err::<(), RiskVeto>(RiskVeto::TradingHalted)
        } else if self.exceeds_daily_loss(daily_pnl) {
            r == Err::<(), RiskVeto>(RiskVeto::DailyLossLimitReached)
        } else if self.open_in(asset) >= self.limits().max_concurrent_positions {
            r matches Err(RiskVeto::MaxPositionsReached { asset: named, current }) && named@ == asset
                && current == self.open_in(asset)
        } else if self.cooling(now) {
            r matches Err(RiskVeto::CooldownActive { expires_in_secs }) && expires_in_secs
                == clock::elapsed(self.cooldown()->Some_0.nanos(), now.nanos())
        } else if consecutive_losses >= self.limits().cooldown_trigger_losses
            && self.cooldown() is None {
            r == Err::<(), RiskVeto>(
                RiskVeto::CooldownActive { expires_in_secs: self.limits().cooldown_duration_secs },
            )
        } else {
            r is Ok
        }
    }

    /// Whether a trade is allowed.
    pub open spec fn allows(
        &self,
        asset: Seq<char>,
        daily_pnl: Binary64,
        consecutive_losses: u32,
        now: Timestamp,
    ) -> bool {
        &&& !self.halted()
        &&& !self.exceeds_daily_loss(daily_pnl)
        &&& self.open_in(asset) < self.limits().max_concurrent_positions
        &&& !self.cooling(now)
        &&& consecutive_losses < self.limits().cooldown_trigger_losses || self.cooldown() is Some
    }

    pub fn new(
        max_concurrent_positions: usize,
        max_daily_loss_usd: Binary64,
        cooldown_trigger_losses: u32,
        cooldown_duration_secs: u64,
    ) -> (r: Self)
        ensures
            r.limits() == (RiskLimits {
                max_concurrent_positions,
                max_daily_loss_usd,
                cooldown_trigger_losses,
                cooldown_duration_secs,
            }),
            r.counts() == Map::<Seq<char>, usize>::empty(),
            r.cooldown() is None,
            !r.halted(),
    {
        RiskManager {
            max_concurrent_positions,
            max_daily_loss_usd,
            cooldown_duration_secs,
            cooldown_trigger_losses,
            open_positions: NameMap::new(),
            cooldown_until: None,
            daily_halt: false,
        }
    }

    /// Check if a new trade is allowed for the given asset at a time.
    /// Returns Ok(()) if allowed, Err(RiskVeto) if rejected.
    pub fn check_entry_at(
        &self,
        asset: &str,
        daily_pnl: Binary64,
        consecutive_losses: u32,
        now: Timestamp,
    ) -> (r: Result<(), RiskVeto>)
        ensures
            self.answers(r, asset@, daily_pnl, consecutive_losses, now),
            r is Ok <==> self.allows(asset@, daily_pnl, consecutive_losses, now),
    {
        // Daily halt
        if self.daily_halt {
            return Err(RiskVeto::TradingHalted);
        }
        // Daily loss limit
        if daily_pnl.is_at_most(self.max_daily_loss_usd.negate()) {
            return Err(RiskVeto::DailyLossLimitReached);
        }
        // Position limit
        let current: usize = self.open_position_count(asset);
        if current >= self.max_concurrent_positions {
            return Err(RiskVeto::MaxPositionsReached { asset: asset.to_owned(), current });
        }
        // Cooldown
        if let Some(until) = self.cooldown_until {
            if now.is_before(until) {
                return Err(RiskVeto::CooldownActive { expires_in_secs: until.elapsed_secs(now) });
            }
        }
        // Check if cooldown should trigger (based on consecutive losses)
        if consecutive_losses >= self.cooldown_trigger_losses && self.cooldown_until.is_none() {
            return Err(
                RiskVeto::CooldownActive { expires_in_secs: self.cooldown_duration_secs },
            );
        }
        Ok(())
    }

    /// Check if a new trade is allowed for the given asset.
    /// Returns Ok(()) if allowed, Err(RiskVeto) if rejected.
    pub fn check_entry(&self, asset: &str, daily_pnl: Binary64, consecutive_losses: u32) -> (r:
        Result<(), RiskVeto>)
        ensures
            exists|now: Timestamp| #[trigger]
                now.valid() && self.answers(r, asset@, daily_pnl, consecutive_losses, now),
    {
        self.check_entry_at(asset, daily_pnl, consecutive_losses, utc_now())
    }

    /// Called when a new position is opened.
    pub fn on_position_opened(&mut self, asset: &str)
        requires
            old(self).open_in(asset@) < usize::MAX,
        ensures
            final(self).counts() == opened(old(self).counts(), asset@),
            final(self).limits() == old(self).limits(),
            final(self).cooldown() == old(self).cooldown(),
            final(self).halted() == old(self).halted(),
    {
        let current: usize = self.open_position_count(asset);
        self.open_positions.insert(asset.to_owned(), current + 1);
    }

    /// Called when a position is closed (locked, force-closed, or expired).
    pub fn on_position_closed(&mut self, asset: &str)
        ensures
            final(self).counts() == closed_one(old(self).counts(), asset@),
            final(self).limits() == old(self).limits(),
            final(self).cooldown() == old(self).cooldown(),
            final(self).halted() == old(self).halted(),
    {
        if let Some(count) = self.open_positions.get_mut(asset) {
            if *count > 0 {
                *count = *count - 1;
            }
        }
    }

    /// Whether a cooldown that starts at a time ends within the calendar.
    pub open spec fn cooldown_fits(&self, now: Timestamp) -> bool {
        clock::in_calendar(
            now.seconds() + clock::as_signed(self.limits().cooldown_duration_secs),
        )
    }

    /// Whether a cooldown that starts at a time ends within the calendar.
    pub fn can_cool_down(&self, now: Timestamp) -> (r: bool)
        ensures
            r == self.cooldown_fits(now),
    {
        let end: i128 = now.timestamp() as i128 + signed(self.cooldown_duration_secs) as i128;
        FIRST_SECOND as i128 <= end && end <= LAST_SECOND as i128
    }

    /// Whether so many losses in a row ask for a cooldown.
    pub open spec fn wants_cooldown(&self, consecutive_losses: u32) -> bool {
        consecutive_losses >= self.limits().cooldown_trigger_losses
    }

    /// Whether so many losses in a row ask for a cooldown.
    pub fn is_cooldown_due(&self, consecutive_losses: u32) -> (r: bool)
        ensures
            r == self.wants_cooldown(consecutive_losses),
    {
        consecutive_losses >= self.cooldown_trigger_losses
    }

    /// Whether a cooldown was started at a time.
    pub open spec fn cooldown_from(&self, now: Timestamp) -> bool {
        &&& self.cooldown() is Some
        &&& self.cooldown()->Some_0.nanos() == now.nanos() + clock::as_signed(
            self.limits().cooldown_duration_secs,
        ) * clock::NANOS_PER_SEC
    }

    /// Activate cooldown at a time.
    pub fn activate_cooldown_at(&mut self, now: Timestamp)
        requires
            old(self).cooldown_fits(now),
        ensures
            final(self).cooldown_from(now),
            final(self).counts() == old(self).counts(),
            final(self).limits() == old(self).limits(),
            final(self).halted() == old(self).halted(),
    {
        self.cooldown_until = Some(now.plus_secs(signed(self.cooldown_duration_secs)));
    }

    /// Activate cooldown (called after consecutive loss threshold hit). Leaves
    /// things as they are and says so where the cooldown would end outside the
    /// calendar.
    pub fn activate_cooldown(&mut self) -> (r: bool)
        ensures
            final(self).counts() == old(self).counts(),
            final(self).limits() == old(self).limits(),
            final(self).halted() == old(self).halted(),
            exists|now: Timestamp| #[trigger]
                now.valid() && r == old(self).cooldown_fits(now) && if r {
                    final(self).cooldown_from(now)
                } else {
                    final(self).cooldown() == old(self).cooldown()
                },
    {
        let now: Timestamp = utc_now();
        assert(now.valid());
        if self.can_cool_down(now) {
            self.activate_cooldown_at(now);
            true
        } else {
            false
        }
    }

    /// Check and trigger daily halt if needed.
    pub fn check_daily_halt(&mut self, daily_pnl: Binary64)
        ensures
            final(self).halted() == (old(self).halted() || old(self).exceeds_daily_loss(daily_pnl)),
            final(self).counts() == old(self).counts(),
            final(self).limits() == old(self).limits(),
            final(self).cooldown() == old(self).cooldown(),
    {
        if daily_pnl.is_at_most(self.max_daily_loss_usd.negate()) && !self.daily_halt {
            self.daily_halt = true;
        }
    }

    /// Reset for a new trading day.
    pub fn reset_daily(&mut self)
        ensures
            !final(self).halted(),
            final(self).cooldown() is None,
            final(self).counts() == old(self).counts(),
            final(self).limits() == old(self).limits(),
    {
        self.daily_halt = false;
        self.cooldown_until = None;
    }

    /// Lifts the halt for a new trading day, and leaves a cooldown as it is.
    pub fn lift_halt(&mut self)
        ensures
            !final(self).halted(),
            final(self).cooldown() == old(self).cooldown(),
            final(self).counts() == old(self).counts(),
            final(self).limits() == old(self).limits(),
    {
        self.daily_halt = false;
    }

    pub fn is_halted(&self) -> (r: bool)
        ensures
            r == self.halted(),
    {
        self.daily_halt
    }

    pub fn open_position_count(&self, asset: &str) -> (r: usize)
        ensures
            r == self.open_in(asset@),
    {
        match self.open_positions.get(asset) {
            Some(count) => *count,
            None => 0,
        }
    }

    pub fn open_positions(&self, asset: &str) -> (r: usize)
        ensures
            r == self.open_in(asset@),
    {
        self.open_position_count(asset)
    }

    pub fn cooldown_active_at(&self, now: Timestamp) -> (r: bool)
        ensures
            r == self.cooling(now),
    {
        match self.cooldown_until {
            Some(until) => now.is_before(until),
            None => false,
        }
    }

    pub fn cooldown_active(&self) -> (r: bool)
        ensures
            exists|now: Timestamp| #[trigger] now.valid() && r == self.cooling(now),
    {
        self.cooldown_active_at(utc_now())
    }
}

/// A cooldown ends: once its time is over, the losses in a row that it was
/// started for are no reason against a trade any more.
pub proof fn lemma_cooldown_ends(
    risk: &RiskManager,
    started: Timestamp,
    asset: Seq<char>,
    daily_pnl: Binary64,
    consecutive_losses: u32,
    now: Timestamp,
)
    requires
        risk.cooldown_from(started),
        now.nanos() >= started.nanos() + clock::as_signed(risk.limits().cooldown_duration_secs)
            * clock::NANOS_PER_SEC,
    ensures
        risk.allows(asset, daily_pnl, consecutive_losses, now) <==> !risk.halted()
            && !risk.exceeds_daily_loss(daily_pnl) && risk.open_in(asset)
            < risk.limits().max_concurrent_positions,
{
}

/// During a cooldown nothing is traded.
pub proof fn lemma_cooldown_stops_trading(
    risk: &RiskManager,
    started: Timestamp,
    asset: Seq<char>,
    daily_pnl: Binary64,
    consecutive_losses: u32,
    now: Timestamp,
)
    requires
        risk.cooldown_from(started),
        now.nanos() < started.nanos() + clock::as_signed(risk.limits().cooldown_duration_secs)
            * clock::NANOS_PER_SEC,
    ensures
        !risk.allows(asset, daily_pnl, consecutive_losses, now),
{
}

/// A halt stops every trade until the day is reset, whatever else holds.
pub proof fn lemma_halt_stops_trading(
    risk: &RiskManager,
    asset: Seq<char>,
    daily_pnl: Binary64,
    consecutive_losses: u32,
    now: Timestamp,
)
    requires
        risk.halted(),
    ensures
        !risk.allows(asset, daily_pnl, consecutive_losses, now),
{
}

/// What an allowed trade tells: nothing is halted, the day is not lost down to
/// the limit, the asset has room for a position, no cooldown runs, and so many
/// losses in a row as ask for one have had theirs. And a trade for which all of
/// that holds is allowed.
pub proof fn lemma_allowed_trade(
    risk: &RiskManager,
    asset: Seq<char>,
    daily_pnl: Binary64,
    consecutive_losses: u32,
    now: Timestamp,
)
    ensures
        risk.allows(asset, daily_pnl, consecutive_losses, now) <==> {
            let limits = risk.limits();
            let open = if risk.counts().contains_key(asset) {
                risk.counts()[asset] as int
            } else {
                0
            };
            &&& !risk.halted()
            &&& !daily_pnl.at_most(limits.max_daily_loss_usd.negated())
            &&& open < limits.max_concurrent_positions
            &&& risk.cooldown() is Some ==> risk.cooldown()->0.nanos() <= now.nanos()
            &&& risk.cooldown() is None ==> consecutive_losses < limits.cooldown_trigger_losses
        },
{
}

/// Every refusal has its cause, and names it: a halt, a day that is lost down to
/// the limit, an asset with as many positions as it may have, or a cooldown,
/// which runs for so many whole seconds yet or is due in full.
pub proof fn lemma_refusal_has_cause(
    risk: &RiskManager,
    veto: RiskVeto,
    asset: Seq<char>,
    daily_pnl: Binary64,
    consecutive_losses: u32,
    now: Timestamp,
)
    requires
        risk.answers(Err(veto), asset, daily_pnl, consecutive_losses, now),
    ensures
        !risk.allows(asset, daily_pnl, consecutive_losses, now),
        veto is TradingHalted <==> risk.halted(),
        veto is DailyLossLimitReached <==> !risk.halted() && daily_pnl.at_most(
            risk.limits().max_daily_loss_usd.negated(),
        ),
        veto is MaxPositionsReached <==> !risk.halted() && !daily_pnl.at_most(
            risk.limits().max_daily_loss_usd.negated(),
        ) && risk.open_in(asset) >= risk.limits().max_concurrent_positions,
        veto is MaxPositionsReached ==> {
            &&& veto->MaxPositionsReached_asset@ == asset
            &&& risk.counts().contains_key(asset) ==> veto->current == risk.counts()[asset]
            &&& !risk.counts().contains_key(asset) ==> veto->current == 0
            &&& veto->current >= risk.limits().max_concurrent_positions
        },
        veto is CooldownActive && risk.cooldown() is None ==> {
            &&& consecutive_losses >= risk.limits().cooldown_trigger_losses
            &&& veto->expires_in_secs == risk.limits().cooldown_duration_secs
        },
        veto is CooldownActive && risk.cooldown() is Some ==> {
            let left = risk.cooldown()->0.nanos() - now.nanos();
            &&& left > 0
            &&& 0 <= left - veto->expires_in_secs * 1_000_000_000 < 1_000_000_000
        },
{
}

/// Consent is given exactly where the trade is allowed.
pub proof fn lemma_consent(
    risk: &RiskManager,
    r: Result<(), RiskVeto>,
    asset: Seq<char>,
    daily_pnl: Binary64,
    consecutive_losses: u32,
    now: Timestamp,
)
    requires
        risk.answers(r, asset, daily_pnl, consecutive_losses, now),
    ensures
        r is Ok <==> risk.allows(asset, daily_pnl, consecutive_losses, now),
{
}

/// A better day and fewer losses in a row never stand against a trade, nor does
/// time that goes by.
pub proof fn lemma_better_day_is_allowed(
    risk: &RiskManager,
    asset: Seq<char>,
    daily_pnl: Binary64,
    better_pnl: Binary64,
    consecutive_losses: u32,
    fewer_losses: u32,
    now: Timestamp,
    later: Timestamp,
)
    requires
        risk.allows(asset, daily_pnl, consecutive_losses, now),
        daily_pnl.at_most(better_pnl),
        fewer_losses <= consecutive_losses,
        now.nanos() <= later.nanos(),
    ensures
        risk.allows(asset, better_pnl, fewer_losses, later),
{
}

/// The limit of positions counts each asset by itself: what is open in others
/// does not matter.
pub proof fn lemma_other_assets_do_not_count(
    risk: &RiskManager,
    other: &RiskManager,
    asset: Seq<char>,
    daily_pnl: Binary64,
    consecutive_losses: u32,
    now: Timestamp,
)
    requires
        other.limits() == risk.limits(),
        other.halted() == risk.halted(),
        other.cooldown() == risk.cooldown(),
        other.counts().contains_key(asset) == risk.counts().contains_key(asset),
        risk.counts().contains_key(asset) ==> other.counts()[asset] == risk.counts()[asset],
    ensures
        other.allows(asset, daily_pnl, consecutive_losses, now) == risk.allows(
            asset,
            daily_pnl,
            consecutive_losses,
            now,
        ),
{
}

/// How the counts move: opening adds one, closing takes one away but never goes
/// below none, and neither touches another asset.
pub proof fn lemma_counts_move_by_one(
    counts: Map<Seq<char>, usize>,
    asset: Seq<char>,
    other: Seq<char>,
)
    requires
        count_in(counts, asset) < usize::MAX,
        other != asset,
    ensures
        !counts.contains_key(asset) ==> count_in(counts, asset) == 0,
        counts.contains_key(asset) ==> count_in(counts, asset) == counts[asset],
        count_in(opened(counts, asset), asset) == count_in(counts, asset) + 1,
        count_in(opened(counts, asset), other) == count_in(counts, other),
        count_in(closed_one(counts, asset), other) == count_in(counts, other),
        count_in(counts, asset) > 0 ==> count_in(closed_one(counts, asset), asset) == count_in(
            counts,
            asset,
        ) - 1,
        count_in(counts, asset) == 0 ==> count_in(closed_one(counts, asset), asset) == 0,
{
}

/// Losses in a row ask for a cooldown exactly from their limit on.
pub proof fn lemma_cooldown_is_due(risk: &RiskManager, consecutive_losses: u32, now: Timestamp)
    ensures
        risk.wants_cooldown(consecutive_losses) <==> risk.limits().cooldown_trigger_losses
            <= consecutive_losses,
        risk.cooling(now) <==> risk.cooldown() is Some && now.nanos() < risk.cooldown()->0.nanos(),
{
}

} // verus!
