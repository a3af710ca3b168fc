//! Completed trades and what they brought in.

use crate::number::algebra;
use crate::number::binary64::Binary64;
use crate::number::precision;
use crate::number::rounding;
use crate::utils::ring_buffer;
use crate::utils::clock::Timestamp;
use std::collections::VecDeque;
use vstd::prelude::*;

verus! {

/// How many trades are kept in memory.
pub const MAX_KEPT_TRADES: usize = 1000;

/// Tracks filled orders and computes running PnL.
#[derive(Debug)]
pub struct OrderTracker {
    trades: VecDeque<TradeRecord>,
    daily_pnl: Binary64,
    total_pnl: Binary64,
    total_trades: u64,
    winning_trades: u64,
    losing_trades: u64,
    consecutive_losses: u32,
}

#[derive(Debug, Clone)]
pub struct TradeRecord {
    pub asset: String,
    pub leg1_price: Binary64,
    pub leg2_price: Option<Binary64>,
    pub shares: Binary64,
    pub pnl: Binary64,
    pub outcome: TradeOutcome,
    pub timestamp: Timestamp,
}

#[derive(Debug, Clone, Copy, PartialEq, Eq, Structural)]
pub enum TradeOutcome {
    Locked,
    ForceClose,
    Expired,
}

/// What came of a completed trade.
#[derive(Debug, Clone, Copy, PartialEq)]
pub struct TradeTerms {
    pub leg1_price: Binary64,
    pub leg2_price: Option<Binary64>,
    pub shares: Binary64,
    pub pnl: Binary64,
    pub outcome: TradeOutcome,
}

/// A result that brought something in.
pub open spec fn gains(pnl: Binary64) -> bool {
    Binary64::nothing().less(pnl)
}

/// A trade that brought something in.
pub open spec fn wins(record: TradeRecord) -> bool {
    gains(record.pnl)
}

/// Whether a record is that of a trade in an asset, completed at a time.
pub open spec fn records(
    record: TradeRecord,
    asset: Seq<char>,
    terms: TradeTerms,
    now: Timestamp,
) -> bool {
    &&& record.asset@ == asset
    &&& record.leg1_price == terms.leg1_price
    &&& record.leg2_price == terms.leg2_price
    &&& record.shares == terms.shares
    &&& record.pnl == terms.pnl
    &&& record.outcome == terms.outcome
    &&& record.timestamp == now
}

impl OrderTracker {
    #[verifier::type_invariant]
    spec fn inv(self) -> bool {
        &&& self.trades@.len() <= MAX_KEPT_TRADES
        &&& self.winning_trades + self.losing_trades == self.total_trades
        &&& self.consecutive_losses <= self.losing_trades
    }

    /// The latest trades, from oldest to newest.
    pub closed spec fn kept(&self) -> Seq<TradeRecord> {
        self.trades@
    }

    pub closed spec fn day(&self) -> Binary64 {
        self.daily_pnl
    }

    pub closed spec fn total(&self) -> Binary64 {
        self.total_pnl
    }

    pub closed spec fn count(&self) -> u64 {
        self.total_trades
    }

    pub closed spec fn won(&self) -> u64 {
        self.winning_trades
    }

    pub closed spec fn lost(&self) -> u64 {
        self.losing_trades
    }

    /// How many of the last trades in a row were lost.
    pub closed spec fn losses_in_a_row(&self) -> u32 {
        self.consecutive_losses
    }

    /// Every trade was either won or lost, and no more trades are kept than
    /// there is room for.
    pub open spec fn consistent(&self) -> bool {
        &&& self.won() + self.lost() == self.count()
        &&& self.losses_in_a_row() <= self.lost()
        &&& self.kept().len() <= MAX_KEPT_TRADES
    }

    /// Whether the tracker holds what it held before and one trade more.
    pub open spec fn adds(&self, before: OrderTracker, record: TradeRecord) -> bool {
        &&& self.day() == before.day().sum(record.pnl)
        &&& self.total() == before.total().sum(record.pnl)
        &&& self.count() == before.count() + 1
        &&& self.won() == before.won() + (if wins(record) { 1int } else { 0 })
        &&& self.lost() == before.lost() + (if wins(record) { 0int } else { 1 })
        &&& self.losses_in_a_row() == before.streak_after(record.pnl)
        &&& self.kept() == if before.kept().len() < MAX_KEPT_TRADES {
            before.kept().push(record)
        } else {
            before.kept().drop_first().push(record)
        }
    }

    /// How many of the last trades in a row are lost after one more.
    pub open spec fn streak_after(&self, pnl: Binary64) -> int {
        if gains(pnl) {
            0
        } else {
            self.losses_in_a_row() + 1
        }
    }

    pub fn new() -> (r: Self)
        ensures
            r.consistent(),
            r.kept() == Seq::<TradeRecord>::empty(),
            r.day() == Binary64::nothing(),
            r.total() == Binary64::nothing(),
            r.count() == 0,
            r.won() == 0,
            r.lost() == 0,
            r.losses_in_a_row() == 0,
    {
        OrderTracker {
            trades: VecDeque::new(),
            daily_pnl: Binary64::zero(),
            total_pnl: Binary64::zero(),
            total_trades: 0,
            winning_trades: 0,
            losing_trades: 0,
            consecutive_losses: 0,
        }
    }

    /// Record a completed trade (locked or force-closed).
    pub fn record_trade(&mut self, record: TradeRecord)
        requires
            old(self).count() < u64::MAX,
            old(self).losses_in_a_row() < u32::MAX,
        ensures
            final(self).consistent(),
            final(self).adds(*old(self), record),
    {
        proof {
            use_type_invariant(&*self);
        }
        let won: bool = record.pnl.is_above(Binary64::zero());
        let daily_pnl: Binary64 = self.daily_pnl.plus(record.pnl);
        let total_pnl: Binary64 = self.total_pnl.plus(record.pnl);
        let mut trades: VecDeque<TradeRecord> = VecDeque::new();
        std::mem::swap(&mut self.trades, &mut trades);
        let ghost before = trades@;
        trades.push_back(record);
        // Keep last 1000 trades in memory
        while trades.len() > MAX_KEPT_TRADES
            invariant
                before.len() <= MAX_KEPT_TRADES,
                trades@ == before.push(record) || (before.len() == MAX_KEPT_TRADES && trades@
                    == before.drop_first().push(record)),
            decreases trades@.len(),
        {
            let ghost full = trades@;
            let _ = trades.pop_front();
            assert(trades@ =~= full.drop_first());
            assert(before.push(record).drop_first() =~= before.drop_first().push(record));
        }
        let (winning_trades, losing_trades, consecutive_losses) = if won {
            (self.winning_trades + 1, self.losing_trades, 0)
        } else {
            (self.winning_trades, self.losing_trades + 1, self.consecutive_losses + 1)
        };
        *self =
        OrderTracker {
            trades,
            daily_pnl,
            total_pnl,
            total_trades: self.total_trades + 1,
            winning_trades,
            losing_trades,
            consecutive_losses,
        };
    }

    pub fn daily_pnl(&self) -> (r: Binary64)
        ensures
            r == self.day(),
    {
        self.daily_pnl
    }

    pub fn total_pnl(&self) -> (r: Binary64)
        ensures
            r == self.total(),
    {
        self.total_pnl
    }

    pub fn consecutive_losses(&self) -> (r: u32)
        ensures
            r == self.losses_in_a_row(),
    {
        self.consecutive_losses
    }

    /// The share of trades that were won; zero before the first trade.
    pub open spec fn winning_share(&self) -> Binary64 {
        if self.count() == 0 {
            Binary64::nothing()
        } else {
            Binary64::of_nat(self.won() as nat).quotient(Binary64::of_nat(self.count() as nat))
        }
    }

    pub fn win_rate(&self) -> (r: Binary64)
        ensures
            r == self.winning_share(),
    {
        if self.total_trades == 0 {
            return Binary64::zero();
        }
        Binary64::from_u64(self.winning_trades).over(Binary64::from_u64(self.total_trades))
    }

    pub fn total_trades(&self) -> (r: u64)
        ensures
            r == self.count(),
            self.consistent(),
    {
        proof {
            use_type_invariant(self);
        }
        self.total_trades
    }

    pub fn winning_trades(&self) -> (r: u64)
        ensures
            r == self.won(),
    {
        self.winning_trades
    }

    pub fn losing_trades(&self) -> (r: u64)
        ensures
            r == self.lost(),
    {
        self.losing_trades
    }

    pub fn total_realised_pnl(&self) -> (r: Binary64)
        ensures
            r == self.total(),
    {
        self.total_pnl
    }

    /// Reset daily PnL (call at midnight UTC).
    pub fn reset_daily(&mut self)
        ensures
            final(self).day() == Binary64::nothing(),
            final(self).kept() == old(self).kept(),
            final(self).total() == old(self).total(),
            final(self).count() == old(self).count(),
            final(self).won() == old(self).won(),
            final(self).lost() == old(self).lost(),
            final(self).losses_in_a_row() == old(self).losses_in_a_row(),
    {
        proof {
            use_type_invariant(&*self);
        }
        self.daily_pnl = Binary64::zero();
    }
}

impl Default for OrderTracker {
    fn default() -> (r: Self)
        ensures
            r.consistent(),
            r.kept() == Seq::<TradeRecord>::empty(),
            r.day() == Binary64::nothing(),
            r.total() == Binary64::nothing(),
            r.count() == 0,
            r.won() == 0,
            r.lost() == 0,
            r.losses_in_a_row() == 0,
    {
        OrderTracker::new()
    }
}

/// The share of trades that were won lies between zero and one.
pub proof fn lemma_win_rate_range(tracker: &OrderTracker)
    requires
        tracker.consistent(),
    ensures
        Binary64::nothing().at_most(tracker.winning_share()),
        tracker.winning_share().at_most(Binary64::of_nat(1)),
{
    let one = Binary64::of_nat(1);
    vstd::arithmetic::power2::lemma_pow2_pos(rounding::UNIT_EXPONENT as nat);
    precision::lemma_one();
    precision::lemma_signed(false, 0);
    precision::lemma_order(Binary64::nothing(), one);
    if tracker.count() > 0 {
        let won = Binary64::of_nat(tracker.won() as nat);
        let all = Binary64::of_nat(tracker.count() as nat);
        precision::lemma_count(tracker.won() as nat);
        precision::lemma_count(tracker.count() as nat);
        precision::lemma_count_order(tracker.won() as nat, tracker.count() as nat);
        precision::lemma_share(won, all);
    }
}

/// The tracker keeps the newest of all trades ever recorded: where the trades
/// kept are the newest of some history, those kept after one more trade are the
/// newest of the history with that trade.
pub proof fn lemma_keeps_newest(
    history: Seq<TradeRecord>,
    record: TradeRecord,
    before: Seq<TradeRecord>,
    after: Seq<TradeRecord>,
)
    requires
        before == ring_buffer::newest(history, MAX_KEPT_TRADES as nat),
        after == if before.len() < MAX_KEPT_TRADES {
            before.push(record)
        } else {
            before.drop_first().push(record)
        },
    ensures
        after == ring_buffer::newest(history.push(record), MAX_KEPT_TRADES as nat),
{
    ring_buffer::lemma_window_rolls(history, MAX_KEPT_TRADES as nat, record);
}

/// How a trade counts: its result goes into the day and the total, it is won
/// where the result is positive and lost where it is not, a win ends a row of
/// losses and a loss lengthens it by one, and it is the newest trade kept.
pub proof fn lemma_trade_counts(
    before: OrderTracker,
    after: OrderTracker,
    record: TradeRecord,
)
    requires
        after.adds(before, record),
    ensures
        after.day() == before.day().sum(record.pnl),
        after.total() == before.total().sum(record.pnl),
        after.count() == before.count() + 1,
        after.kept().len() > 0 && after.kept().last() == record,
        Binary64::nothing().less(record.pnl) ==> after.won() == before.won() + 1 && after.lost()
            == before.lost() && after.losses_in_a_row() == 0,
        !Binary64::nothing().less(record.pnl) ==> after.won() == before.won() && after.lost()
            == before.lost() + 1 && after.losses_in_a_row() == before.losses_in_a_row() + 1,
{
}

/// How many trades at the end of a history were not won.
pub open spec fn lost_at_end(history: Seq<TradeRecord>) -> nat
    decreases history.len(),
{
    if history.len() == 0 || Binary64::nothing().less(history.last().pnl) {
        0
    } else {
        lost_at_end(history.drop_last()) + 1
    }
}

/// How many trades of a history were won.
pub open spec fn won_in(history: Seq<TradeRecord>) -> nat
    decreases history.len(),
{
    if history.len() == 0 {
        0
    } else {
        won_in(history.drop_last()) + (if Binary64::nothing().less(history.last().pnl) {
            1nat
        } else {
            0
        })
    }
}

/// The results of a history, added up one after the other.
pub open spec fn result_of(history: Seq<TradeRecord>) -> Binary64
    decreases history.len(),
{
    if history.len() == 0 {
        Binary64::nothing()
    } else {
        result_of(history.drop_last()).sum(history.last().pnl)
    }
}

/// Whether a tracker says what a history of trades says.
pub open spec fn tells(tracker: OrderTracker, history: Seq<TradeRecord>) -> bool {
    &&& tracker.count() == history.len()
    &&& tracker.won() == won_in(history)
    &&& tracker.lost() == history.len() - won_in(history)
    &&& tracker.losses_in_a_row() == lost_at_end(history)
    &&& tracker.total() == result_of(history)
    &&& tracker.kept() == if history.len() <= 1000 {
        history
    } else {
        history.skip(history.len() - 1000)
    }
}

/// A tracker that says what a history says still does so after one more trade;
/// and an empty one says what an empty history says.
pub proof fn lemma_tracker_tells_history(
    before: OrderTracker,
    after: OrderTracker,
    history: Seq<TradeRecord>,
    record: TradeRecord,
)
    requires
        after.adds(before, record),
        tells(before, history),
    ensures
        tells(after, history.push(record)),
{
    assert(history.push(record).drop_last() =~= history);
    assert(before.kept() =~= ring_buffer::newest(history, MAX_KEPT_TRADES as nat));
    lemma_keeps_newest(history, record, before.kept(), after.kept());
}

/// The share of trades that were won is one where all were won, and nothing where
/// none was.
pub proof fn lemma_win_rate_ends(tracker: &OrderTracker)
    ensures
        tracker.count() > 0 && tracker.won() == tracker.count() ==> tracker.winning_share()
            == Binary64::of_nat(1),
        tracker.won() == 0 ==> tracker.winning_share().rank() == 0,
        tracker.count() > 0 ==> tracker.winning_share() == Binary64::of_ratio(
            Binary64::of_nat(tracker.won() as nat).units() as nat,
            Binary64::of_nat(tracker.count() as nat).units() as nat,
        ),
{
    precision::lemma_signed(false, 0);
    if tracker.count() > 0 {
        let won = Binary64::of_nat(tracker.won() as nat);
        let all = Binary64::of_nat(tracker.count() as nat);
        precision::lemma_count(tracker.won() as nat);
        precision::lemma_count(tracker.count() as nat);
        rounding::lemma_magnitude_increases(0, all.rank());
        algebra::lemma_quotient_is_ratio(won, all);
        algebra::lemma_self_quotient(all);
        if tracker.won() == 0 {
            assert(won.rank() == 0) by {
                reveal(Binary64::of_ratio);
                precision::lemma_rounding_exact(0, 1);
                assert(0nat * precision::one() == 0 && rounding::magnitude(0) * 1 == 0)
                    by (nonlinear_arith)
                    requires
                        rounding::magnitude(0) == 0,
                ;
            }
            algebra::lemma_zero_over(won, all);
        }
    }
}

} // verus!
