//! The two-leg state machine.

use crate::number::algebra;
use crate::number::binary64::Binary64;
use crate::number::display;
use crate::number::precision;
use crate::number::rounding;
use crate::strategy::params::StrategyParams;
use crate::strategy::signal::{Direction, EntrySignal, Leg1Side};
use crate::utils::clock;
use crate::utils::clock::{signed, utc_now, Timestamp};
use vstd::prelude::*;
use vstd::string::*;

verus! {

/// States of the two-leg state machine.
#[derive(Debug, Clone, PartialEq)]
pub enum LegState {
    /// No active position, waiting for a signal.
    Idle,
    /// Leg1 order has been placed, awaiting fill confirmation.
    Leg1Pending { signal: EntrySignal, order_time: Timestamp },
    /// Leg2 order has been placed (immediately after Leg1 fill).
    Leg2Pending {
        signal: EntrySignal,
        leg1_fill_price: Binary64,
        leg1_shares: Binary64,
        leg2_target_price: Binary64,
        order_time: Timestamp,
    },
    /// Both legs filled — position is locked for guaranteed payout.
    Locked {
        signal: EntrySignal,
        leg1_fill_price: Binary64,
        leg2_fill_price: Binary64,
        shares: Binary64,
        expected_pnl: Binary64,
    },
    /// Force-closing Leg1 (market about to expire, couldn't lock).
    ForceClose { signal: EntrySignal, leg1_fill_price: Binary64, shares: Binary64 },
}

/// Actions the leg manager requests the execution layer to perform.
#[derive(Debug, Clone)]
pub enum LegAction {
    /// Place a Leg1 market order (FOK).
    PlaceLeg1 { token_id: String, side: Leg1Side, size_usd: Binary64 },
    /// Place a Leg2 limit order (maker).
    PlaceLeg2 { token_id: String, price: Binary64, shares: Binary64 },
    /// Force-sell Leg1 at market (approaching expiry).
    ForceCloseLeg1 { token_id: String, shares: Binary64 },
    /// No action needed this tick.
    Nothing,
}

/// Manages the two-leg state machine for a single market position.
#[derive(Debug)]
pub struct LegManager {
    pub state: LegState,
    pub params: StrategyParams,
    /// YES token ID for the active market.
    pub yes_token_id: String,
    /// NO token ID for the active market.
    pub no_token_id: String,
    /// Market open timestamp.
    pub market_open_ts: Timestamp,
    /// Market interval in seconds.
    pub market_interval_secs: u64,
}

/// The highest price of the second leg at which the lock still pays the profit
/// asked for: one dollar, less the first leg's price, slippage and fee, and less
/// that profit.
pub open spec fn max_leg2_price(fill_price: Binary64, params: StrategyParams) -> Binary64 {
    Binary64::of_nat(1).difference(fill_price).difference(params.slippage_cents).difference(
        fill_price.product(params.taker_fee_rate),
    ).difference(params.min_profit_per_share)
}

/// What a lock pays per share: one dollar, less both legs and their fees.
pub open spec fn lock_profit(
    leg1_fill_price: Binary64,
    leg2_fill_price: Binary64,
    params: StrategyParams,
) -> Binary64 {
    let leg1_cost = leg1_fill_price.sum(params.slippage_cents);
    let fee = leg1_cost.product(params.taker_fee_rate).sum(
        leg2_fill_price.product(params.maker_fee_rate),
    );
    Binary64::of_nat(1).difference(leg1_cost.sum(leg2_fill_price).sum(fee))
}

/// What a lock pays per share: one dollar, less both legs and their fees.
pub fn profit_per_share(
    leg1_fill_price: Binary64,
    leg2_fill_price: Binary64,
    params: &StrategyParams,
) -> (r: Binary64)
    ensures
        r == lock_profit(leg1_fill_price, leg2_fill_price, *params),
{
    let leg1_cost: Binary64 = leg1_fill_price.plus(params.slippage_cents);
    let leg2_cost: Binary64 = leg2_fill_price;
    let fee: Binary64 = leg1_cost.times(params.taker_fee_rate).plus(
        leg2_cost.times(params.maker_fee_rate),
    );
    let total_cost: Binary64 = leg1_cost.plus(leg2_cost).plus(fee);
    Binary64::from_u64(1).minus(total_cost)
}

impl LegState {
    /// The signal that the position was entered on.
    pub open spec fn entry(self) -> Option<EntrySignal> {
        match self {
            LegState::Idle => None,
            LegState::Leg1Pending { signal, .. } => Some(signal),
            LegState::Leg2Pending { signal, .. } => Some(signal),
            LegState::Locked { signal, .. } => Some(signal),
            LegState::ForceClose { signal, .. } => Some(signal),
        }
    }
}

impl LegManager {
    pub open spec fn leg1_token(&self, side: Leg1Side) -> String {
        match side {
            Leg1Side::Yes => self.yes_token_id,
            Leg1Side::No => self.no_token_id,
        }
    }

    pub open spec fn leg2_token(&self, side: Leg1Side) -> String {
        match side {
            Leg1Side::Yes => self.no_token_id,
            Leg1Side::No => self.yes_token_id,
        }
    }

    /// The same position with another state.
    pub open spec fn with_state(self, state: LegState) -> LegManager {
        LegManager { state, ..self }
    }

    /// An idle manager of another market under the same parameters.
    pub open spec fn renewed(
        self,
        yes_token_id: String,
        no_token_id: String,
        market_open_ts: Timestamp,
    ) -> LegManager {
        LegManager {
            state: LegState::Idle,
            yes_token_id,
            no_token_id,
            market_open_ts,
            params: self.params,
            market_interval_secs: self.market_interval_secs,
        }
    }

    /// Whether the end of the market lies within the calendar.
    pub open spec fn expires(&self) -> bool {
        clock::in_calendar(
            self.market_open_ts.seconds() + clock::as_signed(self.market_interval_secs),
        )
    }

    /// Whole seconds until the market ends, or zero after that.
    pub open spec fn remaining(&self, now: Timestamp) -> int {
        clock::elapsed(
            self.market_open_ts.nanos() + clock::as_signed(self.market_interval_secs)
                * clock::NANOS_PER_SEC,
            now.nanos(),
        )
    }

    /// Nanoseconds until the market ends, negative after that.
    pub open spec fn nanos_left(&self, now: Timestamp) -> int {
        self.market_open_ts.nanos() + clock::as_signed(self.market_interval_secs)
            * clock::NANOS_PER_SEC - now.nanos()
    }

    /// Whether the market is about to end, or over.
    pub open spec fn closing(&self, now: Timestamp) -> bool {
        self.nanos_left(now) < self.params.force_close_secs * clock::NANOS_PER_SEC
    }

    /// The state and the action after a signal.
    pub open spec fn after_signal(self, signal: EntrySignal, now: Timestamp) -> (
        LegState,
        LegAction,
    ) {
        if self.state is Idle {
            (
                LegState::Leg1Pending { signal, order_time: now },
                LegAction::PlaceLeg1 {
                    token_id: self.leg1_token(signal.leg1_side),
                    side: signal.leg1_side,
                    size_usd: self.params.trade_size_usd,
                },
            )
        } else {
            (self.state, LegAction::Nothing)
        }
    }

    /// The state and the action after the first leg is filled.
    pub open spec fn after_leg1_fill(
        self,
        fill_price: Binary64,
        shares: Binary64,
        now: Timestamp,
    ) -> (LegState, LegAction) {
        match self.state {
            LegState::Leg1Pending { signal, .. } => {
                let price = max_leg2_price(fill_price, self.params);
                (
                    LegState::Leg2Pending {
                        signal,
                        leg1_fill_price: fill_price,
                        leg1_shares: shares,
                        leg2_target_price: price,
                        order_time: now,
                    },
                    LegAction::PlaceLeg2 {
                        token_id: self.leg2_token(signal.leg1_side),
                        price,
                        shares,
                    },
                )
            },
            _ => (self.state, LegAction::Nothing),
        }
    }

    /// The state and the action after a tick.
    pub open spec fn after_tick(self, now: Timestamp) -> (LegState, LegAction) {
        match self.state {
            LegState::Leg2Pending { signal, leg1_fill_price, leg1_shares, .. } => if self.closing(
                now,
            ) {
                (
                    LegState::ForceClose { signal, leg1_fill_price, shares: leg1_shares },
                    LegAction::ForceCloseLeg1 {
                        token_id: self.leg1_token(signal.leg1_side),
                        shares: leg1_shares,
                    },
                )
            } else {
                (self.state, LegAction::Nothing)
            },
            _ => (self.state, LegAction::Nothing),
        }
    }

    /// The state after the second leg is filled.
    pub open spec fn after_leg2_fill(self, fill_price: Binary64) -> LegState {
        match self.state {
            LegState::Leg2Pending { signal, leg1_fill_price, leg1_shares, .. } => LegState::Locked {
                signal,
                leg1_fill_price,
                leg2_fill_price: fill_price,
                shares: leg1_shares,
                expected_pnl: lock_profit(leg1_fill_price, fill_price, self.params).product(
                    leg1_shares,
                ),
            },
            _ => self.state,
        }
    }

    /// The state and the action after the second leg is rejected.
    pub open spec fn after_leg2_rejected(self, now: Timestamp) -> (LegState, LegAction) {
        match self.state {
            LegState::Leg2Pending {
                signal,
                leg1_fill_price,
                leg1_shares,
                leg2_target_price,
                ..
            } => (
                LegState::Leg2Pending {
                    signal,
                    leg1_fill_price,
                    leg1_shares,
                    leg2_target_price,
                    order_time: now,
                },
                LegAction::PlaceLeg2 {
                    token_id: self.leg2_token(signal.leg1_side),
                    price: leg2_target_price,
                    shares: leg1_shares,
                },
            ),
            _ => (self.state, LegAction::Nothing),
        }
    }

    pub fn new(
        params: StrategyParams,
        yes_token_id: String,
        no_token_id: String,
        market_open_ts: Timestamp,
        market_interval_secs: u64,
    ) -> (r: Self)
        ensures
            r == (LegManager {
                state: LegState::Idle,
                params,
                yes_token_id,
                no_token_id,
                market_open_ts,
                market_interval_secs,
            }),
    {
        LegManager {
            state: LegState::Idle,
            params,
            yes_token_id,
            no_token_id,
            market_open_ts,
            market_interval_secs,
        }
    }

    fn leg1_token_id(&self, side: Leg1Side) -> (r: String)
        ensures
            r == self.leg1_token(side),
    {
        match side {
            Leg1Side::Yes => self.yes_token_id.clone(),
            Leg1Side::No => self.no_token_id.clone(),
        }
    }

    fn leg2_token_id(&self, side: Leg1Side) -> (r: String)
        ensures
            r == self.leg2_token(side),
    {
        match side {
            Leg1Side::Yes => self.no_token_id.clone(),
            Leg1Side::No => self.yes_token_id.clone(),
        }
    }

    /// Called when an entry signal fires, with the time of the order.
    pub fn on_signal_at(&mut self, signal: EntrySignal, now: Timestamp) -> (r: LegAction)
        ensures
            *final(self) == old(self).with_state(old(self).after_signal(signal, now).0),
            r == old(self).after_signal(signal, now).1,
    {
        if !self.is_idle() {
            return LegAction::Nothing;
        }
        let token_id: String = self.leg1_token_id(signal.leg1_side);
        let side: Leg1Side = signal.leg1_side;
        self.state = LegState::Leg1Pending { signal, order_time: now };
        LegAction::PlaceLeg1 { token_id, side, size_usd: self.params.trade_size_usd }
    }

    /// Called when an entry signal fires.
    pub fn on_signal(&mut self, signal: EntrySignal) -> (r: LegAction)
        ensures
            exists|now: Timestamp| #[trigger]
                now.valid() && *final(self) == old(self).with_state(
                    old(self).after_signal(signal, now).0,
                ) && r == old(self).after_signal(signal, now).1,
    {
        self.on_signal_at(signal, utc_now())
    }

    /// Called when Leg1 order is confirmed filled, with the time of the Leg2 order.
    /// Immediately computes the max Leg2 price that guarantees a profitable lock
    /// and returns a PlaceLeg2 action.
    pub fn on_leg1_fill_at(&mut self, fill_price: Binary64, shares: Binary64, now: Timestamp) -> (r:
        LegAction)
        ensures
            *final(self) == old(self).with_state(
                old(self).after_leg1_fill(fill_price, shares, now).0,
            ),
            r == old(self).after_leg1_fill(fill_price, shares, now).1,
    {
        let signal: EntrySignal = match &self.state {
            LegState::Leg1Pending { signal, .. } => signal.clone(),
            _ => return LegAction::Nothing,
        };
        let max_leg2: Binary64 = Binary64::from_u64(1).minus(fill_price).minus(
            self.params.slippage_cents,
        ).minus(fill_price.times(self.params.taker_fee_rate)).minus(
            self.params.min_profit_per_share,
        );
        let token_id: String = self.leg2_token_id(signal.leg1_side);
        self.state =
        LegState::Leg2Pending {
            signal,
            leg1_fill_price: fill_price,
            leg1_shares: shares,
            leg2_target_price: max_leg2,
            order_time: now,
        };
        LegAction::PlaceLeg2 { token_id, price: max_leg2, shares }
    }

    /// Called when Leg1 order is confirmed filled.
    pub fn on_leg1_fill(&mut self, fill_price: Binary64, shares: Binary64) -> (r: LegAction)
        ensures
            exists|now: Timestamp| #[trigger]
                now.valid() && *final(self) == old(self).with_state(
                    old(self).after_leg1_fill(fill_price, shares, now).0,
                ) && r == old(self).after_leg1_fill(fill_price, shares, now).1,
    {
        self.on_leg1_fill_at(fill_price, shares, utc_now())
    }

    /// Called when Leg1 order is rejected or times out.
    pub fn on_leg1_rejected(&mut self)
        ensures
            *final(self) == old(self).with_state(LegState::Idle),
    {
        self.state = LegState::Idle;
    }

    /// Called every tick with the current opposite token ask price.
    /// Only handles force-close during Leg2Pending.
    pub fn on_tick(&mut self, _opposite_ask: Binary64, now: Timestamp) -> (r: LegAction)
        requires
            old(self).expires(),
        ensures
            *final(self) == old(self).with_state(old(self).after_tick(now).0),
            r == old(self).after_tick(now).1,
    {
        let (signal, leg1_fill_price, shares) = match &self.state {
            LegState::Leg2Pending { signal, leg1_fill_price, leg1_shares, .. } => (
                signal.clone(),
                *leg1_fill_price,
                *leg1_shares,
            ),
            _ => return LegAction::Nothing,
        };
        if self.is_closing(now) {
            let token_id: String = self.leg1_token_id(signal.leg1_side);
            self.state = LegState::ForceClose { signal, leg1_fill_price, shares };
            return LegAction::ForceCloseLeg1 { token_id, shares };
        }
        LegAction::Nothing
    }

    /// Called when Leg2 order is filled.
    pub fn on_leg2_fill(&mut self, fill_price: Binary64)
        ensures
            *final(self) == old(self).with_state(old(self).after_leg2_fill(fill_price)),
    {
        let (signal, leg1_fill_price, shares) = match &self.state {
            LegState::Leg2Pending { signal, leg1_fill_price, leg1_shares, .. } => (
                signal.clone(),
                *leg1_fill_price,
                *leg1_shares,
            ),
            _ => return ,
        };
        let pnl_per_share: Binary64 = profit_per_share(leg1_fill_price, fill_price, &self.params);
        let expected_pnl: Binary64 = pnl_per_share.times(shares);
        self.state =
        LegState::Locked {
            signal,
            leg1_fill_price,
            leg2_fill_price: fill_price,
            shares,
            expected_pnl,
        };
    }

    /// Called when Leg2 order is rejected, with the time of the new order.
    /// Re-places the limit order at the same price.
    pub fn on_leg2_rejected_at(&mut self, now: Timestamp) -> (r: LegAction)
        ensures
            *final(self) == old(self).with_state(old(self).after_leg2_rejected(now).0),
            r == old(self).after_leg2_rejected(now).1,
    {
        let (signal, leg1_fill_price, shares, price) = match &self.state {
            LegState::Leg2Pending {
                signal,
                leg1_fill_price,
                leg1_shares,
                leg2_target_price,
                ..
            } => (signal.clone(), *leg1_fill_price, *leg1_shares, *leg2_target_price),
            _ => return LegAction::Nothing,
        };
        let token_id: String = self.leg2_token_id(signal.leg1_side);
        self.state =
        LegState::Leg2Pending {
            signal,
            leg1_fill_price,
            leg1_shares: shares,
            leg2_target_price: price,
            order_time: now,
        };
        LegAction::PlaceLeg2 { token_id, price, shares }
    }

    /// Called when Leg2 order is rejected. Re-places the limit order at the same price.
    pub fn on_leg2_rejected(&mut self) -> (r: LegAction)
        ensures
            exists|now: Timestamp| #[trigger]
                now.valid() && *final(self) == old(self).with_state(
                    old(self).after_leg2_rejected(now).0,
                ) && r == old(self).after_leg2_rejected(now).1,
    {
        self.on_leg2_rejected_at(utc_now())
    }

    /// Reset to idle (for new market cycle).
    pub fn reset(&mut self, yes_token_id: String, no_token_id: String, market_open_ts: Timestamp)
        ensures
            *final(self) == old(self).renewed(yes_token_id, no_token_id, market_open_ts),
    {
        self.state = LegState::Idle;
        self.yes_token_id = yes_token_id;
        self.no_token_id = no_token_id;
        self.market_open_ts = market_open_ts;
    }

    pub fn is_idle(&self) -> (r: bool)
        ensures
            r == (self.state is Idle),
    {
        match &self.state {
            LegState::Idle => true,
            _ => false,
        }
    }

    pub fn is_locked(&self) -> (r: bool)
        ensures
            r == (self.state is Locked),
    {
        match &self.state {
            LegState::Locked { .. } => true,
            _ => false,
        }
    }

    pub fn current_direction(&self) -> (r: Option<&Direction>)
        ensures
            r == match self.state.entry() {
                Some(signal) => Some(&signal.direction),
                None => None,
            },
    {
        match &self.state {
            LegState::Leg1Pending { signal, .. } => Some(&signal.direction),
            LegState::Leg2Pending { signal, .. } => Some(&signal.direction),
            LegState::Locked { signal, .. } => Some(&signal.direction),
            LegState::ForceClose { signal, .. } => Some(&signal.direction),
            LegState::Idle => None,
        }
    }

    pub fn current_leg1_side(&self) -> (r: Option<&Leg1Side>)
        ensures
            r == match self.state.entry() {
                Some(signal) => Some(&signal.leg1_side),
                None => None,
            },
    {
        match &self.state {
            LegState::Leg1Pending { signal, .. } => Some(&signal.leg1_side),
            LegState::Leg2Pending { signal, .. } => Some(&signal.leg1_side),
            LegState::Locked { signal, .. } => Some(&signal.leg1_side),
            LegState::ForceClose { signal, .. } => Some(&signal.leg1_side),
            LegState::Idle => None,
        }
    }

    /// The price of the first leg, once it is filled.
    pub open spec fn leg1_price(&self) -> Option<Binary64> {
        match self.state {
            LegState::Leg2Pending { leg1_fill_price, .. } => Some(leg1_fill_price),
            LegState::Locked { leg1_fill_price, .. } => Some(leg1_fill_price),
            LegState::ForceClose { leg1_fill_price, .. } => Some(leg1_fill_price),
            _ => None,
        }
    }

    pub fn leg1_fill_price(&self) -> (r: Option<Binary64>)
        ensures
            r == self.leg1_price(),
    {
        match &self.state {
            LegState::Leg2Pending { leg1_fill_price, .. } => Some(*leg1_fill_price),
            LegState::Locked { leg1_fill_price, .. } => Some(*leg1_fill_price),
            LegState::ForceClose { leg1_fill_price, .. } => Some(*leg1_fill_price),
            _ => None,
        }
    }

    /// The shares of the first leg, once it is filled.
    pub open spec fn leg1_shares(&self) -> Option<Binary64> {
        match self.state {
            LegState::Leg2Pending { leg1_shares, .. } => Some(leg1_shares),
            LegState::Locked { shares, .. } => Some(shares),
            LegState::ForceClose { shares, .. } => Some(shares),
            _ => None,
        }
    }

    pub fn leg1_fill_shares(&self) -> (r: Option<Binary64>)
        ensures
            r == self.leg1_shares(),
    {
        match &self.state {
            LegState::Leg2Pending { leg1_shares, .. } => Some(*leg1_shares),
            LegState::Locked { shares, .. } => Some(*shares),
            LegState::ForceClose { shares, .. } => Some(*shares),
            _ => None,
        }
    }

    /// How the second leg stands, in words.
    pub open spec fn leg2_words(&self) -> Seq<char> {
        match self.state {
            LegState::Idle => "N/A"@,
            LegState::Leg1Pending { .. } => "Leg1 pending"@,
            LegState::Leg2Pending { leg2_target_price, .. } => "Leg2 pending @ "@
                + display::fixed_text(leg2_target_price),
            LegState::Locked { leg2_fill_price, .. } => "LOCKED @ "@ + display::fixed_text(
                leg2_fill_price,
            ),
            LegState::ForceClose { .. } => "Force-closing"@,
        }
    }

    pub fn leg2_status(&self) -> (r: String)
        ensures
            r@ == self.leg2_words(),
    {
        match &self.state {
            LegState::Idle => "N/A".to_owned(),
            LegState::Leg1Pending { .. } => "Leg1 pending".to_owned(),
            LegState::Leg2Pending { leg2_target_price, .. } => "Leg2 pending @ ".to_owned().concat(
                leg2_target_price.to_fixed().as_str(),
            ),
            LegState::Locked { leg2_fill_price, .. } => "LOCKED @ ".to_owned().concat(
                leg2_fill_price.to_fixed().as_str(),
            ),
            LegState::ForceClose { .. } => "Force-closing".to_owned(),
        }
    }

    /// The price of the second leg, once the position is locked.
    pub open spec fn leg2_price(&self) -> Option<Binary64> {
        match self.state {
            LegState::Locked { leg2_fill_price, .. } => Some(leg2_fill_price),
            _ => None,
        }
    }

    pub fn leg2_fill_price(&self) -> (r: Option<Binary64>)
        ensures
            r == self.leg2_price(),
    {
        match &self.state {
            LegState::Locked { leg2_fill_price, .. } => Some(*leg2_fill_price),
            _ => None,
        }
    }

    /// What the position would gain at current token prices.
    pub open spec fn paper_profit(&self, yes_price: Binary64, no_price: Binary64) -> Binary64 {
        match self.state {
            LegState::Leg2Pending { signal, leg1_fill_price, leg1_shares, .. } => (
            match signal.leg1_side {
                Leg1Side::Yes => yes_price,
                Leg1Side::No => no_price,
            }).difference(leg1_fill_price).product(leg1_shares),
            LegState::Locked { expected_pnl, .. } => expected_pnl,
            _ => Binary64::nothing(),
        }
    }

    /// Estimate unrealised PnL based on current token prices.
    pub fn unrealised_pnl(&self, yes_price: Binary64, no_price: Binary64) -> (r: Binary64)
        ensures
            r == self.paper_profit(yes_price, no_price),
    {
        match &self.state {
            LegState::Leg2Pending { signal, leg1_fill_price, leg1_shares, .. } => {
                let current_value: Binary64 = match signal.leg1_side {
                    Leg1Side::Yes => yes_price,
                    Leg1Side::No => no_price,
                };
                current_value.minus(*leg1_fill_price).times(*leg1_shares)
            },
            LegState::Locked { expected_pnl, .. } => *expected_pnl,
            _ => Binary64::zero(),
        }
    }

    fn is_closing(&self, now: Timestamp) -> (r: bool)
        requires
            self.expires(),
        ensures
            r == self.closing(now),
    {
        let expiry: Timestamp = self.market_open_ts.plus_secs(signed(self.market_interval_secs));
        expiry.nanos_since(now) < self.params.force_close_secs as i128 * 1_000_000_000
    }

    /// Whole seconds until the market ends, or zero after that.
    pub fn secs_to_expiry(&self, now: Timestamp) -> (r: u64)
        requires
            self.expires(),
        ensures
            r == self.remaining(now),
    {
        let expiry: Timestamp = self.market_open_ts.plus_secs(signed(self.market_interval_secs));
        expiry.elapsed_secs(now)
    }
}

/// How far a position has come.
pub open spec fn stage(state: LegState) -> nat {
    match state {
        LegState::Idle => 0,
        LegState::Leg1Pending { .. } => 1,
        LegState::Leg2Pending { .. } => 2,
        LegState::Locked { .. } => 3,
        LegState::ForceClose { .. } => 3,
    }
}

/// One position at a time: a signal is ignored unless the manager is idle.
pub proof fn lemma_one_position(manager: LegManager, signal: EntrySignal, now: Timestamp)
    requires
        !(manager.state is Idle),
    ensures
        manager.after_signal(signal, now) == (manager.state, LegAction::Nothing),
{
}

/// A position moves through its states in order, one at a time, and keeps the
/// signal that it was entered on: no signal, fill, tick or rejection of the
/// second leg takes it back or skips a state.
pub proof fn lemma_states_in_order(
    manager: LegManager,
    signal: EntrySignal,
    price: Binary64,
    shares: Binary64,
    now: Timestamp,
)
    ensures
        ({
            let next = seq![
                manager.after_signal(signal, now).0,
                manager.after_leg1_fill(price, shares, now).0,
                manager.after_tick(now).0,
                manager.after_leg2_fill(price),
                manager.after_leg2_rejected(now).0,
            ];
            forall|i: int|
                0 <= i < next.len() ==> {
                    let state = #[trigger] next[i];
                    &&& stage(manager.state) <= stage(state) <= stage(manager.state) + 1
                    &&& !(manager.state is Idle) ==> state.entry() == manager.state.entry()
                }
        }),
{
}

/// A position that is locked or being closed stays so until it is reset.
pub proof fn lemma_last_states_stay(
    manager: LegManager,
    signal: EntrySignal,
    price: Binary64,
    shares: Binary64,
    now: Timestamp,
)
    requires
        manager.state is Locked || manager.state is ForceClose,
    ensures
        manager.after_signal(signal, now) == (manager.state, LegAction::Nothing),
        manager.after_leg1_fill(price, shares, now) == (manager.state, LegAction::Nothing),
        manager.after_tick(now) == (manager.state, LegAction::Nothing),
        manager.after_leg2_fill(price) == manager.state,
        manager.after_leg2_rejected(now) == (manager.state, LegAction::Nothing),
{
}

/// The two legs buy the two tokens of the market, one each.
pub proof fn lemma_legs_are_opposite(
    manager: LegManager,
    signal: EntrySignal,
    price: Binary64,
    shares: Binary64,
    ordered: Timestamp,
    filled: Timestamp,
)
    requires
        manager.state is Idle,
    ensures
        ({
            let (state, first) = manager.after_signal(signal, ordered);
            let (_, second) = manager.with_state(state).after_leg1_fill(price, shares, filled);
            &&& first is PlaceLeg1
            &&& second is PlaceLeg2
            &&& (first->PlaceLeg1_token_id, second->PlaceLeg2_token_id) == match signal.leg1_side {
                Leg1Side::Yes => (manager.yes_token_id, manager.no_token_id),
                Leg1Side::No => (manager.no_token_id, manager.yes_token_id),
            }
        }),
{
}

/// A rejected second leg is ordered again on the same terms.
pub proof fn lemma_rejection_keeps_terms(
    manager: LegManager,
    price: Binary64,
    shares: Binary64,
    filled: Timestamp,
    rejected: Timestamp,
)
    requires
        manager.state is Leg1Pending,
    ensures
        ({
            let (state, first) = manager.after_leg1_fill(price, shares, filled);
            manager.with_state(state).after_leg2_rejected(rejected).1 == first
        }),
{
}

/// No position is left open, and none is closed too early: while the second leg
/// is pending, a tick sells the first one if and only if less time is left until
/// the end of the market than the parameters say, or the end is past.
pub proof fn lemma_closed_before_expiry(manager: LegManager, now: Timestamp)
    requires
        manager.state is Leg2Pending,
    ensures
        manager.market_open_ts.nanos() + clock::as_signed(manager.market_interval_secs)
            * clock::NANOS_PER_SEC - now.nanos() < manager.params.force_close_secs
            * clock::NANOS_PER_SEC ==> manager.after_tick(now).0 is ForceClose
            && manager.after_tick(now).1 is ForceCloseLeg1,
        manager.market_open_ts.nanos() + clock::as_signed(manager.market_interval_secs)
            * clock::NANOS_PER_SEC - now.nanos() >= manager.params.force_close_secs
            * clock::NANOS_PER_SEC ==> manager.after_tick(now) == (
            manager.state,
            LegAction::Nothing,
        ),
{
}

/// What an action sells and how much of it, if it sells anything.
pub open spec fn sold(action: LegAction) -> Option<(String, Binary64)> {
    match action {
        LegAction::ForceCloseLeg1 { token_id, shares } => Some((token_id, shares)),
        _ => None,
    }
}

/// The token that an action buys, if it buys any.
pub open spec fn bought(action: LegAction) -> Option<String> {
    match action {
        LegAction::PlaceLeg1 { token_id, .. } => Some(token_id),
        LegAction::PlaceLeg2 { token_id, .. } => Some(token_id),
        _ => None,
    }
}

/// A position sells what it bought. From an idle manager, a signal buys a token
/// for the size of a trade; once that is filled, the other token is ordered in as
/// many shares, and ordered again if it is rejected. A tick that closes the
/// position sells the token of the first order in the shares that it was filled
/// with, on either side of the market, and so never the token of the second leg.
pub proof fn lemma_close_sells_first_leg(
    manager: LegManager,
    signal: EntrySignal,
    price: Binary64,
    shares: Binary64,
    ordered: Timestamp,
    filled: Timestamp,
    rejected: Timestamp,
    now: Timestamp,
)
    requires
        manager.state is Idle,
    ensures
        ({
            let (s1, first) = manager.after_signal(signal, ordered);
            let m1 = manager.with_state(s1);
            let (s2, second) = m1.after_leg1_fill(price, shares, filled);
            let m2 = m1.with_state(s2);
            let (s3, again) = m2.after_leg2_rejected(rejected);
            let m3 = m2.with_state(s3);
            let (closed, close) = m2.after_tick(now);
            let (closed_late, close_late) = m3.after_tick(now);
            &&& bought(first) is Some
            &&& bought(second) is Some
            &&& bought(again) == bought(second)
            &&& first->PlaceLeg1_side == signal.leg1_side
            &&& first->PlaceLeg1_size_usd == manager.params.trade_size_usd
            &&& second->PlaceLeg2_shares == shares
            &&& again->PlaceLeg2_shares == shares
            &&& sold(first) is None && sold(second) is None && sold(again) is None
            &&& bought(close) is None && bought(close_late) is None
            &&& sold(close) is Some ==> sold(close) == Some((bought(first)->0, shares))
            &&& sold(close_late) is Some ==> sold(close_late) == Some((bought(first)->0, shares))
            &&& manager.yes_token_id != manager.no_token_id && sold(close) is Some
                ==> sold(close) != Some((bought(second)->0, shares))
            &&& sold(close) is Some <==> closed is ForceClose
            &&& sold(close_late) is Some <==> closed_late is ForceClose
        }),
{
}

/// Whatever a position went through, a tick that closes it sells the token that
/// an idle manager of the same market would buy on the signal of the position.
pub proof fn lemma_close_matches_entry(manager: LegManager, ordered: Timestamp, now: Timestamp)
    requires
        sold(manager.after_tick(now).1) is Some,
    ensures
        manager.state.entry() is Some,
        manager.leg1_shares() is Some,
        sold(manager.after_tick(now).1) == Some(
            (
                bought(
                    manager.with_state(LegState::Idle).after_signal(
                        manager.state.entry()->0,
                        ordered,
                    ).1,
                )->0,
                manager.leg1_shares()->0,
            ),
        ),
{
}

/// The price and the shares of the first leg are those that it was filled with,
/// from the fill to the end of the position, and the price of the second leg is
/// the one that it was filled with.
pub proof fn lemma_fills_are_kept(
    manager: LegManager,
    price: Binary64,
    shares: Binary64,
    leg2_price: Binary64,
    filled: Timestamp,
    rejected: Timestamp,
    now: Timestamp,
)
    requires
        manager.state is Leg1Pending,
    ensures
        manager.leg1_price() is None,
        manager.leg1_shares() is None,
        ({
            let m1 = manager.with_state(manager.after_leg1_fill(price, shares, filled).0);
            let m2 = m1.with_state(m1.after_leg2_rejected(rejected).0);
            let closed = m2.with_state(m2.after_tick(now).0);
            let locked = m2.with_state(m2.after_leg2_fill(leg2_price));
            &&& m1.state is Leg2Pending && m2.state is Leg2Pending && locked.state is Locked
            &&& m1.leg1_price() == Some(price) && m1.leg1_shares() == Some(shares)
            &&& m2.leg1_price() == Some(price) && m2.leg1_shares() == Some(shares)
            &&& closed.leg1_price() == Some(price) && closed.leg1_shares() == Some(shares)
            &&& locked.leg1_price() == Some(price) && locked.leg1_shares() == Some(shares)
            &&& locked.leg2_price() == Some(leg2_price)
            &&& m1.leg2_price() is None && m2.leg2_price() is None && closed.leg2_price() is None
        }),
{
}

/// While the second leg is pending, the paper profit is that of the token that
/// the first leg bought, whatever the other token costs: nothing at the price of
/// the fill, a gain above it and a loss below it, for one share or more.
pub proof fn lemma_paper_profit_follows_price(
    manager: LegManager,
    fill_price: Binary64,
    shares: Binary64,
    now: Timestamp,
    price: Binary64,
    other: Binary64,
)
    requires
        manager.state is Leg1Pending,
        fill_price.finite(),
        price.finite(),
        shares.finite(),
        Binary64::of_nat(1).at_most(shares),
    ensures
        ({
            let open = manager.with_state(manager.after_leg1_fill(fill_price, shares, now).0);
            let profit = match manager.state.entry()->0.leg1_side {
                Leg1Side::Yes => open.paper_profit(price, other),
                Leg1Side::No => open.paper_profit(other, price),
            };
            &&& price.units() == fill_price.units() ==> profit.rank() == 0
            &&& fill_price.less(price) ==> Binary64::nothing().less(profit)
            &&& price.less(fill_price) ==> profit.less(Binary64::nothing())
            &&& shares == Binary64::of_nat(1) && price.difference(fill_price).finite() ==> profit
                == price.difference(fill_price)
        }),
{
    let gain = price.difference(fill_price);
    algebra::lemma_difference_sign(price, fill_price);
    precision::lemma_signed(false, 0);
    precision::lemma_one();
    precision::lemma_order(Binary64::of_nat(1), shares);
    vstd::arithmetic::power2::lemma_pow2_pos(rounding::UNIT_EXPONENT as nat);
    precision::lemma_order(Binary64::nothing(), shares);
    if gain.finite() {
        algebra::lemma_times_one(gain);
        algebra::lemma_scaled_sign(gain, shares);
    } else {
        algebra::lemma_scaled_infinity(gain, shares);
    }
}

/// With nothing filled yet, or while the position is being closed, there is no
/// paper profit; once it is locked, token prices no longer matter.
pub proof fn lemma_paper_profit_is_settled(
    manager: LegManager,
    yes: Binary64,
    no: Binary64,
    other_yes: Binary64,
    other_no: Binary64,
)
    requires
        !(manager.state is Leg2Pending),
    ensures
        manager.paper_profit(yes, no) == manager.paper_profit(other_yes, other_no),
        !(manager.state is Locked) ==> manager.paper_profit(yes, no) == Binary64::nothing(),
        manager.state is Locked ==> manager.paper_profit(yes, no)
            == manager.state->Locked_expected_pnl,
{
}

/// The seconds until the market ends are none once it has ended, and else the
/// whole seconds of the time that is left.
pub proof fn lemma_remaining(manager: LegManager, now: Timestamp)
    ensures
        ({
            let left = manager.market_open_ts.nanos() + clock::as_signed(
                manager.market_interval_secs,
            ) * clock::NANOS_PER_SEC - now.nanos();
            let secs = manager.remaining(now);
            &&& left <= 0 ==> secs == 0
            &&& left > 0 ==> 0 <= left - secs * clock::NANOS_PER_SEC < clock::NANOS_PER_SEC
        }),
{
}

/// A manager that is reset takes the next signal, on the tokens of the new market
/// and under the parameters that it had.
pub proof fn lemma_reset_takes_signals(
    manager: LegManager,
    yes_token_id: String,
    no_token_id: String,
    market_open_ts: Timestamp,
    signal: EntrySignal,
    now: Timestamp,
)
    ensures
        ({
            let renewed = manager.renewed(yes_token_id, no_token_id, market_open_ts);
            let order = renewed.after_signal(signal, now).1;
            &&& renewed.state is Idle
            &&& signal.leg1_side is Yes ==> bought(order) == Some(yes_token_id)
            &&& signal.leg1_side is No ==> bought(order) == Some(no_token_id)
            &&& order->PlaceLeg1_size_usd == manager.params.trade_size_usd
            &&& renewed.params == manager.params
            &&& renewed.market_open_ts == market_open_ts
            &&& renewed.market_interval_secs == manager.market_interval_secs
        }),
{
}

/// The words for the second leg tell its price: that of the order while it is
/// pending, and that of the fill once the position is locked.
pub proof fn lemma_words_tell_price(manager: LegManager, now: Timestamp)
    ensures
        manager.state is Leg2Pending ==> manager.leg2_words() == "Leg2 pending @ "@
            + display::fixed_text(manager.after_leg2_rejected(now).1->PlaceLeg2_price),
        manager.leg2_price() is Some ==> manager.leg2_words() == "LOCKED @ "@ + display::fixed_text(
            manager.leg2_price()->0,
        ),
{
}

} // verus!
