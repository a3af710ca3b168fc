//! What is shown of the bot while it runs.

use crate::number::binary64::Binary64;
use crate::utils::clock::Timestamp;
use vstd::prelude::*;

verus! {

/// Live portfolio state, for monitoring.
#[derive(Debug, Clone)]
pub struct PortfolioState {
    pub timestamp: Timestamp,
    pub uptime_secs: u64,
    pub total_realised_pnl: Binary64,
    pub unrealised_pnl: Binary64,
    pub daily_pnl: Binary64,
    pub total_trades: u64,
    pub winning_trades: u64,
    pub losing_trades: u64,
    pub win_rate: Binary64,
    pub active_trades: Vec<ActiveTrade>,
    pub risk_status: RiskStatus,
}

#[derive(Debug, Clone)]
pub struct ActiveTrade {
    pub asset: String,
    pub market_slug: String,
    pub direction: String,
    pub leg1_side: String,
    pub leg1_price: Binary64,
    pub leg1_shares: Binary64,
    pub leg2_status: String,
    pub leg2_price: Option<Binary64>,
    pub unrealised_pnl: Binary64,
    pub secs_since_entry: u64,
    pub secs_to_expiry: u64,
}

#[derive(Debug, Clone, Copy, PartialEq)]
pub struct RiskStatus {
    pub daily_loss_limit: Binary64,
    pub daily_loss_remaining: Binary64,
    pub is_halted: bool,
    pub cooldown_active: bool,
    pub consecutive_losses: u32,
    pub open_positions_btc: usize,
    pub open_positions_eth: usize,
}

/// A line of the trade history.
#[derive(Debug, Clone)]
pub struct TradeLogEntry {
    pub timestamp: Timestamp,
    pub asset: String,
    pub market_slug: String,
    pub direction: String,
    pub leg1_price: Binary64,
    pub leg2_price: Option<Binary64>,
    pub shares: Binary64,
    pub pnl: Binary64,
    pub outcome: String,
    pub duration_secs: u64,
}

} // verus!
