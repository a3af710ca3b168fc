//! The parameters of the strategy.

use crate::config;
use crate::config::{Config, Variables};
use crate::number::binary64::Binary64;
use vstd::prelude::*;

verus! {

/// Strategy parameters extracted from config for easy passing to strategy logic.
#[derive(Debug, Clone, Copy, PartialEq)]
pub struct StrategyParams {
    /// Minimum BTC/ETH BPS move from market open to trigger entry.
    pub entry_bps_threshold: Binary64,
    /// Minimum book imbalance (absolute) aligned with direction.
    pub book_imb_threshold: Binary64,
    /// Minimum acceptable entry token price (e.g. 0.55).
    pub min_entry_price: Binary64,
    /// Maximum acceptable entry token price (e.g. 0.92).
    pub max_entry_price: Binary64,
    /// A wait after the Leg1 fill, in seconds. It is only carried along: the Leg2
    /// limit order is placed at once.
    pub leg2_min_wait_secs: u64,
    /// A life of the Leg2 limit order, in seconds. It is only carried along: the
    /// order keeps its price.
    pub leg2_wait_secs: u64,
    /// Seconds before market expiry to force-close unlocked positions.
    pub force_close_secs: u64,
    /// Earliest time (seconds after market open) to consider entry.
    pub min_entry_time_secs: u64,
    /// Latest time (seconds after market open) to consider entry.
    pub max_entry_time_secs: u64,
    /// Trade size in USD.
    pub trade_size_usd: Binary64,
    /// Estimated slippage per leg (in cents).
    pub slippage_cents: Binary64,
    /// Fee rate on gross winnings (2% for taker).
    pub taker_fee_rate: Binary64,
    /// Fee rate for maker orders (0%).
    pub maker_fee_rate: Binary64,
    /// Minimum profit target per share for Leg2 (e.g. 0.01 = 1 cent/share).
    pub min_profit_per_share: Binary64,
}

impl StrategyParams {
    pub open spec fn standard() -> StrategyParams {
        StrategyParams {
            entry_bps_threshold: Binary64::of_nat(5),
            book_imb_threshold: Binary64::of_ratio(1, 10),
            min_entry_price: Binary64::of_ratio(55, 100),
            max_entry_price: Binary64::of_ratio(92, 100),
            leg2_min_wait_secs: 3,
            leg2_wait_secs: 15,
            force_close_secs: 10,
            min_entry_time_secs: 60,
            max_entry_time_secs: 240,
            trade_size_usd: Binary64::of_nat(25),
            slippage_cents: Binary64::of_ratio(1, 100),
            taker_fee_rate: Binary64::of_ratio(2, 100),
            maker_fee_rate: Binary64::nothing(),
            min_profit_per_share: Binary64::of_ratio(1, 100),
        }
    }

    /// The parameters that the settings give for an asset.
    pub open spec fn configured(cfg: Config, asset: Seq<char>) -> StrategyParams {
        StrategyParams {
            entry_bps_threshold: cfg.entry_bps(asset),
            book_imb_threshold: cfg.book_imb_thresh,
            min_entry_price: cfg.min_entry_price,
            max_entry_price: cfg.max_entry_price,
            leg2_min_wait_secs: cfg.leg2_min_wait_secs,
            leg2_wait_secs: cfg.leg2_wait_secs,
            force_close_secs: cfg.force_close_secs,
            min_entry_time_secs: 60,
            max_entry_time_secs: 240,
            trade_size_usd: cfg.trade_size_usd,
            slippage_cents: Binary64::of_ratio(1, 100),
            taker_fee_rate: Binary64::of_ratio(2, 100),
            maker_fee_rate: Binary64::nothing(),
            min_profit_per_share: Binary64::of_ratio(5, 100),
        }
    }

    pub fn from_config(cfg: &Config, asset: &str) -> (r: Self)
        ensures
            r == StrategyParams::configured(*cfg, asset@),
    {
        StrategyParams {
            entry_bps_threshold: cfg.entry_bps_for_asset(asset),
            book_imb_threshold: cfg.book_imb_thresh,
            min_entry_price: cfg.min_entry_price,
            max_entry_price: cfg.max_entry_price,
            leg2_min_wait_secs: cfg.leg2_min_wait_secs,
            leg2_wait_secs: cfg.leg2_wait_secs,
            force_close_secs: cfg.force_close_secs,
            min_entry_time_secs: 60,
            max_entry_time_secs: 240,
            trade_size_usd: cfg.trade_size_usd,
            slippage_cents: Binary64::ratio(1, 100),
            taker_fee_rate: Binary64::ratio(2, 100),
            maker_fee_rate: Binary64::zero(),
            min_profit_per_share: Binary64::ratio(5, 100),
        }
    }
}

impl Default for StrategyParams {
    fn default() -> (r: Self)
        ensures
            r == StrategyParams::standard(),
    {
        StrategyParams {
            entry_bps_threshold: Binary64::from_u64(5),
            book_imb_threshold: Binary64::ratio(1, 10),
            min_entry_price: Binary64::ratio(55, 100),
            max_entry_price: Binary64::ratio(92, 100),
            leg2_min_wait_secs: 3,
            leg2_wait_secs: 15,
            force_close_secs: 10,
            min_entry_time_secs: 60,
            max_entry_time_secs: 240,
            trade_size_usd: Binary64::from_u64(25),
            slippage_cents: Binary64::ratio(1, 100),
            taker_fee_rate: Binary64::ratio(2, 100),
            maker_fee_rate: Binary64::zero(),
            min_profit_per_share: Binary64::ratio(1, 100),
        }
    }
}

/// The settings are carried over as they are, each to its own parameter, with the
/// threshold of the asset; a trade is entered from one minute to four minutes
/// after its market opens, and pays five cents a share.
pub proof fn lemma_settings_carry_over(cfg: Config, asset: Seq<char>)
    ensures
        ({
            let params = StrategyParams::configured(cfg, asset);
            &&& params.entry_bps_threshold == cfg.entry_bps(asset)
            &&& params.book_imb_threshold == cfg.book_imb_thresh
            &&& params.min_entry_price == cfg.min_entry_price
            &&& params.max_entry_price == cfg.max_entry_price
            &&& params.leg2_min_wait_secs == cfg.leg2_min_wait_secs
            &&& params.leg2_wait_secs == cfg.leg2_wait_secs
            &&& params.force_close_secs == cfg.force_close_secs
            &&& params.trade_size_usd == cfg.trade_size_usd
            &&& params.min_entry_time_secs == 60 && params.max_entry_time_secs == 240
            &&& params.slippage_cents == Binary64::of_ratio(1, 100)
            &&& params.taker_fee_rate == Binary64::of_ratio(2, 100)
            &&& params.maker_fee_rate == Binary64::nothing()
            &&& params.min_profit_per_share == Binary64::of_ratio(5, 100)
        }),
{
}

/// The standard parameters are those of the settings without any variable, but
/// for the profit that is asked for: one cent a share.
pub proof fn lemma_standard_is_default(cfg: Config, asset: Seq<char>, vars: Variables)
    requires
        cfg.reads(vars),
        forall|key: Seq<char>| #[trigger]
            vars.contains_key(key) ==> key == "POLYMARKET_PRIVATE_KEY"@,
    ensures
        StrategyParams::standard() == (StrategyParams {
            min_profit_per_share: Binary64::of_ratio(1, 100),
            ..StrategyParams::configured(cfg, asset)
        }),
{
    config::lemma_defaults(cfg, vars);
}

} // verus!
