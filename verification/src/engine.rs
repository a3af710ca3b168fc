//! What the bot does about each event.

use crate::config::Config;
use crate::execution::order_builder::{
    OrderError, OrderRequest, OrderRequestKind, OrderResult,
};
use crate::execution::portfolio::{ActiveTrade, PortfolioState, RiskStatus};
use crate::execution::redeemer::RedeemCommand;
use crate::execution::risk;
use crate::execution::risk::{RiskLimits, RiskManager, RiskVeto};
use crate::execution::tracker;
use crate::execution::tracker::{OrderTracker, TradeOutcome, TradeRecord, TradeTerms};
use crate::feeds::chainlink::{ChainlinkPrice, FeedConfig};
use crate::feeds::hyperliquid::{HlBookSnapshot, PriceLevel};
use crate::feeds::polymarket::{PolyBook, PolyEvent};
use crate::indicators::book_imbalance;
use crate::indicators::book_imbalance::{BookImbalanceTracker, ImbalanceState};
use crate::indicators::momentum::MomentumTracker;
use crate::indicators::price_aggregator::{PriceAggregator, TimestampedPrice};
use crate::market_discovery::gamma::MarketInfo;
use crate::number::binary64::{Binary64, SIGN_BIT};
use crate::strategy::leg_manager;
use crate::strategy::leg_manager::{LegAction, LegManager, LegState};
use crate::strategy::params::StrategyParams;
use crate::strategy::signal;
use crate::strategy::signal::{evaluate_entry, Direction, EntrySignal, Leg1Side};
use crate::utils::clock;
use crate::utils::clock::{signed, Timestamp};
use crate::utils::name_map::NameMap;
use crate::utils::text;
use crate::utils::text::same_text;
use vstd::prelude::*;
use vstd::string::*;

verus! {

/// How long before its market opens a market is looked up, in seconds.
pub const PREFETCH_ADVANCE_SECS: u64 = 30;

/// A market that is traded.
#[derive(Debug)]
pub struct ActiveMarket {
    pub market_info: MarketInfo,
    pub leg_manager: LegManager,
    pub params: StrategyParams,
    pub open_ts: Timestamp,
    /// Whether the position was sold by a force close.
    pub sold: bool,
}

/// All that the bot knows.
#[derive(Debug)]
pub struct Engine {
    pub config: Config,
    pub prices: PriceAggregator,
    pub momentum_btc: MomentumTracker,
    pub momentum_eth: MomentumTracker,
    pub imbalance: BookImbalanceTracker,
    pub tracker: OrderTracker,
    pub risk: RiskManager,
    /// The markets that are traded, by asset.
    pub markets: NameMap<ActiveMarket>,
    /// The latest prices, by token.
    pub token_prices: NameMap<Binary64>,
    pub boot_time: Timestamp,
}

/// What follows from a new market.
#[derive(Debug)]
pub struct MarketActions {
    /// The redemption of the market before it.
    pub redeem: Option<RedeemCommand>,
    /// The tokens to subscribe to.
    pub subscribe: Vec<String>,
}

/// What follows from an order book.
#[derive(Debug)]
pub enum EntryDecision {
    Nothing,
    Vetoed(RiskVeto),
    Order(OrderRequest),
}

impl ActiveMarket {
    /// Whether the market ends within the calendar, and only a position that was
    /// to be closed was sold.
    pub open spec fn ends(&self, interval: u64) -> bool {
        &&& self.leg_manager.expires()
        &&& clock::in_calendar(self.open_ts.seconds() + clock::as_signed(interval))
        &&& self.sold ==> self.leg_manager.state is ForceClose
    }

    /// Whether the market has a position that is neither locked nor sold.
    pub open spec fn holds_position(&self) -> bool {
        match self.leg_manager.state {
            LegState::Leg2Pending { .. } => true,
            LegState::ForceClose { .. } => !self.sold,
            _ => false,
        }
    }

    fn has_position(&self) -> (r: bool)
        ensures
            r == self.holds_position(),
    {
        match &self.leg_manager.state {
            LegState::Leg2Pending { .. } => true,
            LegState::ForceClose { .. } => !self.sold,
            _ => false,
        }
    }

    /// The same market with its position in another state.
    pub open spec fn with_state(self, state: LegState) -> ActiveMarket {
        ActiveMarket { leg_manager: self.leg_manager.with_state(state), ..self }
    }
}

/// How long to sleep before the next market is looked up, where so many seconds
/// remain until it opens.
pub open spec fn wait_before(secs_remaining: u64) -> int {
    if secs_remaining > PREFETCH_ADVANCE_SECS {
        secs_remaining - PREFETCH_ADVANCE_SECS
    } else {
        0
    }
}

/// How long to sleep before the next market is looked up.
pub fn prefetch_wait(secs_remaining: u64) -> (r: u64)
    ensures
        r == wait_before(secs_remaining),
{
    if secs_remaining > PREFETCH_ADVANCE_SECS {
        secs_remaining - PREFETCH_ADVANCE_SECS
    } else {
        0
    }
}

/// Whether some feeds are those of the settings.
pub open spec fn feeds_of(feeds: Seq<FeedConfig>, config: Config) -> bool {
    if config.has_chainlink() {
        &&& feeds.len() == 2
        &&& feeds[0].asset@ == "BTC"@
        &&& feeds[0].feed_id == config.chainlink_btc_feed_id
        &&& feeds[1].asset@ == "ETH"@
        &&& feeds[1].feed_id == config.chainlink_eth_feed_id
    } else {
        feeds.len() == 0
    }
}

/// The Chainlink feeds of the settings: none where Chainlink is not set up.
pub fn chainlink_feeds(config: &Config) -> (r: Vec<FeedConfig>)
    ensures
        feeds_of(r@, *config),
{
    let mut feeds: Vec<FeedConfig> = Vec::new();
    if config.chainlink_enabled() {
        feeds.push(
            FeedConfig { asset: "BTC".to_owned(), feed_id: config.chainlink_btc_feed_id.clone() },
        );
        feeds.push(
            FeedConfig { asset: "ETH".to_owned(), feed_id: config.chainlink_eth_feed_id.clone() },
        );
    }
    feeds
}

/// Whether a request is what an action asks for.
pub open spec fn asks(
    request: Option<OrderRequest>,
    action: LegAction,
    asset: Seq<char>,
    hint: Option<Binary64>,
) -> bool {
    match action {
        LegAction::PlaceLeg1 { token_id, size_usd, .. } => {
            &&& request is Some
            &&& request->Some_0 matches OrderRequest::Leg1Market {
                token_id: token,
                size_usd: size,
                asset_key,
                hint_price,
            }
            &&& token == token_id
            &&& size == size_usd
            &&& asset_key@ == asset
            &&& hint_price == hint
        },
        LegAction::PlaceLeg2 { token_id, price, shares } => {
            &&& request is Some
            &&& request->Some_0 matches OrderRequest::Leg2Limit {
                token_id: token,
                price: at,
                shares: size,
                asset_key,
            }
            &&& token == token_id
            &&& at == price
            &&& size == shares
            &&& asset_key@ == asset
        },
        LegAction::ForceCloseLeg1 { token_id, shares } => {
            &&& request is Some
            &&& request->Some_0 matches OrderRequest::ForceClose {
                token_id: token,
                shares: size,
                asset_key,
            }
            &&& token == token_id
            &&& size == shares
            &&& asset_key@ == asset
        },
        LegAction::Nothing => request is None,
    }
}

fn request_of(action: LegAction, asset: &str, hint: Option<Binary64>) -> (r: Option<OrderRequest>)
    ensures
        asks(r, action, asset@, hint),
{
    match action {
        LegAction::PlaceLeg1 { token_id, size_usd, .. } => Some(
            OrderRequest::Leg1Market {
                token_id,
                size_usd,
                asset_key: asset.to_owned(),
                hint_price: hint,
            },
        ),
        LegAction::PlaceLeg2 { token_id, price, shares } => Some(
            OrderRequest::Leg2Limit { token_id, price, shares, asset_key: asset.to_owned() },
        ),
        LegAction::ForceCloseLeg1 { token_id, shares } => Some(
            OrderRequest::ForceClose { token_id, shares, asset_key: asset.to_owned() },
        ),
        LegAction::Nothing => None,
    }
}

/// The state and the action after the result of an order.
pub open spec fn after_order(
    manager: LegManager,
    kind: OrderRequestKind,
    result: Result<OrderResult, OrderError>,
    now: Timestamp,
) -> (LegState, LegAction) {
    match (kind, result) {
        (OrderRequestKind::Leg1, Ok(OrderResult::Filled { fill_price, shares })) =>
            manager.after_leg1_fill(fill_price, shares, now),
        (OrderRequestKind::Leg1, Ok(OrderResult::Rejected { .. })) => (
            LegState::Idle,
            LegAction::Nothing,
        ),
        (OrderRequestKind::Leg1, Err(_)) => (LegState::Idle, LegAction::Nothing),
        (OrderRequestKind::Leg2, Ok(OrderResult::Filled { fill_price, .. })) => (
            manager.after_leg2_fill(fill_price),
            LegAction::Nothing,
        ),
        (OrderRequestKind::Leg2, Ok(OrderResult::Rejected { .. })) => manager.after_leg2_rejected(
            now,
        ),
        _ => (manager.state, LegAction::Nothing),
    }
}

/// Whether the result of an order is a filled first leg that the market waits for.
pub open spec fn fills_leg1(
    market: ActiveMarket,
    kind: OrderRequestKind,
    result: Result<OrderResult, OrderError>,
) -> bool {
    kind == OrderRequestKind::Leg1 && result is Ok && result->Ok_0 is Filled
        && market.leg_manager.state is Leg1Pending
}

fn is_leg1_filled(
    market: &ActiveMarket,
    kind: OrderRequestKind,
    result: &Result<OrderResult, OrderError>,
) -> (r: bool)
    ensures
        r == fills_leg1(*market, kind, *result),
{
    match (kind, result, &market.leg_manager.state) {
        (
            OrderRequestKind::Leg1,
            Ok(OrderResult::Filled { .. }),
            LegState::Leg1Pending { .. },
        ) => true,
        _ => false,
    }
}

/// Whether the result of an order ends the position of a market: a filled second
/// leg locks one that waits for it, and a filled force close sells one that is to
/// be closed.
pub open spec fn ends_position(
    market: ActiveMarket,
    kind: OrderRequestKind,
    result: Result<OrderResult, OrderError>,
) -> bool {
    &&& result is Ok && result->Ok_0 is Filled
    &&& match kind {
        OrderRequestKind::Leg1 => false,
        OrderRequestKind::Leg2 => market.leg_manager.state is Leg2Pending,
        OrderRequestKind::ForceClose => market.leg_manager.state is ForceClose && !market.sold,
    }
}

fn is_position_ended(
    market: &ActiveMarket,
    kind: OrderRequestKind,
    result: &Result<OrderResult, OrderError>,
) -> (r: bool)
    ensures
        r == ends_position(*market, kind, *result),
{
    match result {
        Ok(OrderResult::Filled { .. }) => match (kind, &market.leg_manager.state) {
            (OrderRequestKind::Leg2, LegState::Leg2Pending { .. }) => true,
            (OrderRequestKind::ForceClose, LegState::ForceClose { .. }) => !market.sold,
            _ => false,
        },
        _ => false,
    }
}

/// The trade that the result of an order completes: one that ends a position at a
/// known price. A price of zero stands for one that is not known yet, as that of
/// an order that rests in the book. A lock brings in what is expected of it, a
/// sale the difference between the price it was filled at and that of the first
/// leg, on every share.
pub open spec fn completed(
    market: ActiveMarket,
    kind: OrderRequestKind,
    result: Result<OrderResult, OrderError>,
) -> Option<TradeTerms> {
    match (kind, result, market.leg_manager.state) {
        (
            OrderRequestKind::Leg2,
            Ok(OrderResult::Filled { fill_price, .. }),
            LegState::Leg2Pending { leg1_fill_price, leg1_shares, .. },
        ) => if fill_price.equals(Binary64::nothing()) {
            None
        } else {
            Some(
                TradeTerms {
                    leg1_price: leg1_fill_price,
                    leg2_price: Some(fill_price),
                    shares: leg1_shares,
                    pnl: leg_manager::lock_profit(
                        leg1_fill_price,
                        fill_price,
                        market.leg_manager.params,
                    ).product(leg1_shares),
                    outcome: TradeOutcome::Locked,
                },
            )
        },
        (
            OrderRequestKind::ForceClose,
            Ok(OrderResult::Filled { fill_price, .. }),
            LegState::ForceClose { leg1_fill_price, shares, .. },
        ) => if market.sold || fill_price.equals(Binary64::nothing()) {
            None
        } else {
            Some(
                TradeTerms {
                    leg1_price: leg1_fill_price,
                    leg2_price: None,
                    shares,
                    pnl: fill_price.difference(leg1_fill_price).product(shares),
                    outcome: TradeOutcome::ForceClose,
                },
            )
        },
        _ => None,
    }
}

fn trade_completed(
    market: &ActiveMarket,
    kind: OrderRequestKind,
    result: &Result<OrderResult, OrderError>,
) -> (r: Option<TradeTerms>)
    ensures
        r == completed(*market, kind, *result),
{
    let fill_price: Binary64 = match result {
        Ok(OrderResult::Filled { fill_price, .. }) => *fill_price,
        _ => return None,
    };
    if fill_price == Binary64::zero() {
        return None;
    }
    match (kind, &market.leg_manager.state) {
        (
            OrderRequestKind::Leg2,
            LegState::Leg2Pending { leg1_fill_price, leg1_shares, .. },
        ) => Some(
            TradeTerms {
                leg1_price: *leg1_fill_price,
                leg2_price: Some(fill_price),
                shares: *leg1_shares,
                pnl: leg_manager::profit_per_share(
                    *leg1_fill_price,
                    fill_price,
                    &market.leg_manager.params,
                ).times(*leg1_shares),
                outcome: TradeOutcome::Locked,
            },
        ),
        (
            OrderRequestKind::ForceClose,
            LegState::ForceClose { leg1_fill_price, shares, .. },
        ) => if market.sold {
            None
        } else {
            Some(
                TradeTerms {
                    leg1_price: *leg1_fill_price,
                    leg2_price: None,
                    shares: *shares,
                    pnl: fill_price.minus(*leg1_fill_price).times(*shares),
                    outcome: TradeOutcome::ForceClose,
                },
            )
        },
        _ => None,
    }
}

/// A market and the action after the result of an order.
pub open spec fn after_result(
    market: ActiveMarket,
    kind: OrderRequestKind,
    result: Result<OrderResult, OrderError>,
    now: Timestamp,
) -> (ActiveMarket, LegAction) {
    let (state, action) = after_order(market.leg_manager, kind, result, now);
    let sale = kind == OrderRequestKind::ForceClose && ends_position(market, kind, result);
    (
        ActiveMarket {
            leg_manager: market.leg_manager.with_state(state),
            sold: state is ForceClose && (market.sold || sale),
            ..market
        },
        action,
    )
}

/// How the open positions change with the result of an order: a filled first leg
/// opens one, where the market waits for it, and a position that ends is not open
/// any more.
pub open spec fn counts_after(
    counts: Map<Seq<char>, usize>,
    asset: Seq<char>,
    market: ActiveMarket,
    kind: OrderRequestKind,
    result: Result<OrderResult, OrderError>,
) -> Map<Seq<char>, usize> {
    if fills_leg1(market, kind, result) {
        risk::opened(counts, asset)
    } else if ends_position(market, kind, result) {
        risk::closed_one(counts, asset)
    } else {
        counts
    }
}

/// The latest price of a token, if there is one.
pub open spec fn latest_price(prices: Map<Seq<char>, Binary64>, token: Seq<char>) -> Option<
    Binary64,
> {
    if prices.contains_key(token) {
        Some(prices[token])
    } else {
        None
    }
}

/// The latest price of a token, or one half.
pub open spec fn price_or_half(prices: Map<Seq<char>, Binary64>, token: Seq<char>) -> Binary64 {
    match latest_price(prices, token) {
        Some(price) => price,
        None => Binary64::of_ratio(5, 10),
    }
}

/// The name of a direction.
pub open spec fn direction_name(direction: Option<Direction>) -> Seq<char> {
    match direction {
        Some(Direction::Up) => "Up"@,
        Some(Direction::Down) => "Down"@,
        None => "None"@,
    }
}

/// The name of a side.
pub open spec fn side_name(side: Option<Leg1Side>) -> Seq<char> {
    match side {
        Some(Leg1Side::Yes) => "Yes"@,
        Some(Leg1Side::No) => "No"@,
        None => "None"@,
    }
}

fn direction_text(direction: Option<&Direction>) -> (r: String)
    ensures
        r@ == direction_name(
            match direction {
                Some(d) => Some(*d),
                None => None,
            },
        ),
{
    match direction {
        Some(Direction::Up) => "Up".to_owned(),
        Some(Direction::Down) => "Down".to_owned(),
        None => "None".to_owned(),
    }
}

fn side_text(side: Option<&Leg1Side>) -> (r: String)
    ensures
        r@ == side_name(
            match side {
                Some(s) => Some(*s),
                None => None,
            },
        ),
{
    match side {
        Some(Leg1Side::Yes) => "Yes".to_owned(),
        Some(Leg1Side::No) => "No".to_owned(),
        None => "None".to_owned(),
    }
}

pub open spec fn or_zero(x: Option<Binary64>) -> Binary64 {
    match x {
        Some(x) => x,
        None => Binary64::nothing(),
    }
}

fn number_or_zero(x: Option<Binary64>) -> (r: Binary64)
    ensures
        r == or_zero(x),
{
    match x {
        Some(x) => x,
        None => Binary64::zero(),
    }
}

/// Whether an entry of the portfolio shows a market.
pub open spec fn shows(
    trade: ActiveTrade,
    asset: Seq<char>,
    market: ActiveMarket,
    prices: Map<Seq<char>, Binary64>,
    interval: u64,
    now: Timestamp,
) -> bool {
    let open = clock::elapsed(now.nanos(), market.open_ts.nanos());
    let entry = market.leg_manager.state.entry();
    &&& trade.asset@ == asset
    &&& trade.market_slug == market.market_info.slug
    &&& trade.direction@ == direction_name(
        match entry {
            Some(signal) => Some(signal.direction),
            None => None,
        },
    )
    &&& trade.leg1_side@ == side_name(
        match entry {
            Some(signal) => Some(signal.leg1_side),
            None => None,
        },
    )
    &&& trade.leg1_price == or_zero(market.leg_manager.leg1_price())
    &&& trade.leg1_shares == or_zero(market.leg_manager.leg1_shares())
    &&& trade.leg2_status@ == market.leg_manager.leg2_words()
    &&& trade.leg2_price == market.leg_manager.leg2_price()
    &&& trade.unrealised_pnl == market.leg_manager.paper_profit(
        price_or_half(prices, market.market_info.yes_token_id@),
        price_or_half(prices, market.market_info.no_token_id@),
    )
    &&& trade.secs_since_entry == open
    &&& trade.secs_to_expiry == if open < interval {
        interval - open
    } else {
        0
    }
}

/// Whether the entries of the portfolio show the markets of these names that
/// have a position, in order.
pub open spec fn shows_all(
    trades: Seq<ActiveTrade>,
    names: Seq<Seq<char>>,
    markets: Map<Seq<char>, ActiveMarket>,
    prices: Map<Seq<char>, Binary64>,
    interval: u64,
    now: Timestamp,
) -> bool
    decreases names.len(),
{
    if names.len() == 0 {
        trades.len() == 0
    } else {
        let market = markets[names.last()];
        if market.leg_manager.state is Idle {
            shows_all(trades, names.drop_last(), markets, prices, interval, now)
        } else {
            &&& trades.len() > 0
            &&& shows(trades.last(), names.last(), market, prices, interval, now)
            &&& shows_all(
                trades.drop_last(),
                names.drop_last(),
                markets,
                prices,
                interval,
                now,
            )
        }
    }
}

/// What the positions would gain together.
pub open spec fn paper_total(trades: Seq<ActiveTrade>) -> Binary64
    decreases trades.len(),
{
    if trades.len() == 0 {
        Binary64::signed(true, 0)
    } else {
        paper_total(trades.drop_last()).sum(trades.last().unrealised_pnl)
    }
}

fn sum_paper(trades: &Vec<ActiveTrade>) -> (r: Binary64)
    ensures
        r == paper_total(trades@),
{
    let mut total: Binary64 = Binary64::from_bits(SIGN_BIT);
    let mut i: usize = 0;
    assert(trades@.take(0) =~= Seq::<ActiveTrade>::empty());
    while i < trades.len()
        invariant
            i <= trades@.len(),
            total == paper_total(trades@.take(i as int)),
        decreases trades@.len() - i,
    {
        assert(trades@.take(i + 1).drop_last() =~= trades@.take(i as int));
        total = total.plus(trades[i].unrealised_pnl);
        i = i + 1;
    }
    assert(trades@.take(i as int) =~= trades@);
    total
}

/// The middle of a book that has both sides, else zero.
pub open spec fn book_middle(bids: Seq<PriceLevel>, asks: Seq<PriceLevel>) -> Binary64 {
    if bids.len() > 0 && asks.len() > 0 {
        bids[0].price.sum(asks[0].price).quotient(Binary64::of_nat(2))
    } else {
        Binary64::nothing()
    }
}

fn middle_of(snapshot: &HlBookSnapshot) -> (r: Binary64)
    ensures
        r == book_middle(snapshot.bids@, snapshot.asks@),
{
    if snapshot.bids.len() > 0 && snapshot.asks.len() > 0 {
        snapshot.bids[0].price.plus(snapshot.asks[0].price).over(Binary64::from_u64(2))
    } else {
        Binary64::zero()
    }
}

/// The token whose book a market waits for: the second leg's, while that is
/// pending.
pub open spec fn awaited_token(market: ActiveMarket) -> Option<Seq<char>> {
    match market.leg_manager.state {
        LegState::Leg2Pending { signal, .. } => Some(
            match signal.leg1_side {
                Leg1Side::Yes => market.market_info.no_token_id@,
                Leg1Side::No => market.market_info.yes_token_id@,
            },
        ),
        _ => None,
    }
}

/// The state and the action of a market after the book of a token.
pub open spec fn after_book(market: ActiveMarket, token: Seq<char>, now: Timestamp) -> (
    LegState,
    LegAction,
) {
    if awaited_token(market) == Some(token) {
        market.leg_manager.after_tick(now)
    } else {
        (market.leg_manager.state, LegAction::Nothing)
    }
}

/// Whether some requests are what the book of a token asks for, over the markets
/// of these names, in order.
pub open spec fn asks_all(
    requests: Seq<OrderRequest>,
    names: Seq<Seq<char>>,
    markets: Map<Seq<char>, ActiveMarket>,
    token: Seq<char>,
    now: Timestamp,
) -> bool
    decreases names.len(),
{
    if names.len() == 0 {
        requests.len() == 0
    } else {
        let action = after_book(markets[names.last()], token, now).1;
        if action is Nothing {
            asks_all(requests, names.drop_last(), markets, token, now)
        } else {
            &&& requests.len() > 0
            &&& asks(Some(requests.last()), action, names.last(), None)
            &&& asks_all(requests.drop_last(), names.drop_last(), markets, token, now)
        }
    }
}

impl Engine {
    /// Every market ends within the calendar.
    pub open spec fn all_end(&self) -> bool {
        forall|asset: Seq<char>|
            self.markets@.contains_key(asset) ==> (#[trigger] self.markets@[asset]).ends(
                self.config.market_interval_secs,
            )
    }

    /// So many losses in a row that they ask for a cooldown have started one.
    pub open spec fn cooled_down(&self) -> bool {
        self.risk.limits().cooldown_trigger_losses > 0 && self.risk.wants_cooldown(
            self.tracker.losses_in_a_row(),
        ) ==> self.risk.cooldown() is Some
    }

    pub open spec fn wf(&self) -> bool {
        self.all_end() && self.cooled_down()
    }

    /// Whether this is an engine that knows nothing yet: no prices, trades, markets or
    /// open positions.
    pub open spec fn starts(&self, config: Config, boot_time: Timestamp) -> bool {
        &&& self.config == config
        &&& self.boot_time == boot_time
        &&& self.prices.uses_chainlink() == config.has_chainlink()
        &&& self.prices.chainlink() == Map::<Seq<char>, TimestampedPrice>::empty()
        &&& self.prices.hyperliquid() == Map::<Seq<char>, TimestampedPrice>::empty()
        &&& self.prices.open_prices() == Map::<Seq<char>, Binary64>::empty()
        &&& self.momentum_btc.held().len() == 0
        &&& self.momentum_btc.room() == 32
        &&& self.momentum_btc.short_window() == 5
        &&& self.momentum_btc.long_window() == 15
        &&& self.momentum_eth.held().len() == 0
        &&& self.momentum_eth.room() == 32
        &&& self.momentum_eth.short_window() == 5
        &&& self.momentum_eth.long_window() == 15
        &&& self.imbalance.levels() == 5
        &&& self.imbalance.latest() == Map::<Seq<char>, ImbalanceState>::empty()
        &&& self.tracker.kept() == Seq::<TradeRecord>::empty()
        &&& self.tracker.count() == 0
        &&& self.tracker.won() == 0
        &&& self.tracker.lost() == 0
        &&& self.tracker.day() == Binary64::nothing()
        &&& self.tracker.total() == Binary64::nothing()
        &&& self.tracker.losses_in_a_row() == 0
        &&& self.risk.limits() == (RiskLimits {
            max_concurrent_positions: config.max_concurrent_positions,
            max_daily_loss_usd: config.max_daily_loss_usd,
            cooldown_trigger_losses: config.cooldown_after_losses,
            cooldown_duration_secs: config.cooldown_duration_secs,
        })
        &&& self.risk.counts() == Map::<Seq<char>, usize>::empty()
        &&& self.risk.cooldown() is None
        &&& !self.risk.halted()
        &&& self.markets@ == Map::<Seq<char>, ActiveMarket>::empty()
        &&& self.markets.names() == Seq::<Seq<char>>::empty()
        &&& self.token_prices@ == Map::<Seq<char>, Binary64>::empty()
        &&& self.token_prices.names() == Seq::<Seq<char>>::empty()
    }

    pub fn new(config: Config, boot_time: Timestamp) -> (r: Engine)
        ensures
            r.wf(),
            r.starts(config, boot_time),
    {
        let prices: PriceAggregator = PriceAggregator::new(config.chainlink_enabled());
        let risk: RiskManager = RiskManager::new(
            config.max_concurrent_positions,
            config.max_daily_loss_usd,
            config.cooldown_after_losses,
            config.cooldown_duration_secs,
        );
        Engine {
            config,
            prices,
            momentum_btc: MomentumTracker::new(5, 15),
            momentum_eth: MomentumTracker::new(5, 15),
            imbalance: BookImbalanceTracker::new(5),
            tracker: OrderTracker::new(),
            risk,
            markets: NameMap::new(),
            token_prices: NameMap::new(),
            boot_time,
        }
    }

    /// Whether everything but the markets, the trades and the risks is as it was.
    pub open spec fn same_data(&self, before: Engine) -> bool {
        &&& self.config == before.config
        &&& self.prices == before.prices
        &&& self.momentum_btc == before.momentum_btc
        &&& self.momentum_eth == before.momentum_eth
        &&& self.imbalance == before.imbalance
        &&& self.token_prices == before.token_prices
        &&& self.boot_time == before.boot_time
    }

    /// Whether nothing that is counted, and no time, goes beyond its limit with
    /// the result of an order.
    pub open spec fn fits(
        &self,
        asset: Seq<char>,
        kind: OrderRequestKind,
        result: Result<OrderResult, OrderError>,
        now: Timestamp,
    ) -> bool {
        self.markets@.contains_key(asset) ==> {
            &&& fills_leg1(self.markets@[asset], kind, result) ==> self.risk.open_in(asset)
                < usize::MAX
            &&& match completed(self.markets@[asset], kind, result) {
                Some(terms) => {
                    &&& self.tracker.count() < u64::MAX
                    &&& self.tracker.losses_in_a_row() < u32::MAX
                    &&& self.risk.wants_cooldown(self.tracker.streak_after(terms.pnl) as u32)
                        ==> self.risk.cooldown_fits(now)
                },
                None => true,
            }
        }
    }

    /// Whether nothing that is counted, and no time, goes beyond its limit with
    /// the result of an order.
    pub fn can_take(
        &self,
        asset_key: &str,
        kind: OrderRequestKind,
        result: &Result<OrderResult, OrderError>,
        now: Timestamp,
    ) -> (r: bool)
        ensures
            r == self.fits(asset_key@, kind, *result, now),
    {
        let market: &ActiveMarket = match self.markets.get(asset_key) {
            Some(market) => market,
            None => return true,
        };
        if is_leg1_filled(market, kind, result) {
            return self.risk.open_positions(asset_key) < usize::MAX;
        }
        match trade_completed(market, kind, result) {
            Some(terms) => {
                let losses: u32 = self.tracker.consecutive_losses();
                if self.tracker.total_trades() == u64::MAX || losses == u32::MAX {
                    return false;
                }
                let streak: u32 = if terms.pnl.is_above(Binary64::zero()) { 0 } else { losses + 1 };
                !self.risk.is_cooldown_due(streak) || self.risk.can_cool_down(now)
            },
            None => true,
        }
    }

    /// Whether the trades are what they were with the one that the result of an
    /// order completes, if it does.
    pub open spec fn takes_trade(
        &self,
        before: Engine,
        asset: Seq<char>,
        terms: Option<TradeTerms>,
        now: Timestamp,
    ) -> bool {
        match terms {
            Some(terms) => {
                let record = self.tracker.kept().last();
                &&& tracker::records(record, asset, terms, now)
                &&& self.tracker.adds(before.tracker, record)
                &&& self.tracker.day() == before.tracker.day().sum(terms.pnl)
            },
            None => self.tracker == before.tracker,
        }
    }

    /// Whether a cooldown was started at a time, where a trade is completed and so
    /// many trades in a row are lost that it is due; and is as it was if not.
    pub open spec fn cools_down(
        &self,
        before: Engine,
        terms: Option<TradeTerms>,
        now: Timestamp,
    ) -> bool {
        if terms is Some && before.risk.wants_cooldown(self.tracker.losses_in_a_row()) {
            self.risk.cooldown_from(now)
        } else {
            self.risk.cooldown() == before.risk.cooldown()
        }
    }

    /// Whether this is the engine, and `r` the next order, after the result of an
    /// order.
    pub open spec fn takes_result(
        &self,
        before: Engine,
        asset: Seq<char>,
        kind: OrderRequestKind,
        result: Result<OrderResult, OrderError>,
        r: Option<OrderRequest>,
        now: Timestamp,
    ) -> bool {
        &&& self.same_data(before)
        &&& self.markets.names() == before.markets.names()
        &&& self.risk.limits() == before.risk.limits()
        &&& if before.markets@.contains_key(asset) {
            let market = before.markets@[asset];
            let terms = completed(market, kind, result);
            let (next, action) = after_result(market, kind, result, now);
            &&& self.markets@ == before.markets@.insert(asset, next)
            &&& self.risk.counts() == counts_after(
                before.risk.counts(),
                asset,
                market,
                kind,
                result,
            )
            &&& self.takes_trade(before, asset, terms, now)
            &&& self.cools_down(before, terms, now)
            &&& self.risk.halted() == (before.risk.halted() || before.risk.exceeds_daily_loss(
                self.tracker.day(),
            ))
            &&& asks(r, action, asset, None)
        } else {
            r is None && *self == before
        }
    }

    /// Takes note of the result of an order and says what to order next. A
    /// position that ends is not open any more, and its trade is recorded where
    /// the price is known; once the day's losses reach the limit trading is
    /// halted, and after too many losses in a row it cools down.
    pub fn on_order_result(
        &mut self,
        asset_key: &str,
        kind: OrderRequestKind,
        result: Result<OrderResult, OrderError>,
        now: Timestamp,
    ) -> (r: Option<OrderRequest>)
        requires
            old(self).wf(),
            old(self).fits(asset_key@, kind, result, now),
        ensures
            final(self).wf(),
            final(self).takes_result(*old(self), asset_key@, kind, result, r, now),
    {
        let ghost before = *self;
        let market: &mut ActiveMarket = match self.markets.get_mut(asset_key) {
            Some(market) => market,
            None => return None,
        };
        let ghost was = *market;
        let opened: bool = is_leg1_filled(market, kind, &result);
        let ended: bool = is_position_ended(market, kind, &result);
        let terms: Option<TradeTerms> = trade_completed(market, kind, &result);
        let mut action: LegAction = LegAction::Nothing;
        match kind {
            OrderRequestKind::Leg1 => match result {
                Ok(OrderResult::Filled { fill_price, shares }) => {
                    action = market.leg_manager.on_leg1_fill_at(fill_price, shares, now);
                },
                Ok(OrderResult::Rejected { .. }) => {
                    market.leg_manager.on_leg1_rejected();
                    market.sold = false;
                },
                Err(_) => {
                    market.leg_manager.on_leg1_rejected();
                    market.sold = false;
                },
                _ => {},
            },
            OrderRequestKind::Leg2 => match result {
                Ok(OrderResult::Filled { fill_price, .. }) => {
                    market.leg_manager.on_leg2_fill(fill_price);
                },
                Ok(OrderResult::Rejected { .. }) => {
                    action = market.leg_manager.on_leg2_rejected_at(now);
                },
                _ => {},
            },
            OrderRequestKind::ForceClose => {
                if ended {
                    market.sold = true;
                }
            },
        }
        proof {
            let (next, _) = after_result(was, kind, result, now);
            assert(was.ends(before.config.market_interval_secs));
            assert(self.markets@ =~= before.markets@.insert(asset_key@, next));
        }
        if opened {
            self.risk.on_position_opened(asset_key);
        }
        if ended {
            self.risk.on_position_closed(asset_key);
        }
        if let Some(terms) = terms {
            self.tracker.record_trade(
                TradeRecord {
                    asset: asset_key.to_owned(),
                    leg1_price: terms.leg1_price,
                    leg2_price: terms.leg2_price,
                    shares: terms.shares,
                    pnl: terms.pnl,
                    outcome: terms.outcome,
                    timestamp: now,
                },
            );
            if self.risk.is_cooldown_due(self.tracker.consecutive_losses()) {
                self.risk.activate_cooldown_at(now);
            }
        }
        self.risk.check_daily_halt(self.tracker.daily_pnl());
        request_of(action, asset_key, None)
    }

    /// Whether this is the engine with one price more from Chainlink.
    pub open spec fn notes_chainlink(&self, before: Engine, price: ChainlinkPrice) -> bool {
        &&& self.prices.chainlink() == before.prices.chainlink().insert(
            price.asset@,
            TimestampedPrice { price: price.price, timestamp: price.timestamp },
        )
        &&& self.prices.hyperliquid() == before.prices.hyperliquid()
        &&& self.prices.open_prices() == before.prices.open_prices()
        &&& self.prices.uses_chainlink() == before.prices.uses_chainlink()
        &&& *self == (Engine { prices: self.prices, ..before })
    }

    /// Takes note of a price from Chainlink.
    pub fn on_chainlink(&mut self, price: ChainlinkPrice)
        requires
            old(self).wf(),
        ensures
            final(self).wf(),
            final(self).notes_chainlink(*old(self), price),
    {
        self.prices.update_chainlink(price.asset.as_str(), price.price, price.timestamp);
    }

    /// Whether this is the engine at the start of a new trading day.
    pub open spec fn starts_day(&self, before: Engine) -> bool {
        &&& self.tracker.day() == Binary64::nothing()
        &&& self.tracker.kept() == before.tracker.kept()
        &&& self.tracker.total() == before.tracker.total()
        &&& self.tracker.count() == before.tracker.count()
        &&& self.tracker.won() == before.tracker.won()
        &&& self.tracker.lost() == before.tracker.lost()
        &&& self.tracker.losses_in_a_row() == before.tracker.losses_in_a_row()
        &&& !self.risk.halted()
        &&& self.risk.cooldown() == if before.risk.wants_cooldown(
            before.tracker.losses_in_a_row(),
        ) {
            before.risk.cooldown()
        } else {
            None
        }
        &&& self.risk.counts() == before.risk.counts()
        &&& self.risk.limits() == before.risk.limits()
        &&& *self == (Engine { tracker: self.tracker, risk: self.risk, ..before })
    }

    /// Starts a new trading day, at midnight UTC: its result is nothing yet, and a
    /// halt is over. A cooldown is over too, unless the losses in a row that it was
    /// started for go on: then it ends when its time is over.
    pub fn on_new_day(&mut self)
        requires
            old(self).wf(),
        ensures
            final(self).wf(),
            final(self).starts_day(*old(self)),
    {
        if self.risk.is_cooldown_due(self.tracker.consecutive_losses()) {
            self.risk.lift_halt();
        } else {
            self.risk.reset_daily();
        }
        self.tracker.reset_daily();
    }

    /// Whether a market is a new one, opened at a time with the parameters of the
    /// settings.
    pub open spec fn opens(
        config: Config,
        asset: Seq<char>,
        info: MarketInfo,
        open_ts: Timestamp,
    ) -> ActiveMarket {
        let params = StrategyParams::configured(config, asset);
        ActiveMarket {
            market_info: info,
            leg_manager: LegManager {
                state: LegState::Idle,
                params,
                yes_token_id: info.yes_token_id,
                no_token_id: info.no_token_id,
                market_open_ts: open_ts,
                market_interval_secs: config.market_interval_secs,
            },
            params,
            open_ts,
            sold: false,
        }
    }

    /// Whether a command schedules the redemption of a market that is over.
    pub open spec fn redeems(
        command: Option<RedeemCommand>,
        market: ActiveMarket,
        interval: u64,
    ) -> bool {
        &&& command is Some
        &&& command->Some_0 matches RedeemCommand::Schedule { condition_id, slug, market_end_ts }
        &&& condition_id == market.market_info.condition_id
        &&& slug == market.market_info.slug
        &&& market_end_ts.nanos() == market.open_ts.nanos() + clock::as_signed(interval)
            * clock::NANOS_PER_SEC
    }

    /// Whether this is the engine, and `r` what follows, once a new market is
    /// activated on an asset.
    pub open spec fn activates(
        &self,
        before: Engine,
        asset: Seq<char>,
        info: MarketInfo,
        open_ts: Timestamp,
        r: MarketActions,
        now: Timestamp,
    ) -> bool {
        &&& self.config == before.config
        &&& self.prices.rotated(before.prices, asset, now)
        &&& self.momentum_btc == before.momentum_btc
        &&& self.momentum_eth == before.momentum_eth
        &&& self.imbalance == before.imbalance
        &&& self.tracker == before.tracker
        &&& self.risk.limits() == before.risk.limits()
        &&& self.risk.cooldown() == before.risk.cooldown()
        &&& self.risk.halted() == before.risk.halted()
        &&& self.risk.counts() == if before.markets@.contains_key(asset)
            && before.markets@[asset].holds_position() {
            risk::closed_one(before.risk.counts(), asset)
        } else {
            before.risk.counts()
        }
        &&& self.token_prices == before.token_prices
        &&& self.boot_time == before.boot_time
        &&& self.markets@ == before.markets@.insert(
            asset,
            Engine::opens(before.config, asset, info, open_ts),
        )
        &&& self.markets.names() == if before.markets@.contains_key(asset) {
            before.markets.names()
        } else {
            before.markets.names().push(asset)
        }
        &&& if before.markets@.contains_key(asset) {
            Engine::redeems(r.redeem, before.markets@[asset], before.config.market_interval_secs)
        } else {
            r.redeem is None
        }
        &&& r.subscribe@ == seq![info.yes_token_id, info.no_token_id]
    }

    /// Activates a new market on an asset, which opens at `open_ts`, in place of
    /// the one before. A position that is left in that one has expired, and is not
    /// open any more.
    pub fn on_market(
        &mut self,
        asset: String,
        market_info: MarketInfo,
        open_ts: Timestamp,
        now: Timestamp,
    ) -> (r: MarketActions)
        requires
            old(self).wf(),
            clock::in_calendar(
                open_ts.seconds() + clock::as_signed(old(self).config.market_interval_secs),
            ),
        ensures
            final(self).wf(),
            final(self).activates(*old(self), asset@, market_info, open_ts, r, now),
    {
        let ghost before = *self;
        let interval: u64 = self.config.market_interval_secs;
        let redeem: Option<RedeemCommand> = match self.markets.get(asset.as_str()) {
            Some(prev) => {
                assert(prev.ends(interval));
                Some(
                    RedeemCommand::Schedule {
                        condition_id: prev.market_info.condition_id.clone(),
                        slug: prev.market_info.slug.clone(),
                        market_end_ts: prev.open_ts.plus_secs(signed(interval)),
                    },
                )
            },
            None => None,
        };
        let expired: bool = match self.markets.get(asset.as_str()) {
            Some(prev) => prev.has_position(),
            None => false,
        };
        if expired {
            self.risk.on_position_closed(asset.as_str());
        }
        self.prices.rotate_at(asset.as_str(), now);
        let params: StrategyParams = StrategyParams::from_config(&self.config, asset.as_str());
        let leg_manager: LegManager = LegManager::new(
            params,
            market_info.yes_token_id.clone(),
            market_info.no_token_id.clone(),
            open_ts,
            interval,
        );
        let mut subscribe: Vec<String> = Vec::new();
        subscribe.push(market_info.yes_token_id.clone());
        subscribe.push(market_info.no_token_id.clone());
        assert(subscribe@ =~= seq![market_info.yes_token_id, market_info.no_token_id]);
        self.markets.insert(
            asset,
            ActiveMarket { market_info, leg_manager, params, open_ts, sold: false },
        );
        MarketActions { redeem, subscribe }
    }

    fn token_price_or_half(&self, token: &str) -> (r: Binary64)
        ensures
            r == price_or_half(self.token_prices@, token@),
    {
        match self.token_prices.get(token) {
            Some(price) => *price,
            None => Binary64::ratio(5, 10),
        }
    }

    /// The signal that an asset gives at a time, if its market is idle and all
    /// that is needed is known.
    pub open spec fn signal_at(&self, asset: Seq<char>, now: Timestamp) -> bool {
        let market = self.markets@[asset];
        &&& self.markets@.contains_key(asset)
        &&& market.leg_manager.state is Idle
        &&& self.prices.knows(asset, now)
        &&& self.imbalance.latest().contains_key(asset)
        &&& signal::entry_due(
            self.prices.move_since_open(asset, now),
            self.imbalance.latest()[asset].imbalance,
            price_or_half(self.token_prices@, market.market_info.yes_token_id@),
            price_or_half(self.token_prices@, market.market_info.no_token_id@),
            clock::elapsed(now.nanos(), market.open_ts.nanos()) as u64,
            market.params,
        )
    }

    /// Whether a signal is the one that an asset gives.
    pub open spec fn signals(&self, asset: Seq<char>, entry: EntrySignal, now: Timestamp) -> bool {
        let bps = self.prices.move_since_open(asset, now);
        &&& entry.asset@ == asset
        &&& entry == signal::entry_signal(
            entry.asset,
            bps,
            self.imbalance.latest()[asset].imbalance,
        )
    }

    fn signal_of(&self, asset: &str, now: Timestamp) -> (r: Option<EntrySignal>)
        ensures
            r is Some <==> self.signal_at(asset@, now),
            r matches Some(entry) ==> self.signals(asset@, entry, now),
    {
        let market: &ActiveMarket = match self.markets.get(asset) {
            Some(market) => market,
            None => return None,
        };
        if !market.leg_manager.is_idle() {
            return None;
        }
        let price_state = match self.prices.get_state_at(asset, now) {
            Some(state) => state,
            None => return None,
        };
        let imbalance: &ImbalanceState = match self.imbalance.get(asset) {
            Some(state) => state,
            None => return None,
        };
        let yes_price: Binary64 = self.token_price_or_half(
            market.market_info.yes_token_id.as_str(),
        );
        let no_price: Binary64 = self.token_price_or_half(market.market_info.no_token_id.as_str());
        let secs_since_open: u64 = now.elapsed_secs(market.open_ts);
        evaluate_entry(
            &price_state,
            imbalance,
            yes_price,
            no_price,
            secs_since_open,
            &market.params,
        )
    }

    /// Whether a decision is the right one on an asset, where a signal is due: the
    /// order of the first leg if the risks allow it, and their veto if not.
    pub open spec fn decides(
        &self,
        decision: EntryDecision,
        markets: Map<Seq<char>, ActiveMarket>,
        asset: Seq<char>,
        now: Timestamp,
    ) -> bool {
        let market = self.markets@[asset];
        if !self.signal_at(asset, now) {
            decision is Nothing && markets == self.markets@
        } else if self.risk.allows(
            asset,
            self.tracker.day(),
            self.tracker.losses_in_a_row(),
            now,
        ) {
            exists|entry: EntrySignal|
                {
                    let (state, action) = market.leg_manager.after_signal(entry, now);
                    &&& #[trigger] self.signals(asset, entry, now)
                    &&& markets == self.markets@.insert(asset, market.with_state(state))
                    &&& decision matches EntryDecision::Order(request) && asks(
                        Some(request),
                        action,
                        asset,
                        latest_price(
                            self.token_prices@,
                            market.leg_manager.leg1_token(entry.leg1_side)@,
                        ),
                    )
                }
        } else {
            &&& markets == self.markets@
            &&& decision matches EntryDecision::Vetoed(veto) && self.risk.answers(
                Err(veto),
                asset,
                self.tracker.day(),
                self.tracker.losses_in_a_row(),
                now,
            )
        }
    }

    fn decide_entry(&mut self, asset: &str, now: Timestamp) -> (r: EntryDecision)
        requires
            old(self).wf(),
        ensures
            final(self).wf(),
            final(self).same_data(*old(self)),
            final(self).tracker == old(self).tracker,
            final(self).risk == old(self).risk,
            final(self).markets.names() == old(self).markets.names(),
            old(self).decides(r, final(self).markets@, asset@, now),
    {
        let ghost before = *self;
        let entry: EntrySignal = match self.signal_of(asset, now) {
            Some(entry) => entry,
            None => return EntryDecision::Nothing,
        };
        let verdict: Result<(), RiskVeto> = self.risk.check_entry_at(
            asset,
            self.tracker.daily_pnl(),
            self.tracker.consecutive_losses(),
            now,
        );
        if let Err(veto) = verdict {
            return EntryDecision::Vetoed(veto);
        }
        let ghost was = before.markets@[asset@];
        let action: LegAction = match self.markets.get_mut(asset) {
            Some(market) => market.leg_manager.on_signal_at(entry, now),
            None => LegAction::Nothing,
        };
        let hint: Option<Binary64> = match &action {
            LegAction::PlaceLeg1 { token_id, .. } => match self.token_prices.get(
                token_id.as_str(),
            ) {
                Some(price) => Some(*price),
                None => None,
            },
            _ => None,
        };
        proof {
            let (state, _) = was.leg_manager.after_signal(entry, now);
            assert(self.markets@ =~= before.markets@.insert(asset@, was.with_state(state)));
            assert(was.ends(before.config.market_interval_secs));
            assert(before.signals(asset@, entry, now));
        }
        match request_of(action, asset, hint) {
            Some(request) => EntryDecision::Order(request),
            None => EntryDecision::Nothing,
        }
    }

    /// Whether the data is what it was, with a new order book of an asset.
    pub open spec fn holds_book(&self, before: Engine, snapshot: HlBookSnapshot) -> bool {
        let asset = snapshot.asset@;
        let mid = book_middle(snapshot.bids@, snapshot.asks@);
        let priced = Binary64::nothing().less(mid);
        let sample = (snapshot.timestamp, mid);
        &&& self.config == before.config
        &&& self.prices.hyperliquid() == if priced {
            before.prices.hyperliquid().insert(
                asset,
                TimestampedPrice { price: mid, timestamp: snapshot.timestamp },
            )
        } else {
            before.prices.hyperliquid()
        }
        &&& self.prices.chainlink() == before.prices.chainlink()
        &&& self.prices.open_prices() == before.prices.open_prices()
        &&& self.prices.uses_chainlink() == before.prices.uses_chainlink()
        &&& if priced && asset == "BTC"@ {
            Engine::sampled(self.momentum_btc, before.momentum_btc, sample)
        } else {
            self.momentum_btc == before.momentum_btc
        }
        &&& if priced && asset == "ETH"@ {
            Engine::sampled(self.momentum_eth, before.momentum_eth, sample)
        } else {
            self.momentum_eth == before.momentum_eth
        }
        &&& self.imbalance.levels() == before.imbalance.levels()
        &&& self.imbalance.latest() == before.imbalance.latest().insert(
            asset,
            book_imbalance::state_of(snapshot.bids@, snapshot.asks@, before.imbalance.levels()),
        )
        &&& self.tracker == before.tracker
        &&& self.risk == before.risk
        &&& self.token_prices == before.token_prices
        &&& self.boot_time == before.boot_time
    }

    /// Whether a tracker has taken one sample more.
    pub open spec fn sampled(
        tracker: MomentumTracker,
        before: MomentumTracker,
        sample: (Timestamp, Binary64),
    ) -> bool {
        &&& tracker.held() == if before.held().len() < before.room() {
            before.held().push(sample)
        } else {
            before.held().drop_first().push(sample)
        }
        &&& tracker.room() == before.room()
        &&& tracker.short_window() == before.short_window()
        &&& tracker.long_window() == before.long_window()
    }

    fn note_book(&mut self, snapshot: &HlBookSnapshot)
        ensures
            final(self).holds_book(*old(self), *snapshot),
            final(self).markets == old(self).markets,
    {
        proof {
            reveal_strlit("BTC");
            reveal_strlit("ETH");
            assert("BTC"@[0] != "ETH"@[0]);
        }
        let mid: Binary64 = middle_of(snapshot);
        if mid.is_above(Binary64::zero()) {
            self.prices.update_hl_mid(snapshot.asset.as_str(), mid, snapshot.timestamp);
            if same_text(snapshot.asset.as_str(), "BTC") {
                self.momentum_btc.push(mid, snapshot.timestamp);
            } else if same_text(snapshot.asset.as_str(), "ETH") {
                self.momentum_eth.push(mid, snapshot.timestamp);
            }
        }
        self.imbalance.update(snapshot);
    }

    /// Whether this is the engine, and `r` its decision, after an order book: the
    /// book is noted first, and what is known with it decides.
    pub open spec fn takes_book(
        &self,
        before: Engine,
        snapshot: HlBookSnapshot,
        r: EntryDecision,
        now: Timestamp,
    ) -> bool {
        &&& self.holds_book(before, snapshot)
        &&& self.markets.names() == before.markets.names()
        &&& exists|noted: Engine| #[trigger]
            noted.holds_book(before, snapshot) && noted.markets == before.markets && noted.decides(
                r,
                self.markets@,
                snapshot.asset@,
                now,
            )
    }

    /// Takes note of an order book and decides on an entry.
    pub fn on_book(&mut self, snapshot: &HlBookSnapshot, now: Timestamp) -> (r: EntryDecision)
        requires
            old(self).wf(),
        ensures
            final(self).wf(),
            final(self).takes_book(*old(self), *snapshot, r, now),
    {
        self.note_book(snapshot);
        let ghost noted = *self;
        let r = self.decide_entry(snapshot.asset.as_str(), now);
        assert(noted.holds_book(*old(self), *snapshot));
        r
    }

    /// Whether this is the engine, and `r` the orders, after what Polymarket
    /// reports.
    pub open spec fn hears(
        &self,
        before: Engine,
        event: PolyEvent,
        r: Seq<OrderRequest>,
        now: Timestamp,
    ) -> bool {
        &&& self.config == before.config
        &&& self.prices == before.prices
        &&& self.momentum_btc == before.momentum_btc
        &&& self.momentum_eth == before.momentum_eth
        &&& self.imbalance == before.imbalance
        &&& self.tracker == before.tracker
        &&& self.risk == before.risk
        &&& self.boot_time == before.boot_time
        &&& self.markets.names() == before.markets.names()
        &&& match event {
            PolyEvent::Price(price) => {
                &&& self.token_prices@ == before.token_prices@.insert(price.token_id@, price.price)
                &&& self.markets@ == before.markets@
                &&& r.len() == 0
            },
            PolyEvent::Book(book) => if book.asks@.len() == 0 {
                &&& self.token_prices@ == before.token_prices@
                &&& self.markets@ == before.markets@
                &&& r.len() == 0
            } else {
                &&& self.token_prices@ == before.token_prices@.insert(
                    book.token_id@,
                    book.asks@[0].price,
                )
                &&& self.markets@.dom() == before.markets@.dom()
                &&& forall|asset: Seq<char>|
                    before.markets@.contains_key(asset) ==> (#[trigger] self.markets@[asset])
                        == before.markets@[asset].with_state(
                        after_book(before.markets@[asset], book.token_id@, now).0,
                    )
                &&& asks_all(r, before.markets.names(), before.markets@, book.token_id@, now)
            },
        }
    }

    /// Takes note of what Polymarket reports and says what to order: a position
    /// whose second leg is still pending is closed if its market is about to end.
    pub fn on_poly_event(&mut self, event: PolyEvent, now: Timestamp) -> (r: Vec<OrderRequest>)
        requires
            old(self).wf(),
        ensures
            final(self).wf(),
            final(self).hears(*old(self), event, r@, now),
    {
        match event {
            PolyEvent::Price(price) => {
                self.token_prices.insert(price.token_id, price.price);
                Vec::new()
            },
            PolyEvent::Book(book) => {
                if book.asks.len() == 0 {
                    return Vec::new();
                }
                self.token_prices.insert(book.token_id.clone(), book.asks[0].price);
                self.tick_markets(&book, now)
            },
        }
    }

    fn tick_markets(&mut self, book: &PolyBook, now: Timestamp) -> (r: Vec<OrderRequest>)
        requires
            old(self).wf(),
            book.asks@.len() > 0,
        ensures
            final(self).wf(),
            final(self).same_data(*old(self)),
            final(self).tracker == old(self).tracker,
            final(self).risk == old(self).risk,
            final(self).markets.names() == old(self).markets.names(),
            final(self).markets@.dom() == old(self).markets@.dom(),
            forall|asset: Seq<char>|
                old(self).markets@.contains_key(asset) ==> (#[trigger] final(self).markets@[asset]) == old(self).markets@[asset].with_state(
                    after_book(old(self).markets@[asset], book.token_id@, now).0,
                ),
            asks_all(r@, old(self).markets.names(), old(self).markets@, book.token_id@, now),
    {
        let ghost before = *self;
        let ghost names = self.markets.names();
        let ghost token = book.token_id@;
        let best_ask: Binary64 = book.asks[0].price;
        let mut out: Vec<OrderRequest> = Vec::new();
        let len: usize = self.markets.len();
        let mut i: usize = 0;
        assert(names.take(0) =~= Seq::<Seq<char>>::empty());
        while i < len
            invariant
                i <= len == names.len(),
                before.markets.listed(),
                before.wf(),
                names == before.markets.names(),
                self.markets.names() == names,
                self.markets@.dom() == before.markets@.dom(),
                self.same_data(before),
                self.tracker == before.tracker,
                self.risk == before.risk,
                token == book.token_id@,
                book.asks@.len() > 0,
                forall|j: int|
                    0 <= j < i ==> self.markets@[#[trigger] names[j]]
                        == before.markets@[names[j]].with_state(
                        after_book(before.markets@[names[j]], token, now).0,
                    ),
                forall|j: int|
                    i <= j < len ==> self.markets@[#[trigger] names[j]]
                        == before.markets@[names[j]],
                asks_all(out@, names.take(i as int), before.markets@, token, now),
            decreases len - i,
        {
            let ghost here = *self;
            let ghost name = names[i as int];
            let ghost was = before.markets@[name];
            let ghost had = out@;
            proof {
                assert(names.contains(name));
                assert(before.markets@.contains_key(name));
                assert(was.ends(before.config.market_interval_secs));
                assert(names.take(i + 1).drop_last() =~= names.take(i as int));
                assert(names.take(i + 1).last() == name);
            }
            let asset: String = self.markets.name(i).clone();
            let market: &mut ActiveMarket = self.markets.value_mut(i);
            let awaited: bool = match &market.leg_manager.state {
                LegState::Leg2Pending { signal, .. } => match signal.leg1_side {
                    Leg1Side::Yes => same_text(
                        book.token_id.as_str(),
                        market.market_info.no_token_id.as_str(),
                    ),
                    Leg1Side::No => same_text(
                        book.token_id.as_str(),
                        market.market_info.yes_token_id.as_str(),
                    ),
                },
                _ => false,
            };
            let action: LegAction = if awaited {
                market.leg_manager.on_tick(best_ask, now)
            } else {
                LegAction::Nothing
            };
            proof {
                let (state, act) = after_book(was, token, now);
                assert(action == act);
                assert(self.markets@ =~= here.markets@.insert(name, was.with_state(state)));
                assert forall|j: int| 0 <= j < len && j != i implies self.markets@[#[trigger] names[j]]
                    == here.markets@[names[j]] by {
                    assert(names[j] != name);
                }
                assert(self.markets@.dom() =~= before.markets@.dom());
            }
            match request_of(action, asset.as_str(), None) {
                Some(request) => {
                    out.push(request);
                    assert(out@.drop_last() =~= had);
                },
                None => {},
            }
            i = i + 1;
        }
        proof {
            assert(names.take(i as int) =~= names);
            assert forall|asset: Seq<char>|
                before.markets@.contains_key(asset) implies (#[trigger] self.markets@[asset])
                == before.markets@[asset].with_state(
                after_book(before.markets@[asset], token, now).0,
            ) by {
                let j = choose|j: int| 0 <= j < names.len() && names[j] == asset;
                assert(names.contains(asset));
                assert(self.markets@[names[j]] == before.markets@[names[j]].with_state(
                    after_book(before.markets@[names[j]], token, now).0,
                ));
            }
            assert forall|asset: Seq<char>| self.markets@.contains_key(asset) implies (
            #[trigger] self.markets@[asset]).ends(self.config.market_interval_secs) by {
                assert(before.markets@.contains_key(asset));
                assert(before.markets@[asset].ends(before.config.market_interval_secs));
            }
        }
        out
    }

    fn active_trade(&self, i: usize, now: Timestamp) -> (r: ActiveTrade)
        requires
            i < self.markets.names().len(),
        ensures
            shows(
                r,
                self.markets.names()[i as int],
                self.markets@[self.markets.names()[i as int]],
                self.token_prices@,
                self.config.market_interval_secs,
                now,
            ),
    {
        let market: &ActiveMarket = self.markets.value(i);
        let interval: u64 = self.config.market_interval_secs;
        let secs_since_entry: u64 = now.elapsed_secs(market.open_ts);
        let secs_to_expiry: u64 = if secs_since_entry < interval {
            interval - secs_since_entry
        } else {
            0
        };
        let yes_price: Binary64 = self.token_price_or_half(
            market.market_info.yes_token_id.as_str(),
        );
        let no_price: Binary64 = self.token_price_or_half(market.market_info.no_token_id.as_str());
        ActiveTrade {
            asset: self.markets.name(i).clone(),
            market_slug: market.market_info.slug.clone(),
            direction: direction_text(market.leg_manager.current_direction()),
            leg1_side: side_text(market.leg_manager.current_leg1_side()),
            leg1_price: number_or_zero(market.leg_manager.leg1_fill_price()),
            leg1_shares: number_or_zero(market.leg_manager.leg1_fill_shares()),
            leg2_status: market.leg_manager.leg2_status(),
            leg2_price: market.leg_manager.leg2_fill_price(),
            unrealised_pnl: market.leg_manager.unrealised_pnl(yes_price, no_price),
            secs_since_entry,
            secs_to_expiry,
        }
    }

    /// Whether `r` is what is shown of the bot at a time.
    pub open spec fn reports(&self, r: PortfolioState, now: Timestamp) -> bool {
        &&& r.timestamp == now
        &&& r.uptime_secs == clock::elapsed(now.nanos(), self.boot_time.nanos())
        &&& r.total_realised_pnl == self.tracker.total()
        &&& r.unrealised_pnl == paper_total(r.active_trades@)
        &&& r.daily_pnl == self.tracker.day()
        &&& r.total_trades == self.tracker.count()
        &&& r.winning_trades == self.tracker.won()
        &&& r.losing_trades == self.tracker.lost()
        &&& r.win_rate == self.tracker.winning_share()
        &&& shows_all(
            r.active_trades@,
            self.markets.names(),
            self.markets@,
            self.token_prices@,
            self.config.market_interval_secs,
            now,
        )
        &&& r.risk_status == (RiskStatus {
            daily_loss_limit: self.config.max_daily_loss_usd,
            daily_loss_remaining: self.config.max_daily_loss_usd.sum(self.tracker.day()),
            is_halted: self.risk.halted(),
            cooldown_active: self.risk.cooling(now),
            consecutive_losses: self.tracker.losses_in_a_row(),
            open_positions_btc: self.risk.open_in("BTC"@),
            open_positions_eth: self.risk.open_in("ETH"@),
        })
    }

    /// What is shown of the bot at a time.
    pub fn portfolio(&self, now: Timestamp) -> (r: PortfolioState)
        ensures
            self.reports(r, now),
    {
        let ghost names = self.markets.names();
        let ghost interval = self.config.market_interval_secs;
        let mut active_trades: Vec<ActiveTrade> = Vec::new();
        let len: usize = self.markets.len();
        let mut i: usize = 0;
        assert(names.take(0) =~= Seq::<Seq<char>>::empty());
        while i < len
            invariant
                i <= len == names.len(),
                names == self.markets.names(),
                interval == self.config.market_interval_secs,
                shows_all(
                    active_trades@,
                    names.take(i as int),
                    self.markets@,
                    self.token_prices@,
                    interval,
                    now,
                ),
            decreases len - i,
        {
            let ghost had = active_trades@;
            assert(names.take(i + 1).drop_last() =~= names.take(i as int));
            assert(names.take(i + 1).last() == names[i as int]);
            if !self.markets.value(i).leg_manager.is_idle() {
                active_trades.push(self.active_trade(i, now));
                assert(active_trades@.drop_last() =~= had);
            }
            i = i + 1;
        }
        assert(names.take(i as int) =~= names);
        let unrealised_pnl: Binary64 = sum_paper(&active_trades);
        let daily_pnl: Binary64 = self.tracker.daily_pnl();
        PortfolioState {
            timestamp: now,
            uptime_secs: now.elapsed_secs(self.boot_time),
            total_realised_pnl: self.tracker.total_realised_pnl(),
            unrealised_pnl,
            daily_pnl,
            total_trades: self.tracker.total_trades(),
            winning_trades: self.tracker.winning_trades(),
            losing_trades: self.tracker.losing_trades(),
            win_rate: self.tracker.win_rate(),
            active_trades,
            risk_status: RiskStatus {
                daily_loss_limit: self.config.max_daily_loss_usd,
                daily_loss_remaining: self.config.max_daily_loss_usd.plus(daily_pnl),
                is_halted: self.risk.is_halted(),
                cooldown_active: self.risk.cooldown_active_at(now),
                consecutive_losses: self.tracker.consecutive_losses(),
                open_positions_btc: self.risk.open_positions("BTC"),
                open_positions_eth: self.risk.open_positions("ETH"),
            },
        }
    }
}

/// A first leg is ordered only where its signal is due and the risks allow it:
/// while trading is halted, after the daily loss limit, at the limit of open
/// positions, during a cooldown or after too many losses in a row, nothing is.
pub proof fn lemma_orders_are_allowed(
    engine: Engine,
    decision: EntryDecision,
    markets: Map<Seq<char>, ActiveMarket>,
    asset: Seq<char>,
    now: Timestamp,
)
    requires
        engine.decides(decision, markets, asset, now),
        decision is Order,
    ensures
        engine.signal_at(asset, now),
        engine.risk.allows(asset, engine.tracker.day(), engine.tracker.losses_in_a_row(), now),
        decision->Order_0 is Leg1Market,
{
}

/// Once the day's losses reach the limit, no first leg is ordered any more: not
/// while they do, and not after that while the halt that they led to lasts, which
/// only a new day lifts.
pub proof fn lemma_daily_loss_stops_trading(
    engine: Engine,
    decision: EntryDecision,
    markets: Map<Seq<char>, ActiveMarket>,
    asset: Seq<char>,
    now: Timestamp,
)
    requires
        engine.decides(decision, markets, asset, now),
        engine.risk.exceeds_daily_loss(engine.tracker.day()) || engine.risk.halted(),
    ensures
        !(decision is Order),
        markets == engine.markets@,
{
}

/// A cooldown is the only thing that losses in a row lead to, and it ends: without
/// a halt, a daily loss at the limit, too many open positions or a cooldown that
/// lasts, every trade is allowed.
pub proof fn lemma_trading_goes_on(engine: Engine, asset: Seq<char>, now: Timestamp)
    requires
        engine.wf(),
        engine.risk.limits().cooldown_trigger_losses > 0,
        !engine.risk.halted(),
        !engine.risk.exceeds_daily_loss(engine.tracker.day()),
        engine.risk.open_in(asset) < engine.risk.limits().max_concurrent_positions,
        !engine.risk.cooling(now),
    ensures
        engine.risk.allows(asset, engine.tracker.day(), engine.tracker.losses_in_a_row(), now),
{
}

/// A position takes up a place among the open ones exactly while its market holds
/// it: the result of an order opens a place where the market comes to hold a
/// position, frees one where it ceases to, and leaves the places as they are
/// otherwise. (A first leg that is rejected although it was filled before makes
/// the market forget its position; the place stays taken then.)
pub proof fn lemma_places_follow_positions(
    counts: Map<Seq<char>, usize>,
    asset: Seq<char>,
    market: ActiveMarket,
    kind: OrderRequestKind,
    result: Result<OrderResult, OrderError>,
    now: Timestamp,
)
    requires
        market.sold ==> market.leg_manager.state is ForceClose,
        kind == OrderRequestKind::Leg1 && (result is Err || result->Ok_0 is Rejected)
            ==> !market.holds_position(),
    ensures
        ({
            let next = after_result(market, kind, result, now).0;
            counts_after(counts, asset, market, kind, result) == if !market.holds_position()
                && next.holds_position() {
                risk::opened(counts, asset)
            } else if market.holds_position() && !next.holds_position() {
                risk::closed_one(counts, asset)
            } else {
                counts
            }
        }),
{
}

/// No trade is recorded but of a position that ends.
pub proof fn lemma_trades_end_positions(
    market: ActiveMarket,
    kind: OrderRequestKind,
    result: Result<OrderResult, OrderError>,
)
    requires
        completed(market, kind, result) is Some,
    ensures
        ends_position(market, kind, result),
        market.holds_position(),
        !(result->Ok_0->Filled_fill_price.equals(Binary64::nothing())),
{
}

/// Nothing is ordered for a market that has a position.
pub proof fn lemma_no_second_entry(
    engine: Engine,
    decision: EntryDecision,
    markets: Map<Seq<char>, ActiveMarket>,
    asset: Seq<char>,
    now: Timestamp,
)
    requires
        engine.decides(decision, markets, asset, now),
        engine.markets@.contains_key(asset),
        !(engine.markets@[asset].leg_manager.state is Idle),
    ensures
        decision is Nothing,
        markets == engine.markets@,
{
}

} // verus!
