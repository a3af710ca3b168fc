//! What the decisions of the engine add up to.

use crate::config::Config;
use crate::engine;
use crate::engine::{ActiveMarket, Engine, EntryDecision, MarketActions};
use crate::execution::order_builder::{OrderError, OrderRequest, OrderRequestKind, OrderResult};
use crate::execution::portfolio::{ActiveTrade, PortfolioState};
use crate::execution::redeemer::RedeemCommand;
use crate::execution::tracker::TradeTerms;
use crate::feeds::chainlink::{ChainlinkPrice, FeedConfig};
use crate::feeds::hyperliquid::{HlBookSnapshot, PriceLevel};
use crate::feeds::polymarket::PolyEvent;
use crate::indicators::book_imbalance;
use crate::indicators::momentum::MomentumTracker;
use crate::market_discovery::gamma::MarketInfo;
use crate::number::algebra;
use crate::number::binary64::Binary64;
use crate::number::precision;
use crate::number::rounding;
use crate::strategy::leg_manager;
use crate::strategy::leg_manager::LegAction;
use crate::strategy::params::StrategyParams;
use crate::strategy::signal;
use crate::strategy::signal::EntrySignal;
use crate::utils::clock;
use crate::utils::clock::Timestamp;
use vstd::prelude::*;

verus! {

/// A request asks for just what the action says: the same token, in the same
/// amount, for the asset of the market; and no action asks for nothing.
pub proof fn lemma_requests_follow_actions(
    request: Option<OrderRequest>,
    action: LegAction,
    asset: Seq<char>,
    hint: Option<Binary64>,
)
    requires
        engine::asks(request, action, asset, hint),
    ensures
        request is None <==> action is Nothing,
        action is PlaceLeg1 ==> {
            &&& request->0 is Leg1Market
            &&& request->0->Leg1Market_token_id == action->PlaceLeg1_token_id
            &&& request->0->size_usd == action->PlaceLeg1_size_usd
            &&& request->0->Leg1Market_asset_key@ == asset
            &&& request->0->hint_price == hint
        },
        action is PlaceLeg2 ==> {
            &&& request->0 is Leg2Limit
            &&& request->0->Leg2Limit_token_id == action->PlaceLeg2_token_id
            &&& request->0->Leg2Limit_price == action->PlaceLeg2_price
            &&& request->0->Leg2Limit_shares == action->PlaceLeg2_shares
            &&& request->0->Leg2Limit_asset_key@ == asset
        },
        action is ForceCloseLeg1 ==> {
            &&& request->0 is ForceClose
            &&& request->0->ForceClose_token_id == action->ForceCloseLeg1_token_id
            &&& request->0->ForceClose_shares == action->ForceCloseLeg1_shares
            &&& request->0->ForceClose_asset_key@ == asset
        },
{
}

/// Whether the latest price of a token, or one half without any, lies in the range
/// for entries.
pub open spec fn within_range(
    prices: Map<Seq<char>, Binary64>,
    token: Seq<char>,
    params: StrategyParams,
) -> bool {
    let price = if prices.contains_key(token) {
        prices[token]
    } else {
        Binary64::of_ratio(1, 2)
    };
    !price.less(params.min_entry_price) && !params.max_entry_price.less(price)
}

/// An entry buys the YES token of its market on a rise and the NO token on a
/// fall, for the size of a trade, with the latest price of that token as a hint,
/// if there is one; the market waits for that order from then on, and no other
/// market changes.
pub proof fn lemma_entry_buys_direction(
    engine: Engine,
    decision: EntryDecision,
    markets: Map<Seq<char>, ActiveMarket>,
    asset: Seq<char>,
    now: Timestamp,
    other: Seq<char>,
)
    requires
        engine.decides(decision, markets, asset, now),
        decision is Order,
        other != asset,
    ensures
        ({
            let market = engine.markets@[asset];
            let request = decision->Order_0;
            let rises = Binary64::nothing().less(engine.prices.move_since_open(asset, now));
            let token = if rises {
                market.leg_manager.yes_token_id
            } else {
                market.leg_manager.no_token_id
            };
            let imbalance = engine.imbalance.latest()[asset].imbalance;
            &&& engine.markets@.contains_key(asset)
            &&& market.leg_manager.state is Idle
            &&& request is Leg1Market
            &&& request->Leg1Market_token_id == token
            &&& request->size_usd == market.leg_manager.params.trade_size_usd
            &&& request->Leg1Market_asset_key@ == asset
            &&& engine.token_prices@.contains_key(token@) ==> request->hint_price == Some(
                engine.token_prices@[token@],
            )
            &&& !engine.token_prices@.contains_key(token@) ==> request->hint_price is None
            &&& rises ==> within_range(
                engine.token_prices@,
                market.market_info.yes_token_id@,
                market.params,
            )
            &&& !rises ==> within_range(
                engine.token_prices@,
                market.market_info.no_token_id@,
                market.params,
            )
            &&& rises ==> market.params.book_imb_threshold.less(imbalance)
            &&& !rises ==> imbalance.less(market.params.book_imb_threshold.negated())
            &&& markets[asset].leg_manager.state is Leg1Pending
            &&& markets.contains_key(other) == engine.markets@.contains_key(other)
            &&& engine.markets@.contains_key(other) ==> markets[other] == engine.markets@[other]
        }),
{
    let market = engine.markets@[asset];
    let entry = choose|entry: EntrySignal|
        {
            let (state, action) = market.leg_manager.after_signal(entry, now);
            &&& #[trigger] engine.signals(asset, entry, now)
            &&& markets == engine.markets@.insert(asset, market.with_state(state))
            &&& decision matches EntryDecision::Order(request) && engine::asks(
                Some(request),
                action,
                asset,
                engine::latest_price(
                    engine.token_prices@,
                    market.leg_manager.leg1_token(entry.leg1_side)@,
                ),
            )
        };
    let bps = engine.prices.move_since_open(asset, now);
    let imbalance = engine.imbalance.latest()[asset].imbalance;
    algebra::lemma_ratio_cancels(1, 2, 5);
    signal::lemma_signal_meets_conditions(
        entry.asset,
        bps,
        imbalance,
        engine::price_or_half(engine.token_prices@, market.market_info.yes_token_id@),
        engine::price_or_half(engine.token_prices@, market.market_info.no_token_id@),
        clock::elapsed(now.nanos(), market.open_ts.nanos()) as u64,
        market.params,
        entry,
    );
}

/// No order is placed before the window of its market opens, nor after it closes:
/// the whole seconds since the market opened lie within it.
pub proof fn lemma_entry_in_window(
    engine: Engine,
    decision: EntryDecision,
    markets: Map<Seq<char>, ActiveMarket>,
    asset: Seq<char>,
    now: Timestamp,
)
    requires
        engine.decides(decision, markets, asset, now),
        decision is Order,
        now.nanos() - engine.markets@[asset].open_ts.nanos() < 0x1_0000_0000 * 1_000_000_000,
    ensures
        ({
            let market = engine.markets@[asset];
            let since = now.nanos() - market.open_ts.nanos();
            &&& since < (market.params.max_entry_time_secs + 1) * 1_000_000_000
            &&& market.params.min_entry_time_secs > 0 ==> since
                >= market.params.min_entry_time_secs * 1_000_000_000
        }),
{
    let market = engine.markets@[asset];
    let since = now.nanos() - market.open_ts.nanos();
    let secs = clock::elapsed(now.nanos(), market.open_ts.nanos());
    assert(0 <= secs < 0x1_0000_0000);
}

/// What the result of an order does to a position. A filled first leg is followed
/// by the order of the second one, in as many shares; a first leg that is rejected
/// or fails leaves nothing; a filled second leg locks the position; one that is
/// rejected is ordered again on the same terms; and a sale that is filled sells
/// it. Nothing else changes it.
pub proof fn lemma_results_move_position(
    market: ActiveMarket,
    kind: OrderRequestKind,
    result: Result<OrderResult, OrderError>,
    now: Timestamp,
)
    ensures
        ({
            let (next, action) = engine::after_result(market, kind, result, now);
            let state = market.leg_manager.state;
            let filled = result is Ok && result->Ok_0 is Filled;
            let rejected = result is Ok && result->Ok_0 is Rejected;
            &&& next.market_info == market.market_info && next.params == market.params
                && next.open_ts == market.open_ts
            &&& next.leg_manager.params == market.leg_manager.params
            &&& kind is Leg1 && filled && state is Leg1Pending ==> {
                &&& next.leg_manager.state is Leg2Pending
                &&& next.leg_manager.leg1_price() == Some(result->Ok_0->Filled_fill_price)
                &&& next.leg_manager.leg1_shares() == Some(result->Ok_0->Filled_shares)
                &&& next.leg_manager.state.entry() == state.entry()
                &&& action is PlaceLeg2
                &&& action->PlaceLeg2_shares == result->Ok_0->Filled_shares
            }
            &&& kind is Leg1 && (rejected || result is Err) ==> next.leg_manager.state is Idle
                && action is Nothing
            &&& kind is Leg2 && filled && state is Leg2Pending ==> {
                &&& next.leg_manager.state is Locked
                &&& next.leg_manager.leg2_price() == Some(result->Ok_0->Filled_fill_price)
                &&& next.leg_manager.leg1_price() == market.leg_manager.leg1_price()
                &&& next.leg_manager.leg1_shares() == market.leg_manager.leg1_shares()
                &&& action is Nothing
            }
            &&& kind is Leg2 && rejected && state is Leg2Pending ==> {
                &&& next.leg_manager.state is Leg2Pending
                &&& action is PlaceLeg2
                &&& action->PlaceLeg2_price == state->leg2_target_price
                &&& Some(action->PlaceLeg2_shares) == market.leg_manager.leg1_shares()
            }
            &&& result is Ok && result->Ok_0 is PartialFill ==> next.leg_manager.state == state
                && action is Nothing
            &&& kind is Leg2 && result is Err ==> next.leg_manager.state == state && action
                is Nothing
            &&& kind is ForceClose ==> next.leg_manager.state == state && action is Nothing
            &&& kind is ForceClose && filled && state is ForceClose ==> next.sold
            &&& kind is ForceClose && !filled && state is ForceClose ==> next.sold == market.sold
        }),
{
}

/// A trade that a lock records brings in what the locked position expects, and a
/// trade is recorded with the price and the shares that its first leg was filled
/// with.
pub proof fn lemma_trade_is_what_was_locked(
    market: ActiveMarket,
    result: Result<OrderResult, OrderError>,
    terms: TradeTerms,
    now: Timestamp,
)
    requires
        engine::completed(market, OrderRequestKind::Leg2, result) == Some(terms),
    ensures
        ({
            let (next, _) = engine::after_result(market, OrderRequestKind::Leg2, result, now);
            &&& next.leg_manager.state is Locked
            &&& terms.pnl == next.leg_manager.state->Locked_expected_pnl
            &&& terms.outcome is Locked
            &&& market.leg_manager.leg1_price() == Some(terms.leg1_price)
            &&& market.leg_manager.leg1_shares() == Some(terms.shares)
            &&& terms.leg2_price == Some(result->Ok_0->Filled_fill_price)
            &&& next.leg_manager.leg2_price() == terms.leg2_price
        }),
{
}

/// A sale brings in nothing at the price of the first leg, a gain above it and a
/// loss below it, for one share or more; and it is recorded with that price and
/// those shares, without a second leg.
pub proof fn lemma_sale_result(
    market: ActiveMarket,
    result: Result<OrderResult, OrderError>,
    terms: TradeTerms,
)
    requires
        engine::completed(market, OrderRequestKind::ForceClose, result) == Some(terms),
    ensures
        terms.outcome is ForceClose,
        terms.leg2_price is None,
        market.leg_manager.leg1_price() == Some(terms.leg1_price),
        market.leg_manager.leg1_shares() == Some(terms.shares),
        ({
            let price = result->Ok_0->Filled_fill_price;
            price.finite() && terms.leg1_price.finite() && terms.shares.finite()
                && Binary64::of_nat(1).at_most(terms.shares) ==> {
                &&& price.units() == terms.leg1_price.units() ==> terms.pnl.rank() == 0
                &&& terms.leg1_price.less(price) ==> Binary64::nothing().less(terms.pnl)
                &&& price.less(terms.leg1_price) ==> terms.pnl.less(Binary64::nothing())
                &&& terms.shares == Binary64::of_nat(1) && price.difference(
                    terms.leg1_price,
                ).finite() ==> terms.pnl == price.difference(terms.leg1_price)
            }
        }),
{
    let price = result->Ok_0->Filled_fill_price;
    let paid = terms.leg1_price;
    let shares = terms.shares;
    if price.finite() && paid.finite() && shares.finite() && Binary64::of_nat(1).at_most(shares) {
        let gain = price.difference(paid);
        algebra::lemma_difference_sign(price, paid);
        precision::lemma_signed(false, 0);
        precision::lemma_one();
        precision::lemma_order(Binary64::of_nat(1), shares);
        vstd::arithmetic::power2::lemma_pow2_pos(rounding::UNIT_EXPONENT as nat);
        precision::lemma_order(Binary64::nothing(), shares);
        if gain.finite() {
            algebra::lemma_times_one(gain);
            algebra::lemma_scaled_sign(gain, shares);
        } else {
            algebra::lemma_scaled_infinity(gain, shares);
        }
    }
}

/// A trade is recorded exactly once for a position that ends at a known price:
/// not by an order that is not filled, not by a first leg, not by a sale of what
/// was sold before.
pub proof fn lemma_trade_is_recorded_once(
    market: ActiveMarket,
    kind: OrderRequestKind,
    result: Result<OrderResult, OrderError>,
    now: Timestamp,
    again: Result<OrderResult, OrderError>,
)
    ensures
        engine::completed(market, kind, result) is Some <==> engine::ends_position(
            market,
            kind,
            result,
        ) && result->Ok_0->Filled_fill_price.rank() != 0,
        engine::ends_position(market, kind, result) ==> {
            let next = engine::after_result(market, kind, result, now).0;
            !engine::ends_position(next, kind, again) && engine::completed(
                next,
                kind,
                again,
            ) is None
        },
        !(result is Ok && result->Ok_0 is Filled) || kind is Leg1 ==> engine::completed(
            market,
            kind,
            result,
        ) is None,
{
    precision::lemma_signed(false, 0);
}

/// Whether the position of a market trades the tokens of that market.
pub open spec fn own_tokens(market: ActiveMarket) -> bool {
    &&& market.leg_manager.yes_token_id == market.market_info.yes_token_id
    &&& market.leg_manager.no_token_id == market.market_info.no_token_id
}

/// A new market is idle and not sold, trades its own tokens under the parameters
/// of the settings, and ends its interval after it opens.
pub proof fn lemma_new_market(
    config: Config,
    asset: Seq<char>,
    info: MarketInfo,
    open_ts: Timestamp,
)
    ensures
        ({
            let market = Engine::opens(config, asset, info, open_ts);
            &&& market.leg_manager.state is Idle
            &&& !market.sold
            &&& own_tokens(market)
            &&& market.market_info == info
            &&& market.open_ts == open_ts
            &&& market.leg_manager.market_open_ts == open_ts
            &&& market.leg_manager.market_interval_secs == config.market_interval_secs
            &&& market.leg_manager.params == market.params
            &&& market.params == StrategyParams::configured(config, asset)
            &&& !market.holds_position()
        }),
{
}

/// While its second leg is pending, a market listens to the book of the token
/// that the second leg buys, and to no other; a tick on that book may sell the
/// other token, and the book of any other token changes nothing.
pub proof fn lemma_listens_to_second_leg(
    market: ActiveMarket,
    token: Seq<char>,
    now: Timestamp,
)
    requires
        own_tokens(market),
    ensures
        ({
            let manager = market.leg_manager;
            let again = manager.after_leg2_rejected(now).1;
            let (state, action) = engine::after_book(market, token, now);
            &&& action is Nothing || action is ForceCloseLeg1
            &&& !(manager.state is Leg2Pending) ==> (state, action) == (
                manager.state,
                LegAction::Nothing,
            )
            &&& manager.state is Leg2Pending ==> engine::awaited_token(market) == Some(
                leg_manager::bought(again)->0@,
            )
            &&& manager.state is Leg2Pending && leg_manager::bought(again)->0@ != token ==> (
                state,
                action,
            ) == (manager.state, LegAction::Nothing)
            &&& manager.state is Leg2Pending && leg_manager::bought(again)->0@ == token ==> (
                state,
                action,
            ) == manager.after_tick(now)
            &&& action is ForceCloseLeg1 && manager.yes_token_id@ != manager.no_token_id@
                ==> action->ForceCloseLeg1_token_id@ != token
        }),
{
}

/// The round trip of a position: the token that an entry orders is the one that a
/// force close sells, in the shares that the entry was filled with, and the second
/// leg orders the other token of the market in as many shares.
pub proof fn lemma_round_trip(
    market: ActiveMarket,
    entry: EntrySignal,
    fill_price: Binary64,
    shares: Binary64,
    asset: Seq<char>,
    hint: Option<Binary64>,
    ordered: Timestamp,
    filled: Timestamp,
    now: Timestamp,
    token: Seq<char>,
    first: Option<OrderRequest>,
    second: Option<OrderRequest>,
    close: Option<OrderRequest>,
)
    requires
        own_tokens(market),
        market.leg_manager.state is Idle,
        engine::asks(first, market.leg_manager.after_signal(entry, ordered).1, asset, hint),
        ({
            let waits = market.with_state(market.leg_manager.after_signal(entry, ordered).0);
            let result = Ok::<OrderResult, OrderError>(
                OrderResult::Filled { fill_price, shares },
            );
            let (holds, action) = engine::after_result(
                waits,
                OrderRequestKind::Leg1,
                result,
                filled,
            );
            &&& engine::asks(second, action, asset, None)
            &&& engine::asks(close, engine::after_book(holds, token, now).1, asset, None)
        }),
        close is Some,
    ensures
        first is Some && first->0 is Leg1Market,
        second is Some && second->0 is Leg2Limit,
        close->0 is ForceClose,
        close->0->ForceClose_token_id == first->0->Leg1Market_token_id,
        close->0->ForceClose_shares == shares,
        second->0->Leg2Limit_shares == shares,
        entry.leg1_side is Yes ==> first->0->Leg1Market_token_id == market.market_info.yes_token_id
            && second->0->Leg2Limit_token_id == market.market_info.no_token_id,
        entry.leg1_side is No ==> first->0->Leg1Market_token_id == market.market_info.no_token_id
            && second->0->Leg2Limit_token_id == market.market_info.yes_token_id,
        token == second->0->Leg2Limit_token_id@,
{
}

/// A market that is over is redeemed under its own condition, from its end on.
pub proof fn lemma_redeems_own_condition(
    command: Option<RedeemCommand>,
    market: ActiveMarket,
    interval: u64,
)
    requires
        Engine::redeems(command, market, interval),
        interval <= 0xFFFF_FFFF,
    ensures
        command is Some,
        command->0->condition_id == market.market_info.condition_id,
        command->0->slug == market.market_info.slug,
        command->0->market_end_ts.nanos() == market.open_ts.nanos() + interval * 1_000_000_000,
{
}

/// The middle of a book lies between its best bid and its best ask, whichever is
/// larger, and does not change when the sides are swapped; a book that lacks a
/// side has none.
pub proof fn lemma_book_middle(bids: Seq<PriceLevel>, asks: Seq<PriceLevel>)
    ensures
        bids.len() == 0 || asks.len() == 0 ==> engine::book_middle(bids, asks)
            == Binary64::nothing(),
        engine::book_middle(asks, bids) == engine::book_middle(bids, asks),
        bids.len() > 0 && asks.len() > 0 ==> {
            let bid = bids[0].price;
            let ask = asks[0].price;
            let mid = engine::book_middle(bids, asks);
            bid.finite() && ask.finite() && bid.units() > 0 && ask.units() > 0 && bid.sum(
                ask,
            ).finite() ==> {
                &&& mid == book_imbalance::middle(bid, ask)
                &&& bid.at_most(ask) ==> bid.at_most(mid) && mid.at_most(ask)
                &&& ask.at_most(bid) ==> ask.at_most(mid) && mid.at_most(bid)
                &&& mid == Binary64::of_ratio(
                    bid.sum(ask).units() as nat,
                    (2 * precision::one()) as nat,
                )
            }
        },
{
    if bids.len() > 0 && asks.len() > 0 {
        let bid = bids[0].price;
        let ask = asks[0].price;
        algebra::lemma_sum_commutes(bid, ask);
        if bid.finite() && ask.finite() && bid.units() > 0 && ask.units() > 0 && bid.sum(
            ask,
        ).finite() {
            precision::lemma_signed(false, 0);
            precision::lemma_order(Binary64::nothing(), bid);
            precision::lemma_order(Binary64::nothing(), ask);
            precision::lemma_order(bid, ask);
            precision::lemma_order(ask, bid);
            book_imbalance::lemma_middle_between(bid, ask);
        }
    }
}

/// A book with a positive middle is the latest price of its asset, with the time
/// of the book, and the newest sample of the momentum of that asset; one without
/// leaves the prices alone. No book touches another asset, the opening prices or
/// the prices from Chainlink.
pub proof fn lemma_book_is_noted(
    after: Engine,
    before: Engine,
    snapshot: HlBookSnapshot,
    other: Seq<char>,
)
    requires
        after.holds_book(before, snapshot),
        other != snapshot.asset@,
    ensures
        ({
            let asset = snapshot.asset@;
            let mid = engine::book_middle(snapshot.bids@, snapshot.asks@);
            let known = after.prices.hyperliquid();
            &&& Binary64::nothing().less(mid) ==> {
                &&& known.contains_key(asset)
                &&& known[asset].price == mid
                &&& known[asset].timestamp == snapshot.timestamp
                &&& asset == "BTC"@ ==> after.momentum_btc.held().len() > 0
                    && after.momentum_btc.held().last() == (snapshot.timestamp, mid)
                &&& asset == "ETH"@ ==> after.momentum_eth.held().len() > 0
                    && after.momentum_eth.held().last() == (snapshot.timestamp, mid)
            }
            &&& !Binary64::nothing().less(mid) ==> known == before.prices.hyperliquid()
                && after.momentum_btc == before.momentum_btc && after.momentum_eth
                == before.momentum_eth
            &&& asset != "BTC"@ ==> after.momentum_btc == before.momentum_btc
            &&& asset != "ETH"@ ==> after.momentum_eth == before.momentum_eth
            &&& known.contains_key(other) == before.prices.hyperliquid().contains_key(other)
            &&& known.contains_key(other) ==> known[other] == before.prices.hyperliquid()[other]
            &&& after.prices.chainlink() == before.prices.chainlink()
            &&& after.prices.open_prices() == before.prices.open_prices()
            &&& after.imbalance.latest().contains_key(asset)
            &&& after.imbalance.latest()[asset] == book_imbalance::state_of(
                snapshot.bids@,
                snapshot.asks@,
                before.imbalance.levels(),
            )
            &&& after.imbalance.latest().contains_key(other)
                == before.imbalance.latest().contains_key(other)
            &&& after.imbalance.latest().contains_key(other) ==> after.imbalance.latest()[other]
                == before.imbalance.latest()[other]
        }),
{
}

/// Whether markets of these names have a position or an order, and how many.
pub open spec fn busy(names: Seq<Seq<char>>, markets: Map<Seq<char>, ActiveMarket>) -> nat
    decreases names.len(),
{
    if names.len() == 0 {
        0
    } else {
        busy(names.drop_last(), markets) + (if markets[names.last()].leg_manager.state is Idle {
            0nat
        } else {
            1
        })
    }
}

/// The portfolio shows every market that is not idle, and each once.
pub proof fn lemma_shows_every_position(
    trades: Seq<ActiveTrade>,
    names: Seq<Seq<char>>,
    markets: Map<Seq<char>, ActiveMarket>,
    prices: Map<Seq<char>, Binary64>,
    interval: u64,
    now: Timestamp,
    i: int,
)
    requires
        engine::shows_all(trades, names, markets, prices, interval, now),
        0 <= i < names.len(),
    ensures
        trades.len() == busy(names, markets),
        !(markets[names[i]].leg_manager.state is Idle) ==> exists|j: int|
            0 <= j < trades.len() && engine::shows(
                #[trigger] trades[j],
                names[i],
                markets[names[i]],
                prices,
                interval,
                now,
            ),
    decreases names.len(),
{
    let market = markets[names.last()];
    let rest = if market.leg_manager.state is Idle { trades } else { trades.drop_last() };
    let before = names.drop_last();
    reveal_with_fuel(engine::shows_all, 2);
    reveal_with_fuel(busy, 2);
    if before.len() > 0 {
        let k = if i < names.len() - 1 { i } else { 0 };
        lemma_shows_every_position(rest, before, markets, prices, interval, now, k);
        if i < names.len() - 1 && !(markets[names[i]].leg_manager.state is Idle) {
            assert(before[i] == names[i]);
            let j = choose|j: int|
                0 <= j < rest.len() && engine::shows(
                    #[trigger] rest[j],
                    before[i],
                    markets[before[i]],
                    prices,
                    interval,
                    now,
                );
            assert(trades[j] == rest[j]);
        }
    }
    if i == names.len() - 1 && !(market.leg_manager.state is Idle) {
        assert(engine::shows(
            trades[trades.len() - 1],
            names[i],
            market,
            prices,
            interval,
            now,
        ));
    }
}

/// What is shown of a position: the direction and the side it was entered on, what
/// its first leg was filled with, and its seconds, which add up to the interval
/// while the market is open.
pub proof fn lemma_shown_position(
    trade: ActiveTrade,
    asset: Seq<char>,
    market: ActiveMarket,
    prices: Map<Seq<char>, Binary64>,
    interval: u64,
    now: Timestamp,
)
    requires
        engine::shows(trade, asset, market, prices, interval, now),
    ensures
        trade.asset@ == asset,
        trade.market_slug == market.market_info.slug,
        market.leg_manager.state.entry() is Some ==> {
            let entry = market.leg_manager.state.entry()->0;
            &&& entry.direction is Up <==> trade.direction@ == "Up"@
            &&& entry.direction is Down <==> trade.direction@ == "Down"@
            &&& entry.leg1_side is Yes <==> trade.leg1_side@ == "Yes"@
            &&& entry.leg1_side is No <==> trade.leg1_side@ == "No"@
        },
        market.leg_manager.leg1_price() is Some ==> trade.leg1_price
            == market.leg_manager.leg1_price()->0,
        market.leg_manager.leg1_shares() is Some ==> trade.leg1_shares
            == market.leg_manager.leg1_shares()->0,
        trade.leg2_price == market.leg_manager.leg2_price(),
        trade.leg2_status@ == market.leg_manager.leg2_words(),
        ({
            let since = now.nanos() - market.open_ts.nanos();
            &&& since >= 0 ==> 0 <= since - trade.secs_since_entry * 1_000_000_000 < 1_000_000_000
            &&& since < 0 ==> trade.secs_since_entry == 0
        }),
        trade.secs_since_entry <= interval ==> trade.secs_since_entry + trade.secs_to_expiry
            == interval,
        trade.secs_since_entry > interval ==> trade.secs_to_expiry == 0,
        market.leg_manager.state is Locked ==> trade.unrealised_pnl
            == market.leg_manager.state->Locked_expected_pnl,
{
    reveal_strlit("Up");
    reveal_strlit("Down");
    reveal_strlit("Yes");
    reveal_strlit("No");
    assert("Up"@.len() == 2 && "Down"@.len() == 4 && "Yes"@.len() == 3 && "No"@.len() == 2);
}

/// The unrealised profit counts every position shown.
pub proof fn lemma_paper_total_counts_all(trades: Seq<ActiveTrade>, trade: ActiveTrade)
    ensures
        engine::paper_total(trades.push(trade)) == engine::paper_total(trades).sum(
            trade.unrealised_pnl,
        ),
        engine::paper_total(Seq::empty()).rank() == 0,
        trade.unrealised_pnl.finite() && trade.unrealised_pnl.units() != 0 ==> engine::paper_total(
            seq![trade],
        ) == trade.unrealised_pnl,
{
    assert(trades.push(trade).drop_last() =~= trades);
    assert(seq![trade].drop_last() =~= Seq::<ActiveTrade>::empty());
    precision::lemma_signed(true, 0);
    let zero = Binary64::signed(true, 0);
    assert(engine::paper_total(Seq::<ActiveTrade>::empty()) == zero);
    if trade.unrealised_pnl.finite() && trade.unrealised_pnl.units() != 0 {
        algebra::lemma_sum_commutes(zero, trade.unrealised_pnl);
        algebra::lemma_plus_zero(trade.unrealised_pnl, zero);
        assert(engine::paper_total(seq![trade]) == zero.sum(trade.unrealised_pnl));
    }
}

/// What the report says of the risks: the whole limit remains of a day without a
/// result, nothing of one that is lost down to the limit, and more after a gain
/// than after a loss; halt, cooldown, losses in a row and open positions are those
/// that decide on trades.
pub proof fn lemma_report_tells_risk(engine: Engine, r: PortfolioState, now: Timestamp)
    requires
        engine.reports(r, now),
    ensures
        r.timestamp == now,
        r.risk_status.daily_loss_limit == engine.config.max_daily_loss_usd,
        ({
            let limit = engine.config.max_daily_loss_usd;
            let day = engine.tracker.day();
            let left = r.risk_status.daily_loss_remaining;
            &&& r.daily_pnl == day
            &&& limit.finite() && limit.units() > 0 && day.finite() && day.units() == 0 ==> left
                == limit
            &&& limit.finite() && day.finite() && day.units() == -limit.units() ==> left.rank()
                == 0
            &&& limit.finite() && limit.units() > 0 && day.finite() ==> (Binary64::nothing().less(
                left,
            ) <==> limit.negated().less(day))
        }),
        r.risk_status.is_halted == engine.risk.halted(),
        r.risk_status.cooldown_active <==> engine.risk.cooldown() is Some && now.nanos()
            < engine.risk.cooldown()->0.nanos(),
        r.risk_status.consecutive_losses == engine.tracker.losses_in_a_row(),
        engine.risk.counts().contains_key("BTC"@) ==> r.risk_status.open_positions_btc
            == engine.risk.counts()["BTC"@],
        engine.risk.counts().contains_key("ETH"@) ==> r.risk_status.open_positions_eth
            == engine.risk.counts()["ETH"@],
        !engine.risk.counts().contains_key("BTC"@) ==> r.risk_status.open_positions_btc == 0,
        !engine.risk.counts().contains_key("ETH"@) ==> r.risk_status.open_positions_eth == 0,
{
    let limit = engine.config.max_daily_loss_usd;
    let day = engine.tracker.day();
    if limit.finite() && day.finite() {
        if limit.units() > 0 && day.units() == 0 {
            algebra::lemma_plus_zero(limit, day);
        }
        algebra::lemma_sum_commutes(limit, day);
        algebra::lemma_negated(limit);
        algebra::lemma_difference_sign(day, limit.negated());
        assert(limit.negated().negated() == limit);
        assert(day.difference(limit.negated()) == day.sum(limit));
    }
}

/// What the report says of the trades is what was recorded, and the won and the
/// lost ones are all of them.
pub proof fn lemma_report_tells_trades(engine: Engine, r: PortfolioState, now: Timestamp)
    requires
        engine.reports(r, now),
        engine.tracker.consistent(),
    ensures
        r.total_realised_pnl == engine.tracker.total(),
        r.total_trades == engine.tracker.count(),
        r.winning_trades == engine.tracker.won(),
        r.losing_trades == engine.tracker.lost(),
        r.winning_trades + r.losing_trades == r.total_trades,
        r.active_trades@.len() == busy(engine.markets.names(), engine.markets@),
        ({
            let up = now.nanos() - engine.boot_time.nanos();
            &&& up >= 0 ==> 0 <= up - r.uptime_secs * 1_000_000_000 < 1_000_000_000
            &&& up < 0 ==> r.uptime_secs == 0
        }),
{
    if engine.markets.names().len() > 0 {
        lemma_shows_every_position(
            r.active_trades@,
            engine.markets.names(),
            engine.markets@,
            engine.token_prices@,
            engine.config.market_interval_secs,
            now,
            0,
        );
    }
}

/// A token without a price counts as one half, and one with a price at that.
pub proof fn lemma_price_or_half(prices: Map<Seq<char>, Binary64>, token: Seq<char>)
    ensures
        prices.contains_key(token) ==> engine::price_or_half(prices, token) == prices[token]
            && engine::latest_price(prices, token) == Some(prices[token]),
        !prices.contains_key(token) ==> engine::price_or_half(prices, token) == Binary64::of_ratio(
            1,
            2,
        ) && engine::latest_price(prices, token) is None,
{
    algebra::lemma_ratio_cancels(1, 2, 5);
}

/// A market is looked up thirty seconds before it opens, and at once where less
/// time remains.
pub proof fn lemma_prefetch_wait(secs_remaining: u64)
    ensures
        secs_remaining >= 30 ==> engine::wait_before(secs_remaining) + 30 == secs_remaining,
        secs_remaining <= 30 ==> engine::wait_before(secs_remaining) == 0,
{
}

/// The feeds are one for each asset, under the identifier of its setting, and
/// there are none without Chainlink.
pub proof fn lemma_feeds(feeds: Seq<FeedConfig>, config: Config)
    requires
        engine::feeds_of(feeds, config),
    ensures
        config.has_chainlink() <==> feeds.len() > 0,
        forall|i: int|
            0 <= i < feeds.len() ==> ((#[trigger] feeds[i]).asset@ == "BTC"@ ==> feeds[i].feed_id
                == config.chainlink_btc_feed_id) && (feeds[i].asset@ == "ETH"@ ==> feeds[i].feed_id
                == config.chainlink_eth_feed_id) && (feeds[i].asset@ == "BTC"@ || feeds[i].asset@
                == "ETH"@),
        config.has_chainlink() ==> feeds.len() == 2 && feeds[0].asset@ != feeds[1].asset@,
{
    reveal_strlit("BTC");
    reveal_strlit("ETH");
    assert("BTC"@[0] != "ETH"@[0]);
}

/// The result of an order concerns its own market: every other market, the prices
/// and the settings stay as they are, and an asset without a market takes no note.
pub proof fn lemma_result_concerns_its_market(
    after: Engine,
    before: Engine,
    asset: Seq<char>,
    kind: OrderRequestKind,
    result: Result<OrderResult, OrderError>,
    r: Option<OrderRequest>,
    now: Timestamp,
    other: Seq<char>,
)
    requires
        after.takes_result(before, asset, kind, result, r, now),
        other != asset,
    ensures
        after.markets@.contains_key(other) == before.markets@.contains_key(other),
        before.markets@.contains_key(other) ==> after.markets@[other] == before.markets@[other],
        after.prices == before.prices,
        after.token_prices == before.token_prices,
        after.config == before.config,
        after.risk.limits() == before.risk.limits(),
        after.risk.open_in(other) == before.risk.open_in(other),
        !before.markets@.contains_key(asset) ==> after == before && r is None,
{
}

/// A first leg that is filled takes up one place and is followed by the order of
/// the second leg, which is its opposite; a lock and a sale free one place and
/// order nothing.
pub proof fn lemma_result_moves_places(
    after: Engine,
    before: Engine,
    asset: Seq<char>,
    kind: OrderRequestKind,
    result: Result<OrderResult, OrderError>,
    r: Option<OrderRequest>,
    now: Timestamp,
)
    requires
        after.takes_result(before, asset, kind, result, r, now),
        before.markets@.contains_key(asset),
        before.risk.open_in(asset) < usize::MAX,
        result is Ok,
        result->Ok_0 is Filled,
    ensures
        ({
            let state = before.markets@[asset].leg_manager.state;
            let manager = before.markets@[asset].leg_manager;
            &&& kind is Leg1 && state is Leg1Pending ==> {
                &&& after.risk.open_in(asset) == before.risk.open_in(asset) + 1
                &&& r is Some && r->0 is Leg2Limit
                &&& r->0->Leg2Limit_shares == result->Ok_0->Filled_shares
                &&& r->0->Leg2Limit_asset_key@ == asset
                &&& state.entry()->0.leg1_side is Yes ==> r->0->Leg2Limit_token_id
                    == manager.no_token_id
                &&& state.entry()->0.leg1_side is No ==> r->0->Leg2Limit_token_id
                    == manager.yes_token_id
                &&& after.tracker == before.tracker
            }
            &&& kind is Leg2 && state is Leg2Pending && before.risk.open_in(asset) > 0 ==> {
                &&& after.risk.open_in(asset) == before.risk.open_in(asset) - 1
                &&& r is None
                &&& after.markets@[asset].leg_manager.state is Locked
            }
            &&& kind is ForceClose && state is ForceClose && !before.markets@[asset].sold
                && before.risk.open_in(asset) > 0 ==> {
                &&& after.risk.open_in(asset) == before.risk.open_in(asset) - 1
                &&& r is None
                &&& after.markets@[asset].sold
            }
        }),
{
}

/// A day that is lost down to the limit halts trading at once, and a halt is not
/// lifted by any result of an order; without such a loss trading is not halted.
pub proof fn lemma_loss_halts(
    after: Engine,
    before: Engine,
    asset: Seq<char>,
    kind: OrderRequestKind,
    result: Result<OrderResult, OrderError>,
    r: Option<OrderRequest>,
    now: Timestamp,
)
    requires
        after.takes_result(before, asset, kind, result, r, now),
        before.markets@.contains_key(asset),
    ensures
        after.tracker.day().at_most(before.risk.limits().max_daily_loss_usd.negated())
            ==> after.risk.halted(),
        before.risk.halted() ==> after.risk.halted(),
        after.risk.halted() ==> before.risk.halted() || after.tracker.day().at_most(
            before.risk.limits().max_daily_loss_usd.negated(),
        ),
{
}

/// A loss that makes the row of losses as long as the limit starts a cooldown
/// from that moment on; a gain leaves the cooldown as it is, unless no losses at
/// all are allowed.
pub proof fn lemma_losses_start_cooldown(
    after: Engine,
    before: Engine,
    asset: Seq<char>,
    kind: OrderRequestKind,
    result: Result<OrderResult, OrderError>,
    r: Option<OrderRequest>,
    now: Timestamp,
    terms: TradeTerms,
)
    requires
        after.takes_result(before, asset, kind, result, r, now),
        before.markets@.contains_key(asset),
        engine::completed(before.markets@[asset], kind, result) == Some(terms),
        before.risk.limits().cooldown_duration_secs <= 0xFFFF_FFFF,
    ensures
        after.tracker.day() == before.tracker.day().sum(terms.pnl),
        after.tracker.count() == before.tracker.count() + 1,
        Binary64::nothing().less(terms.pnl) ==> after.tracker.losses_in_a_row() == 0,
        !Binary64::nothing().less(terms.pnl) ==> after.tracker.losses_in_a_row()
            == before.tracker.losses_in_a_row() + 1,
        after.tracker.losses_in_a_row() >= before.risk.limits().cooldown_trigger_losses
            ==> after.risk.cooldown() is Some && after.risk.cooldown()->0.nanos() == now.nanos()
            + before.risk.limits().cooldown_duration_secs * 1_000_000_000,
        after.tracker.losses_in_a_row() < before.risk.limits().cooldown_trigger_losses
            ==> after.risk.cooldown() == before.risk.cooldown(),
        after.tracker.kept().last().asset@ == asset,
        after.tracker.kept().last().pnl == terms.pnl,
        after.tracker.kept().last().timestamp == now,
{
}

/// A new day starts from nothing: no result, no halt, and no cooldown but one that
/// a row of losses still asks for. What was traded, what is open and the limits
/// stay.
pub proof fn lemma_new_day(after: Engine, before: Engine)
    requires
        after.starts_day(before),
    ensures
        after.tracker.day() == Binary64::nothing(),
        !after.risk.halted(),
        before.tracker.losses_in_a_row() < before.risk.limits().cooldown_trigger_losses
            ==> after.risk.cooldown() is None,
        before.tracker.losses_in_a_row() >= before.risk.limits().cooldown_trigger_losses
            ==> after.risk.cooldown() == before.risk.cooldown(),
        after.tracker.total() == before.tracker.total(),
        after.tracker.losses_in_a_row() == before.tracker.losses_in_a_row(),
        after.risk.counts() == before.risk.counts(),
        after.risk.limits() == before.risk.limits(),
        after.markets == before.markets,
        after.prices == before.prices,
{
}

/// A new market takes the place of the one before on its asset: that one is
/// redeemed under its own condition, a position that is left in it frees its
/// place, and both tokens of the new one are subscribed to. No other asset is
/// touched, and no trade is recorded.
pub proof fn lemma_market_takes_over(
    after: Engine,
    before: Engine,
    asset: Seq<char>,
    info: MarketInfo,
    open_ts: Timestamp,
    r: MarketActions,
    now: Timestamp,
    other: Seq<char>,
)
    requires
        after.activates(before, asset, info, open_ts, r, now),
        other != asset,
        before.config.market_interval_secs <= 0xFFFF_FFFF,
    ensures
        after.markets@.contains_key(asset),
        after.markets@[asset].leg_manager.state is Idle,
        own_tokens(after.markets@[asset]),
        after.markets@[asset].market_info == info,
        after.markets@[asset].open_ts == open_ts,
        after.markets@.contains_key(other) == before.markets@.contains_key(other),
        before.markets@.contains_key(other) ==> after.markets@[other] == before.markets@[other],
        after.risk.open_in(other) == before.risk.open_in(other),
        before.markets@.contains_key(asset) && before.markets@[asset].holds_position()
            && before.risk.open_in(asset) > 0 ==> after.risk.open_in(asset) == before.risk.open_in(
            asset,
        ) - 1,
        !before.markets@.contains_key(asset) || !before.markets@[asset].holds_position()
            ==> after.risk.open_in(asset) == before.risk.open_in(asset),
        after.tracker == before.tracker,
        after.risk.halted() == before.risk.halted(),
        after.risk.cooldown() == before.risk.cooldown(),
        r.redeem is Some <==> before.markets@.contains_key(asset),
        r.redeem is Some ==> {
            let over = before.markets@[asset];
            &&& r.redeem->0->condition_id == over.market_info.condition_id
            &&& r.redeem->0->market_end_ts.nanos() == over.open_ts.nanos()
                + before.config.market_interval_secs * 1_000_000_000
        },
        r.subscribe@.len() == 2,
        r.subscribe@[0] == info.yes_token_id,
        r.subscribe@[1] == info.no_token_id,
        before.prices.best_price(asset, now) is None ==> !after.prices.open_prices().contains_key(
            asset,
        ),
        before.prices.best_price(asset, now) is Some ==> after.prices.open_prices()[asset]
            == before.prices.best_price(asset, now)->0.price,
{
}

/// A price is the latest of its token, and a book gives its first ask as that;
/// neither changes what is known of another token, and a book without asks
/// changes nothing. Only a book can lead to orders, and only to sales.
pub proof fn lemma_hears_token_price(
    after: Engine,
    before: Engine,
    event: PolyEvent,
    r: Seq<OrderRequest>,
    now: Timestamp,
    other: Seq<char>,
)
    requires
        after.hears(before, event, r, now),
    ensures
        event is Price ==> {
            let price = event->Price_0;
            &&& after.token_prices@.contains_key(price.token_id@)
            &&& after.token_prices@[price.token_id@] == price.price
            &&& after.markets@ == before.markets@
            &&& r.len() == 0
            &&& other != price.token_id@ && before.token_prices@.contains_key(other)
                ==> after.token_prices@[other] == before.token_prices@[other]
        },
        event is Book && event->Book_0.asks@.len() > 0 ==> {
            let book = event->Book_0;
            &&& after.token_prices@.contains_key(book.token_id@)
            &&& after.token_prices@[book.token_id@] == book.asks@[0].price
            &&& other != book.token_id@ && before.token_prices@.contains_key(other)
                ==> after.token_prices@[other] == before.token_prices@[other]
        },
        event is Book && event->Book_0.asks@.len() == 0 ==> after.token_prices@
            == before.token_prices@ && after.markets@ == before.markets@ && r.len() == 0,
        after.tracker == before.tracker,
        after.risk == before.risk,
        after.prices == before.prices,
{
}

/// The orders that a book leads to sell: each one is the sale of a market that
/// listens to the token of the book, and each such market whose end is near has
/// one.
pub proof fn lemma_book_sells(
    requests: Seq<OrderRequest>,
    names: Seq<Seq<char>>,
    markets: Map<Seq<char>, ActiveMarket>,
    token: Seq<char>,
    now: Timestamp,
    i: int,
)
    requires
        engine::asks_all(requests, names, markets, token, now),
        0 <= i < names.len(),
    ensures
        forall|j: int| 0 <= j < requests.len() ==> (#[trigger] requests[j]) is ForceClose,
        engine::after_book(markets[names[i]], token, now).1 is ForceCloseLeg1 ==> exists|j: int|
            0 <= j < requests.len() && engine::asks(
                Some(#[trigger] requests[j]),
                engine::after_book(markets[names[i]], token, now).1,
                names[i],
                None,
            ),
    decreases names.len(),
{
    let action = engine::after_book(markets[names.last()], token, now).1;
    let rest = if action is Nothing { requests } else { requests.drop_last() };
    let before = names.drop_last();
    reveal_with_fuel(engine::asks_all, 2);
    if before.len() > 0 {
        let k = if i < names.len() - 1 { i } else { 0 };
        lemma_book_sells(rest, before, markets, token, now, k);
        if i < names.len() - 1 && engine::after_book(
            markets[names[i]],
            token,
            now,
        ).1 is ForceCloseLeg1 {
            assert(before[i] == names[i]);
            let j = choose|j: int|
                0 <= j < rest.len() && engine::asks(
                    Some(#[trigger] rest[j]),
                    engine::after_book(markets[before[i]], token, now).1,
                    before[i],
                    None,
                );
            assert(requests[j] == rest[j]);
        }
    }
    assert forall|j: int| 0 <= j < requests.len() implies (#[trigger] requests[j]) is ForceClose by {
        if j < rest.len() {
            assert(rest[j] is ForceClose);
        }
    }
    if i == names.len() - 1 && action is ForceCloseLeg1 {
        assert(engine::asks(Some(requests[requests.len() - 1]), action, names[i], None));
    }
}

/// A book decides on an entry with what it brings: an order that follows from it
/// rests on its own imbalance, over the levels that count.
pub proof fn lemma_book_decides_by_itself(
    after: Engine,
    before: Engine,
    snapshot: HlBookSnapshot,
    decision: EntryDecision,
    now: Timestamp,
)
    requires
        after.takes_book(before, snapshot, decision, now),
        decision is Order,
    ensures
        ({
            let asset = snapshot.asset@;
            let market = before.markets@[asset];
            let imbalance = book_imbalance::state_of(
                snapshot.bids@,
                snapshot.asks@,
                before.imbalance.levels(),
            ).imbalance;
            let token = decision->Order_0->Leg1Market_token_id;
            &&& before.markets@.contains_key(asset)
            &&& market.leg_manager.state is Idle
            &&& decision->Order_0 is Leg1Market
            &&& token == market.leg_manager.yes_token_id || token == market.leg_manager.no_token_id
            &&& market.params.book_imb_threshold.less(imbalance) || imbalance.less(
                market.params.book_imb_threshold.negated(),
            )
            &&& !before.risk.halted()
        }),
{
    let noted = choose|noted: Engine| #[trigger]
        noted.holds_book(before, snapshot) && noted.markets == before.markets && noted.decides(
            decision,
            after.markets@,
            snapshot.asset@,
            now,
        );
    let other = snapshot.asset@.push('.');
    assert(other.len() != snapshot.asset@.len());
    lemma_entry_buys_direction(
        noted,
        decision,
        after.markets@,
        snapshot.asset@,
        now,
        other,
    );
}

/// A price from Chainlink is the latest of its asset there, with its time, and
/// touches nothing else.
pub proof fn lemma_chainlink_is_noted(
    after: Engine,
    before: Engine,
    price: ChainlinkPrice,
    other: Seq<char>,
)
    requires
        after.notes_chainlink(before, price),
        other != price.asset@,
    ensures
        after.prices.chainlink().contains_key(price.asset@),
        after.prices.chainlink()[price.asset@].price == price.price,
        after.prices.chainlink()[price.asset@].timestamp == price.timestamp,
        after.prices.chainlink().contains_key(other) == before.prices.chainlink().contains_key(
            other,
        ),
        before.prices.chainlink().contains_key(other) ==> after.prices.chainlink()[other]
            == before.prices.chainlink()[other],
        after.prices.hyperliquid() == before.prices.hyperliquid(),
        after.prices.open_prices() == before.prices.open_prices(),
        after.markets == before.markets,
        after.tracker == before.tracker,
        after.risk == before.risk,
{
}

/// An entry that is due and allowed is ordered: where the market is idle, a price
/// and an imbalance are known, the rise and the lean of the book reach their
/// thresholds, the YES token is in its range and the time in its window, and the
/// risks allow it, the YES token is bought.
pub proof fn lemma_due_rise_is_ordered(
    engine: Engine,
    decision: EntryDecision,
    markets: Map<Seq<char>, ActiveMarket>,
    asset: Seq<char>,
    now: Timestamp,
    secs: u64,
    yes: Binary64,
)
    requires
        engine.decides(decision, markets, asset, now),
        engine.markets@.contains_key(asset),
        engine.markets@[asset].leg_manager.state is Idle,
        engine.prices.knows(asset, now),
        engine.imbalance.latest().contains_key(asset),
        engine.risk.allows(asset, engine.tracker.day(), engine.tracker.losses_in_a_row(), now),
        ({
            let market = engine.markets@[asset];
            let params = market.params;
            let bps = engine.prices.move_since_open(asset, now);
            &&& market.open_ts.nanos() + secs * 1_000_000_000 <= now.nanos()
            &&& now.nanos() < market.open_ts.nanos() + (secs + 1) * 1_000_000_000
            &&& params.min_entry_time_secs <= secs <= params.max_entry_time_secs
            &&& Binary64::nothing().less(bps)
            &&& params.entry_bps_threshold.at_most(bps)
            &&& params.book_imb_threshold.less(engine.imbalance.latest()[asset].imbalance)
            &&& engine.token_prices@.contains_key(market.market_info.yes_token_id@)
            &&& yes == engine.token_prices@[market.market_info.yes_token_id@]
            &&& params.min_entry_price.at_most(yes) && yes.at_most(params.max_entry_price)
        }),
    ensures
        decision is Order,
        decision->Order_0 is Leg1Market,
        decision->Order_0->Leg1Market_token_id == engine.markets@[asset].leg_manager.yes_token_id,
{
    let market = engine.markets@[asset];
    let other = asset.push('.');
    assert(other.len() != asset.len());
    assert(clock::elapsed(now.nanos(), market.open_ts.nanos()) == secs);
    signal::lemma_rise_gives_signal(
        market.market_info.slug,
        engine.prices.move_since_open(asset, now),
        engine.imbalance.latest()[asset].imbalance,
        yes,
        engine::price_or_half(engine.token_prices@, market.market_info.no_token_id@),
        secs,
        market.params,
    );
    assert(engine.signal_at(asset, now));
    lemma_entry_buys_direction(engine, decision, markets, asset, now, other);
}

/// The same on a fall, for the NO token.
pub proof fn lemma_due_fall_is_ordered(
    engine: Engine,
    decision: EntryDecision,
    markets: Map<Seq<char>, ActiveMarket>,
    asset: Seq<char>,
    now: Timestamp,
    secs: u64,
    no: Binary64,
)
    requires
        engine.decides(decision, markets, asset, now),
        engine.markets@.contains_key(asset),
        engine.markets@[asset].leg_manager.state is Idle,
        engine.prices.knows(asset, now),
        engine.imbalance.latest().contains_key(asset),
        engine.risk.allows(asset, engine.tracker.day(), engine.tracker.losses_in_a_row(), now),
        ({
            let market = engine.markets@[asset];
            let params = market.params;
            let bps = engine.prices.move_since_open(asset, now);
            &&& market.open_ts.nanos() + secs * 1_000_000_000 <= now.nanos()
            &&& now.nanos() < market.open_ts.nanos() + (secs + 1) * 1_000_000_000
            &&& params.min_entry_time_secs <= secs <= params.max_entry_time_secs
            &&& bps.less(Binary64::nothing())
            &&& bps.at_most(params.entry_bps_threshold.negated())
            &&& engine.imbalance.latest()[asset].imbalance.less(
                params.book_imb_threshold.negated(),
            )
            &&& engine.token_prices@.contains_key(market.market_info.no_token_id@)
            &&& no == engine.token_prices@[market.market_info.no_token_id@]
            &&& params.min_entry_price.at_most(no) && no.at_most(params.max_entry_price)
        }),
    ensures
        decision is Order,
        decision->Order_0 is Leg1Market,
        decision->Order_0->Leg1Market_token_id == engine.markets@[asset].leg_manager.no_token_id,
{
    let market = engine.markets@[asset];
    let other = asset.push('.');
    assert(other.len() != asset.len());
    assert(clock::elapsed(now.nanos(), market.open_ts.nanos()) == secs);
    precision::lemma_signed(false, 0);
    signal::lemma_fall_gives_signal(
        market.market_info.slug,
        engine.prices.move_since_open(asset, now),
        engine.imbalance.latest()[asset].imbalance,
        engine::price_or_half(engine.token_prices@, market.market_info.yes_token_id@),
        no,
        secs,
        market.params,
    );
    assert(engine.signal_at(asset, now));
    lemma_entry_buys_direction(engine, decision, markets, asset, now, other);
}

/// A result can be taken note of wherever fewer trades than two to the power 32
/// were counted and a cooldown would end within the calendar.
pub proof fn lemma_results_fit(
    engine: Engine,
    asset: Seq<char>,
    kind: OrderRequestKind,
    result: Result<OrderResult, OrderError>,
    now: Timestamp,
)
    requires
        engine.risk.open_in(asset) < 0xFFFF_FFFF,
        engine.tracker.count() < 0xFFFF_FFFF,
        engine.tracker.losses_in_a_row() < 0xFFFF_FFFF,
        now.seconds() + engine.risk.limits().cooldown_duration_secs <= 8_210_266_876_799,
        now.seconds() >= 0,
    ensures
        engine.fits(asset, kind, result, now),
{
}

/// A new engine looks at five levels of a book and at windows of five and fifteen
/// seconds; it has no prices, no trades, no markets and no open positions, and its
/// limits are those of the settings.
pub proof fn lemma_new_engine(engine: Engine, config: Config, boot_time: Timestamp)
    requires
        engine.starts(config, boot_time),
    ensures
        engine.config == config,
        engine.imbalance.levels() == 5,
        engine.momentum_btc.short_window() == 5 && engine.momentum_btc.long_window() == 15,
        engine.momentum_eth.short_window() == 5 && engine.momentum_eth.long_window() == 15,
        engine.risk.limits().max_concurrent_positions == config.max_concurrent_positions,
        engine.risk.limits().max_daily_loss_usd == config.max_daily_loss_usd,
        engine.risk.limits().cooldown_trigger_losses == config.cooldown_after_losses,
        engine.risk.limits().cooldown_duration_secs == config.cooldown_duration_secs,
        engine.prices.uses_chainlink() == config.has_chainlink(),
        !engine.risk.halted() && engine.risk.cooldown() is None,
        engine.tracker.count() == 0 && engine.tracker.losses_in_a_row() == 0,
        forall|asset: Seq<char>| #![auto] engine.risk.open_in(asset) == 0,
        forall|asset: Seq<char>| #![auto] !engine.markets@.contains_key(asset),
{
}

/// The samples of a tracker roll: the newest one comes last, and the oldest one
/// leaves where there is no more room.
pub proof fn lemma_samples_roll(
    after: MomentumTracker,
    before: MomentumTracker,
    sample: (Timestamp, Binary64),
)
    requires
        Engine::sampled(after, before, sample),
        before.held().len() <= before.room(),
        before.room() > 0,
    ensures
        after.held().len() <= after.room(),
        after.held().len() > 0 && after.held().last() == sample,
        before.held().len() < before.room() ==> after.held().len() == before.held().len() + 1,
        before.held().len() == before.room() ==> after.held().len() == before.room(),
        ({
            let all = before.held().push(sample);
            after.held() == all.skip(all.len() - after.held().len())
        }),
        after.short_window() == before.short_window(),
        after.long_window() == before.long_window(),
{
    let all = before.held().push(sample);
    assert(after.held() =~= all.skip(all.len() - after.held().len()));
}

} // verus!
