use polymarket_bot::config::Config;
use polymarket_bot::engine::{chainlink_feeds, prefetch_wait, Engine, EntryDecision};
use polymarket_bot::execution::order_builder::OrderError;
use polymarket_bot::execution::risk::RiskVeto;
use polymarket_bot::execution::tracker::{TradeOutcome, TradeRecord};
use polymarket_bot::execution::{OrderRequest, OrderRequestKind, OrderResult, RedeemCommand};
use polymarket_bot::feeds::chainlink::ChainlinkPrice;
use polymarket_bot::feeds::hyperliquid::{HlBookSnapshot, PriceLevel};
use polymarket_bot::feeds::polymarket::{PolyBook, PolyEvent, PolyLevel, PolyPrice};
use polymarket_bot::market_discovery::MarketInfo;
use polymarket_bot::number::binary64::Binary64;
use polymarket_bot::strategy::LegState;
use polymarket_bot::utils::clock::Timestamp;
use polymarket_bot::utils::name_map::NameMap;

fn double(x: f64) -> Binary64 {
    Binary64::from_bits(x.to_bits())
}

fn at(secs: i64) -> Timestamp {
    Timestamp::from_parts(secs, 0).unwrap()
}

fn config() -> Config {
    let mut vars = NameMap::new();
    vars.insert("POLYMARKET_PRIVATE_KEY".to_string(), "k".to_string());
    Config::from_env(&vars).unwrap()
}

fn info(slug: &str) -> MarketInfo {
    MarketInfo {
        slug: slug.to_string(),
        condition_id: format!("c-{}", slug),
        yes_token_id: "yes".to_string(),
        no_token_id: "no".to_string(),
        question: "?".to_string(),
    }
}

fn book(asset: &str, bid: f64, ask: f64, bid_size: f64, ask_size: f64) -> HlBookSnapshot {
    HlBookSnapshot {
        asset: asset.to_string(),
        bids: vec![PriceLevel { price: double(bid), size: double(bid_size) }],
        asks: vec![PriceLevel { price: double(ask), size: double(ask_size) }],
        timestamp: at(1000),
    }
}

fn price(token: &str, x: f64) -> PolyEvent {
    PolyEvent::Price(PolyPrice { token_id: token.to_string(), price: double(x), timestamp: at(0) })
}

fn poly_book(token: &str, asks: &[f64]) -> PolyEvent {
    PolyEvent::Book(PolyBook {
        token_id: token.to_string(),
        bids: Vec::new(),
        asks: asks.iter().map(|a| PolyLevel { price: double(*a), size: double(1.0) }).collect(),
        timestamp: at(0),
    })
}

fn ready() -> Engine {
    let mut engine = Engine::new(config(), at(900));
    engine.on_book(&book("BTC", 99.0, 101.0, 1.0, 1.0), at(990));
    engine.on_market("BTC".to_string(), info("m1"), at(1000), at(1000));
    engine.on_poly_event(price("yes", 0.6), at(1001));
    engine
}

fn enter(engine: &mut Engine) -> EntryDecision {
    engine.on_book(&book("BTC", 100.0, 101.0, 3.0, 1.0), at(1100))
}

#[test]
fn a_move_orders_the_first_leg() {
    let mut engine = ready();
    match enter(&mut engine) {
        EntryDecision::Order(OrderRequest::Leg1Market { token_id, size_usd, asset_key, hint_price }) => {
            assert_eq!(token_id, "yes");
            assert_eq!(size_usd, double(25.0));
            assert_eq!(asset_key, "BTC");
            assert_eq!(hint_price, Some(double(0.6)));
        }
        other => panic!("{:?}", other),
    }
    assert!(matches!(enter(&mut engine), EntryDecision::Nothing));
}

#[test]
fn nothing_is_ordered_without_a_market_an_opening_price_or_a_move() {
    let mut engine = Engine::new(config(), at(900));
    assert!(matches!(enter(&mut engine), EntryDecision::Nothing));
    let mut engine = Engine::new(config(), at(900));
    engine.on_market("BTC".to_string(), info("m1"), at(1000), at(1000));
    assert!(matches!(enter(&mut engine), EntryDecision::Nothing));
    let mut engine = ready();
    let flat = book("BTC", 99.0, 101.0, 3.0, 1.0);
    assert!(matches!(engine.on_book(&flat, at(1100)), EntryDecision::Nothing));
    let early = book("BTC", 100.0, 101.0, 3.0, 1.0);
    assert!(matches!(engine.on_book(&early, at(1059)), EntryDecision::Nothing));
}

#[test]
fn a_token_without_a_price_counts_as_one_half() {
    let mut engine = Engine::new(config(), at(900));
    engine.on_book(&book("BTC", 99.0, 101.0, 1.0, 1.0), at(990));
    engine.on_market("BTC".to_string(), info("m1"), at(1000), at(1000));
    assert!(matches!(enter(&mut engine), EntryDecision::Nothing));
    engine.on_poly_event(poly_book("yes", &[0.7, 0.8]), at(1001));
    assert!(matches!(enter(&mut engine), EntryDecision::Order(_)));
}

#[test]
fn risks_can_veto_an_entry() {
    let mut engine = ready();
    engine.risk.check_daily_halt(double(-500.0));
    assert!(matches!(enter(&mut engine), EntryDecision::Vetoed(RiskVeto::TradingHalted)));
    let mut engine = ready();
    engine.tracker.record_trade(TradeRecord {
        asset: "BTC".to_string(),
        leg1_price: double(0.5),
        leg2_price: None,
        shares: double(1.0),
        pnl: double(-200.0),
        outcome: TradeOutcome::Expired,
        timestamp: at(0),
    });
    assert!(matches!(enter(&mut engine), EntryDecision::Vetoed(RiskVeto::DailyLossLimitReached)));
}

fn filled(fill_price: f64, shares: f64) -> Result<OrderResult, OrderError> {
    Ok(OrderResult::Filled { fill_price: double(fill_price), shares: double(shares) })
}

fn rejected() -> Result<OrderResult, OrderError> {
    Ok(OrderResult::Rejected { reason: "no".to_string() })
}

fn state(engine: &Engine) -> &LegState {
    &engine.markets.get("BTC").unwrap().leg_manager.state
}

#[test]
fn a_filled_first_leg_orders_the_second() {
    let mut engine = ready();
    enter(&mut engine);
    match engine.on_order_result("BTC", OrderRequestKind::Leg1, filled(0.6, 40.0), at(1101)) {
        Some(OrderRequest::Leg2Limit { token_id, price, shares, asset_key }) => {
            assert_eq!(token_id, "no");
            assert_eq!(price, double(1.0 - 0.6 - 0.01 - (0.6 * 0.02) - 0.05));
            assert_eq!(shares, double(40.0));
            assert_eq!(asset_key, "BTC");
        }
        other => panic!("{:?}", other),
    }
    assert_eq!(engine.risk.open_positions("BTC"), 1);
    assert!(matches!(
        engine.on_order_result("BTC", OrderRequestKind::Leg2, rejected(), at(1102)),
        Some(OrderRequest::Leg2Limit { .. })
    ));
    let partial =
        Ok(OrderResult::PartialFill { fill_price: double(0.3), filled_shares: double(1.0), remaining_shares: double(39.0) });
    assert!(engine.on_order_result("BTC", OrderRequestKind::Leg2, partial, at(1103)).is_none());
    assert!(engine.on_order_result("BTC", OrderRequestKind::Leg2, Err(OrderError::PostFailed), at(1103)).is_none());
    assert!(matches!(state(&engine), LegState::Leg2Pending { .. }));
    assert!(engine.on_order_result("BTC", OrderRequestKind::Leg2, filled(0.3, 40.0), at(1104)).is_none());
    assert!(matches!(state(&engine), LegState::Locked { .. }));
    assert_eq!(engine.risk.open_positions("BTC"), 0);
    // Both legs cost 0.61 and 0.3, and the fee on the first one is 2 %.
    let cost = 0.6 + 0.01;
    let paid = (1.0 - (cost + 0.3 + (cost * 0.02 + 0.3 * 0.0))) * 40.0;
    assert_eq!(engine.tracker.daily_pnl(), double(0.0 + paid));
    assert_eq!((engine.tracker.total_trades(), engine.tracker.winning_trades()), (1, 1));
    // The lock is complete: nothing more is recorded.
    engine.on_order_result("BTC", OrderRequestKind::Leg2, filled(0.3, 40.0), at(1105));
    engine.on_order_result("BTC", OrderRequestKind::ForceClose, filled(0.3, 40.0), at(1105));
    assert_eq!(engine.tracker.total_trades(), 1);
    assert_eq!(engine.risk.open_positions("BTC"), 0);
}

/// Opens a position on BTC and has it closed at a price.
fn lose(engine: &mut Engine, fill: f64) {
    enter(engine);
    engine.on_order_result("BTC", OrderRequestKind::Leg1, filled(0.6, 40.0), at(1101));
    engine.on_poly_event(poly_book("no", &[0.4]), at(1295));
    engine.on_order_result("BTC", OrderRequestKind::ForceClose, filled(fill, 40.0), at(1297));
}

#[test]
fn a_force_close_is_recorded_once() {
    let mut engine = ready();
    lose(&mut engine, 0.5);
    let lost = (0.5 - 0.6) * 40.0;
    assert_eq!(engine.tracker.daily_pnl(), double(0.0 + lost));
    assert_eq!(engine.tracker.total_realised_pnl(), double(0.0 + lost));
    assert_eq!((engine.tracker.total_trades(), engine.tracker.losing_trades()), (1, 1));
    assert_eq!(engine.tracker.consecutive_losses(), 1);
    engine.on_order_result("BTC", OrderRequestKind::ForceClose, filled(0.1, 40.0), at(1298));
    assert_eq!(engine.tracker.total_trades(), 1);
    assert!(!engine.risk.cooldown_active_at(at(1298)) && !engine.risk.is_halted());
}

#[test]
fn the_daily_loss_limit_stops_trading_until_the_next_day() {
    let mut vars = NameMap::new();
    vars.insert("POLYMARKET_PRIVATE_KEY".to_string(), "k".to_string());
    vars.insert("MAX_DAILY_LOSS_USD".to_string(), "20".to_string());
    let mut engine = Engine::new(Config::from_env(&vars).unwrap(), at(900));
    engine.on_book(&book("BTC", 99.0, 101.0, 1.0, 1.0), at(990));
    engine.on_market("BTC".to_string(), info("m1"), at(1000), at(1000));
    engine.on_poly_event(price("yes", 0.6), at(1001));
    lose(&mut engine, 0.1);
    assert_eq!(engine.tracker.daily_pnl(), double((0.1 - 0.6) * 40.0));
    assert!(engine.risk.is_halted());
    engine.on_book(&book("BTC", 99.0, 101.0, 1.0, 1.0), at(1299));
    engine.on_market("BTC".to_string(), info("m2"), at(1300), at(1300));
    let up = book("BTC", 100.0, 101.0, 3.0, 1.0);
    assert!(matches!(engine.on_book(&up, at(1400)), EntryDecision::Vetoed(RiskVeto::TradingHalted)));
    engine.on_new_day();
    assert!(!engine.risk.is_halted());
    assert_eq!(engine.tracker.daily_pnl(), double(0.0));
    assert_eq!(engine.tracker.total_pnl(), double((0.1 - 0.6) * 40.0));
    assert!(matches!(engine.on_book(&up, at(1400)), EntryDecision::Order(_)));
}

#[test]
fn losses_in_a_row_lead_to_a_cooldown_that_ends() {
    let mut engine = ready();
    for round in 0..3 {
        assert!(!engine.risk.cooldown_active_at(at(1296)), "{}", round);
        engine.on_book(&book("BTC", 99.0, 101.0, 1.0, 1.0), at(999));
        engine.on_market("BTC".to_string(), info("m1"), at(1000), at(1000));
        lose(&mut engine, 0.5);
    }
    assert_eq!(engine.tracker.consecutive_losses(), 3);
    assert!(engine.risk.cooldown_active_at(at(1596)));
    engine.on_book(&book("BTC", 99.0, 101.0, 1.0, 1.0), at(1299));
    engine.on_market("BTC".to_string(), info("m2"), at(1400), at(1400));
    let up = book("BTC", 100.0, 101.0, 3.0, 1.0);
    assert!(matches!(
        engine.on_book(&up, at(1500)),
        EntryDecision::Vetoed(RiskVeto::CooldownActive { expires_in_secs: 97 })
    ));
    engine.on_new_day();
    assert!(engine.risk.cooldown_active_at(at(1596)));
    assert!(matches!(engine.on_book(&up, at(1597)), EntryDecision::Order(_)));
}

#[test]
fn a_fill_at_an_unknown_price_is_not_booked() {
    let mut engine = ready();
    enter(&mut engine);
    engine.on_order_result("BTC", OrderRequestKind::Leg1, filled(0.6, 40.0), at(1101));
    engine.on_order_result("BTC", OrderRequestKind::Leg2, filled(0.0, 40.0), at(1102));
    assert!(matches!(state(&engine), LegState::Locked { .. }));
    assert_eq!(engine.tracker.total_trades(), 0);
    assert_eq!(engine.tracker.daily_pnl(), double(0.0));
    assert_eq!(engine.risk.open_positions("BTC"), 0);
    let mut engine = ready();
    lose(&mut engine, 0.0);
    assert_eq!(engine.tracker.total_trades(), 0);
    assert_eq!(engine.risk.open_positions("BTC"), 0);
    engine.on_order_result("BTC", OrderRequestKind::ForceClose, filled(0.5, 40.0), at(1298));
    assert_eq!(engine.tracker.total_trades(), 0);
}

#[test]
fn a_late_first_leg_takes_no_place() {
    let mut engine = ready();
    enter(&mut engine);
    engine.on_market("BTC".to_string(), info("m2"), at(1300), at(1300));
    assert!(engine.on_order_result("BTC", OrderRequestKind::Leg1, filled(0.6, 40.0), at(1301)).is_none());
    assert!(matches!(state(&engine), LegState::Idle));
    assert_eq!(engine.risk.open_positions("BTC"), 0);
}

#[test]
fn an_opening_price_does_not_outlive_its_market() {
    let mut vars = NameMap::new();
    for key in ["POLYMARKET_PRIVATE_KEY", "CHAINLINK_API_KEY", "CHAINLINK_API_SECRET"] {
        vars.insert(key.to_string(), "k".to_string());
    }
    let mut engine = Engine::new(Config::from_env(&vars).unwrap(), at(900));
    let report = |x: f64, secs: i64| ChainlinkPrice {
        asset: "BTC".to_string(),
        price: double(x),
        timestamp: at(secs),
    };
    engine.on_chainlink(report(1.0, 1000));
    engine.on_market("BTC".to_string(), info("m1"), at(1000), at(1000));
    assert_eq!(engine.prices.get_state_at("BTC", at(1000)).unwrap().bps_from_open, double(0.0));
    engine.on_chainlink(report(2.0, 1010));
    engine.on_market("BTC".to_string(), info("m2"), at(1300), at(1300));
    engine.on_chainlink(report(3.0, 1310));
    assert!(engine.prices.get_state_at("BTC", at(1310)).is_none());
}

#[test]
fn a_market_runs_from_its_opening() {
    let mut engine = Engine::new(config(), at(900));
    engine.on_book(&book("BTC", 99.0, 101.0, 1.0, 1.0), at(990));
    engine.on_market("BTC".to_string(), info("m1"), at(1000), at(1020));
    engine.on_poly_event(price("yes", 0.6), at(1021));
    let up = book("BTC", 100.0, 101.0, 3.0, 1.0);
    assert!(matches!(engine.on_book(&up, at(1059)), EntryDecision::Nothing));
    assert!(matches!(engine.on_book(&up, at(1060)), EntryDecision::Order(_)));
    engine.on_order_result("BTC", OrderRequestKind::Leg1, filled(0.6, 40.0), at(1061));
    assert!(engine.on_poly_event(poly_book("no", &[0.4]), at(1290)).is_empty());
    assert_eq!(engine.on_poly_event(poly_book("no", &[0.4]), at(1291)).len(), 1);
}

#[test]
fn an_expired_position_is_not_open() {
    let mut engine = ready();
    enter(&mut engine);
    engine.on_order_result("BTC", OrderRequestKind::Leg1, filled(0.6, 40.0), at(1101));
    assert_eq!(engine.risk.open_positions("BTC"), 1);
    engine.on_market("BTC".to_string(), info("m2"), at(1300), at(1300));
    assert_eq!(engine.risk.open_positions("BTC"), 0);
    assert_eq!(engine.tracker.total_trades(), 0);
    // A result that comes too late changes nothing.
    engine.on_order_result("BTC", OrderRequestKind::ForceClose, filled(0.5, 40.0), at(1301));
    assert_eq!(engine.tracker.total_trades(), 0);
    let mut engine = ready();
    lose(&mut engine, 0.5);
    engine.on_market("BTC".to_string(), info("m2"), at(1300), at(1300));
    assert_eq!(engine.risk.open_positions("BTC"), 0);
}

#[test]
fn chainlink_prices_decide_where_they_are_enabled() {
    let mut vars = NameMap::new();
    for key in ["POLYMARKET_PRIVATE_KEY", "CHAINLINK_API_KEY", "CHAINLINK_API_SECRET"] {
        vars.insert(key.to_string(), "k".to_string());
    }
    let cfg = Config::from_env(&vars).unwrap();
    let report = |x: f64, secs: i64| ChainlinkPrice {
        asset: "BTC".to_string(),
        price: double(x),
        timestamp: at(secs),
    };
    let mut engine = Engine::new(cfg, at(900));
    engine.on_chainlink(report(100.0, 1000));
    engine.on_market("BTC".to_string(), info("m1"), at(1000), at(1000));
    engine.on_poly_event(price("yes", 0.6), at(1001));
    engine.on_chainlink(report(100.0, 1100));
    assert!(matches!(enter(&mut engine), EntryDecision::Nothing));
    engine.on_chainlink(report(100.5, 1100));
    assert!(matches!(enter(&mut engine), EntryDecision::Order(_)));
}

#[test]
fn counts_have_limits() {
    let mut engine = ready();
    enter(&mut engine);
    assert!(engine.can_take("BTC", OrderRequestKind::Leg1, &filled(0.6, 40.0), at(1101)));
    assert!(engine.can_take("SOL", OrderRequestKind::Leg1, &filled(0.6, 40.0), at(1101)));
    let mut vars = NameMap::new();
    vars.insert("POLYMARKET_PRIVATE_KEY".to_string(), "k".to_string());
    vars.insert("COOLDOWN_AFTER_LOSSES".to_string(), "1".to_string());
    vars.insert("COOLDOWN_DURATION_SECS".to_string(), "9000000000000000000".to_string());
    let mut engine = Engine::new(Config::from_env(&vars).unwrap(), at(900));
    engine.on_book(&book("BTC", 99.0, 101.0, 1.0, 1.0), at(990));
    engine.on_market("BTC".to_string(), info("m1"), at(1000), at(1000));
    engine.on_poly_event(price("yes", 0.6), at(1001));
    enter(&mut engine);
    engine.on_order_result("BTC", OrderRequestKind::Leg1, filled(0.6, 40.0), at(1101));
    assert!(engine.can_take("BTC", OrderRequestKind::Leg2, &filled(0.3, 40.0), at(1102)));
    assert!(!engine.can_take("BTC", OrderRequestKind::Leg2, &filled(0.9, 40.0), at(1102)));
    assert!(engine.can_take("BTC", OrderRequestKind::Leg2, &rejected(), at(1102)));
}

#[test]
fn a_rejected_first_leg_frees_the_market() {
    for result in [rejected(), Err(OrderError::PostFailed)] {
        let mut engine = ready();
        enter(&mut engine);
        assert!(engine.on_order_result("BTC", OrderRequestKind::Leg1, result, at(1101)).is_none());
        assert!(matches!(state(&engine), LegState::Idle));
        assert_eq!(engine.risk.open_positions("BTC"), 0);
    }
}

#[test]
fn results_for_unknown_assets_are_dropped() {
    let mut engine = ready();
    assert!(engine.on_order_result("SOL", OrderRequestKind::Leg1, filled(0.6, 40.0), at(1101)).is_none());
    assert_eq!(engine.risk.open_positions("SOL"), 0);
}

#[test]
fn a_pending_position_is_closed_at_the_end() {
    let mut engine = ready();
    enter(&mut engine);
    engine.on_order_result("BTC", OrderRequestKind::Leg1, filled(0.6, 40.0), at(1101));
    assert!(engine.on_poly_event(poly_book("no", &[0.4]), at(1290)).is_empty());
    assert!(engine.on_poly_event(poly_book("yes", &[0.4]), at(1295)).is_empty());
    assert!(engine.on_poly_event(poly_book("no", &[]), at(1295)).is_empty());
    let requests = engine.on_poly_event(poly_book("no", &[0.4]), at(1295));
    match &requests[..] {
        [OrderRequest::ForceClose { token_id, shares, asset_key }] => {
            assert_eq!(token_id, "yes");
            assert_eq!(*shares, double(40.0));
            assert_eq!(asset_key, "BTC");
        }
        other => panic!("{:?}", other),
    }
    assert!(engine.on_poly_event(poly_book("no", &[0.4]), at(1296)).is_empty());
    assert_eq!(engine.risk.open_positions("BTC"), 1);
    engine.on_order_result("BTC", OrderRequestKind::ForceClose, rejected(), at(1297));
    assert_eq!(engine.risk.open_positions("BTC"), 1);
    engine.on_order_result("BTC", OrderRequestKind::ForceClose, filled(0.5, 40.0), at(1297));
    assert_eq!(engine.risk.open_positions("BTC"), 0);
}

#[test]
fn a_new_market_replaces_and_redeems_the_old_one() {
    let mut engine = Engine::new(config(), at(900));
    let actions = engine.on_market("BTC".to_string(), info("m1"), at(1000), at(1000));
    assert!(actions.redeem.is_none());
    assert_eq!(actions.subscribe, vec!["yes".to_string(), "no".to_string()]);
    let actions = engine.on_market("BTC".to_string(), info("m2"), at(1300), at(1300));
    match actions.redeem {
        Some(RedeemCommand::Schedule { condition_id, slug, market_end_ts }) => {
            assert_eq!(condition_id, "c-m1");
            assert_eq!(slug, "m1");
            assert_eq!(market_end_ts, at(1300));
        }
        None => panic!("nothing to redeem"),
    }
    assert_eq!(engine.markets.get("BTC").unwrap().market_info.slug, "m2");
    assert!(engine.on_market("ETH".to_string(), info("e1"), at(1300), at(1300)).redeem.is_none());
}

#[test]
fn momentum_is_kept_per_asset() {
    let mut engine = Engine::new(config(), at(900));
    engine.on_book(&book("BTC", 99.0, 101.0, 1.0, 1.0), at(990));
    engine.on_book(&book("SOL", 9.0, 11.0, 1.0, 1.0), at(990));
    assert_eq!(engine.momentum_btc.compute().unwrap().latest_price, double(100.0));
    assert!(engine.momentum_eth.compute().is_none());
    engine.on_book(&book("ETH", 19.0, 21.0, 1.0, 1.0), at(990));
    assert_eq!(engine.momentum_eth.compute().unwrap().latest_price, double(20.0));
    engine.on_book(&book("BTC", -5.0, 1.0, 1.0, 1.0), at(991));
    assert_eq!(engine.momentum_btc.compute().unwrap().latest_price, double(100.0));
    assert!(engine.prices.has_price("SOL"));
}

#[test]
fn the_portfolio_shows_open_positions() {
    let mut engine = ready();
    engine.on_market("ETH".to_string(), info("e1"), at(1000), at(1000));
    let shown = engine.portfolio(at(1000));
    assert!(shown.active_trades.is_empty());
    assert_eq!(shown.uptime_secs, 100);
    enter(&mut engine);
    let shown = engine.portfolio(at(1101));
    assert_eq!(shown.active_trades.len(), 1);
    assert_eq!(shown.active_trades[0].leg1_price, double(0.0));
    assert_eq!(shown.active_trades[0].leg2_status, "Leg1 pending");
    engine.on_order_result("BTC", OrderRequestKind::Leg1, filled(0.6, 40.0), at(1101));
    engine.on_poly_event(price("yes", 0.7), at(1102));
    let shown = engine.portfolio(at(1150));
    let trade = &shown.active_trades[0];
    assert_eq!(trade.asset, "BTC");
    assert_eq!(trade.market_slug, "m1");
    assert_eq!(trade.direction, "Up");
    assert_eq!(trade.leg1_side, "Yes");
    assert_eq!(trade.leg1_price, double(0.6));
    assert_eq!(trade.leg1_shares, double(40.0));
    assert_eq!(trade.leg2_price, None);
    assert_eq!(trade.secs_since_entry, 150);
    assert_eq!(trade.secs_to_expiry, 150);
    let paper = (0.7 - 0.6) * 40.0;
    assert_eq!(trade.unrealised_pnl, double(paper));
    let total: f64 = [paper].iter().sum();
    assert_eq!(shown.unrealised_pnl, double(total));
    assert_eq!(shown.risk_status.open_positions_btc, 1);
    assert_eq!(shown.risk_status.open_positions_eth, 0);
    assert_eq!(shown.risk_status.daily_loss_limit, double(200.0));
    assert_eq!(shown.risk_status.daily_loss_remaining, double(200.0));
    assert!(!shown.risk_status.is_halted && !shown.risk_status.cooldown_active);
    assert_eq!(engine.portfolio(at(2000)).active_trades[0].secs_to_expiry, 0);
}

#[test]
fn an_idle_portfolio_sums_to_nothing() {
    let nothing: f64 = Vec::<f64>::new().iter().sum();
    let shown = Engine::new(config(), at(900)).portfolio(at(800));
    assert_eq!(shown.unrealised_pnl.to_bits(), nothing.to_bits());
    assert_eq!(shown.uptime_secs, 0);
    assert_eq!(shown.win_rate, double(0.0));
}

#[test]
fn markets_are_looked_up_half_a_minute_ahead() {
    assert_eq!(prefetch_wait(300), 270);
    assert_eq!(prefetch_wait(30), 0);
    assert_eq!(prefetch_wait(5), 0);
}

#[test]
fn chainlink_needs_a_key_and_a_secret() {
    assert!(chainlink_feeds(&config()).is_empty());
    let mut vars = NameMap::new();
    for (key, value) in [
        ("POLYMARKET_PRIVATE_KEY", "k"),
        ("CHAINLINK_API_KEY", "a"),
        ("CHAINLINK_API_SECRET", "b"),
        ("CHAINLINK_BTC_FEED_ID", "0x1"),
        ("CHAINLINK_ETH_FEED_ID", "0x2"),
    ] {
        vars.insert(key.to_string(), value.to_string());
    }
    let feeds = chainlink_feeds(&Config::from_env(&vars).unwrap());
    assert_eq!(feeds.len(), 2);
    assert_eq!((feeds[0].asset.as_str(), feeds[0].feed_id.as_str()), ("BTC", "0x1"));
    assert_eq!((feeds[1].asset.as_str(), feeds[1].feed_id.as_str()), ("ETH", "0x2"));
}
