use polymarket_bot::config::Config;
use polymarket_bot::indicators::book_imbalance::ImbalanceState;
use polymarket_bot::indicators::price_aggregator::{PriceSource, PriceState};
use polymarket_bot::number::binary64::Binary64;
use polymarket_bot::strategy::signal::{Direction, EntrySignal};
use polymarket_bot::strategy::{evaluate_entry, Leg1Side, LegAction, LegManager, LegState, StrategyParams};
use polymarket_bot::utils::clock::Timestamp;
use polymarket_bot::utils::name_map::NameMap;

fn double(x: f64) -> Binary64 {
    Binary64::from_bits(x.to_bits())
}

fn value(x: Binary64) -> f64 {
    f64::from_bits(x.to_bits())
}

fn at(secs: i64) -> Timestamp {
    Timestamp::from_parts(secs, 0).unwrap()
}

fn price_state(bps: f64) -> PriceState {
    PriceState {
        asset: "BTC".to_string(),
        price: double(100.0),
        source: PriceSource::Hyperliquid,
        bps_from_open: double(bps),
        timestamp: at(0),
    }
}

fn imbalance(x: f64) -> ImbalanceState {
    ImbalanceState {
        imbalance: double(x),
        bid_depth: double(0.0),
        ask_depth: double(0.0),
        tob_ratio: double(0.0),
        best_bid: double(0.0),
        best_ask: double(0.0),
        mid_price: double(0.0),
        spread_bps: double(0.0),
    }
}

fn evaluate(bps: f64, imb: f64, yes: f64, no: f64, secs: u64) -> Option<EntrySignal> {
    evaluate_entry(&price_state(bps), &imbalance(imb), double(yes), double(no), secs, &StrategyParams::default())
}

#[test]
fn a_move_with_the_book_gives_a_signal() {
    let signal = evaluate(5.0, 0.2, 0.6, 0.1, 100).unwrap();
    assert_eq!(signal.asset, "BTC");
    assert_eq!(signal.direction, Direction::Up);
    assert_eq!(signal.leg1_side, Leg1Side::Yes);
    assert_eq!(signal.bps_move, double(5.0));
    assert_eq!(signal.book_imbalance, double(0.2));
    let signal = evaluate(-5.0, -0.2, 0.1, 0.6, 100).unwrap();
    assert_eq!(signal.direction, Direction::Down);
    assert_eq!(signal.leg1_side, Leg1Side::No);
}

#[test]
fn each_condition_can_stop_an_entry() {
    assert!(evaluate(6.0, 0.2, 0.6, 0.1, 59).is_none());
    assert!(evaluate(6.0, 0.2, 0.6, 0.1, 60).is_some());
    assert!(evaluate(6.0, 0.2, 0.6, 0.1, 240).is_some());
    assert!(evaluate(6.0, 0.2, 0.6, 0.1, 241).is_none());
    assert!(evaluate(4.99, 0.2, 0.6, 0.1, 100).is_none());
    assert!(evaluate(6.0, 0.1, 0.6, 0.1, 100).is_none());
    assert!(evaluate(6.0, -0.2, 0.6, 0.1, 100).is_none());
    assert!(evaluate(-6.0, 0.2, 0.6, 0.6, 100).is_none());
    assert!(evaluate(6.0, 0.2, 0.54, 0.6, 100).is_none());
    assert!(evaluate(6.0, 0.2, 0.55, 0.1, 100).is_some());
    assert!(evaluate(6.0, 0.2, 0.92, 0.1, 100).is_some());
    assert!(evaluate(6.0, 0.2, 0.93, 0.6, 100).is_none());
}

#[test]
fn parameters_come_from_the_settings() {
    let params = StrategyParams::default();
    assert_eq!(params.min_profit_per_share, double(0.01));
    let mut vars = NameMap::new();
    vars.insert("POLYMARKET_PRIVATE_KEY".to_string(), "k".to_string());
    vars.insert("ETH_ENTRY_BPS".to_string(), "8".to_string());
    vars.insert("FORCE_CLOSE_SECS".to_string(), "12".to_string());
    let cfg = Config::from_env(&vars).unwrap();
    let params = StrategyParams::from_config(&cfg, "eth");
    assert_eq!(params.entry_bps_threshold, double(8.0));
    assert_eq!(params.force_close_secs, 12);
    assert_eq!(params.min_entry_time_secs, 60);
    assert_eq!(params.max_entry_time_secs, 240);
    assert_eq!(params.slippage_cents, double(0.01));
    assert_eq!(params.taker_fee_rate, double(0.02));
    assert_eq!(params.maker_fee_rate, double(0.0));
    assert_eq!(params.min_profit_per_share, double(0.05));
    assert_eq!(StrategyParams::from_config(&cfg, "BTC").entry_bps_threshold, double(5.0));
}

fn signal(side: Leg1Side) -> EntrySignal {
    EntrySignal {
        asset: "BTC".to_string(),
        direction: Direction::Up,
        bps_move: double(6.0),
        book_imbalance: double(0.2),
        leg1_side: side,
    }
}

fn manager() -> LegManager {
    LegManager::new(StrategyParams::default(), "yes".to_string(), "no".to_string(), at(1000), 300)
}

#[test]
fn a_position_goes_from_signal_to_lock() {
    let mut m = manager();
    assert!(m.is_idle());
    assert_eq!(m.leg2_status(), "N/A");
    match m.on_signal_at(signal(Leg1Side::Yes), at(1100)) {
        LegAction::PlaceLeg1 { token_id, side, size_usd } => {
            assert_eq!(token_id, "yes");
            assert_eq!(side, Leg1Side::Yes);
            assert_eq!(size_usd, double(25.0));
        }
        other => panic!("{:?}", other),
    }
    assert_eq!(m.state, LegState::Leg1Pending { signal: signal(Leg1Side::Yes), order_time: at(1100) });
    assert_eq!(m.leg2_status(), "Leg1 pending");
    assert_eq!(m.leg1_fill_price(), None);
    assert_eq!(m.current_direction(), Some(&Direction::Up));
    assert_eq!(m.current_leg1_side(), Some(&Leg1Side::Yes));
    let target = 1.0 - 0.6 - 0.01 - (0.6 * 0.02) - 0.01;
    match m.on_leg1_fill_at(double(0.6), double(40.0), at(1101)) {
        LegAction::PlaceLeg2 { token_id, price, shares } => {
            assert_eq!(token_id, "no");
            assert_eq!(price, double(target));
            assert_eq!(shares, double(40.0));
        }
        other => panic!("{:?}", other),
    }
    assert_eq!(m.leg2_status(), format!("Leg2 pending @ {:.4}", target));
    assert_eq!(m.leg1_fill_price(), Some(double(0.6)));
    assert_eq!(m.leg1_fill_shares(), Some(double(40.0)));
    assert_eq!(m.leg2_fill_price(), None);
    assert_eq!(m.unrealised_pnl(double(0.7), double(0.3)), double((0.7 - 0.6) * 40.0));
    m.on_leg2_fill(double(target));
    let cost = 0.6 + 0.01;
    let fee = cost * 0.02 + target * 0.0;
    let pnl = (1.0 - (cost + target + fee)) * 40.0;
    assert!(pnl > 0.0);
    assert!(m.is_locked());
    assert_eq!(m.unrealised_pnl(double(0.7), double(0.3)), double(pnl));
    assert_eq!(m.leg2_status(), format!("LOCKED @ {:.4}", target));
    assert_eq!(m.leg2_fill_price(), Some(double(target)));
    assert_eq!(m.leg1_fill_shares(), Some(double(40.0)));
}

#[test]
fn the_second_leg_buys_the_other_token() {
    let mut m = manager();
    let first = m.on_signal(signal(Leg1Side::No));
    assert!(matches!(first, LegAction::PlaceLeg1 { ref token_id, .. } if token_id == "no"));
    let second = m.on_leg1_fill(double(0.7), double(10.0));
    assert!(matches!(second, LegAction::PlaceLeg2 { ref token_id, .. } if token_id == "yes"));
    assert_eq!(m.unrealised_pnl(double(0.2), double(0.75)), double((0.75 - 0.7) * 10.0));
}

#[test]
fn a_signal_is_ignored_while_a_position_is_open() {
    let mut m = manager();
    m.on_signal_at(signal(Leg1Side::Yes), at(1100));
    assert!(matches!(m.on_signal_at(signal(Leg1Side::No), at(1101)), LegAction::Nothing));
    assert_eq!(m.current_leg1_side(), Some(&Leg1Side::Yes));
    m.on_leg1_rejected();
    assert!(m.is_idle());
    assert_eq!(m.current_direction(), None);
}

#[test]
fn events_out_of_order_change_nothing() {
    let mut m = manager();
    assert!(matches!(m.on_leg1_fill_at(double(0.5), double(1.0), at(1)), LegAction::Nothing));
    m.on_leg2_fill(double(0.4));
    assert!(matches!(m.on_leg2_rejected_at(at(1)), LegAction::Nothing));
    assert!(matches!(m.on_tick(double(0.4), at(5000)), LegAction::Nothing));
    assert!(m.is_idle());
    assert_eq!(m.unrealised_pnl(double(0.7), double(0.3)), double(0.0));
}

#[test]
fn a_rejected_second_leg_is_ordered_again() {
    let mut m = manager();
    m.on_signal_at(signal(Leg1Side::Yes), at(1100));
    let first = m.on_leg1_fill_at(double(0.6), double(40.0), at(1101));
    let again = m.on_leg2_rejected_at(at(1105));
    assert_eq!(format!("{:?}", first), format!("{:?}", again));
    assert!(matches!(m.state, LegState::Leg2Pending { order_time, .. } if order_time == at(1105)));
    assert!(matches!(m.on_leg2_rejected(), LegAction::PlaceLeg2 { .. }));
}

#[test]
fn an_unlocked_position_is_closed_near_expiry() {
    let mut m = manager();
    m.on_signal_at(signal(Leg1Side::Yes), at(1100));
    m.on_leg1_fill_at(double(0.6), double(40.0), at(1101));
    assert!(matches!(m.on_tick(double(0.4), at(1289)), LegAction::Nothing));
    let half_past = Timestamp::from_parts(1289, 500_000_000).unwrap();
    assert!(matches!(m.on_tick(double(0.4), half_past), LegAction::Nothing));
    assert!(matches!(m.on_tick(double(0.4), at(1290)), LegAction::Nothing));
    assert!(matches!(m.state, LegState::Leg2Pending { .. }));
    assert_eq!(m.secs_to_expiry(at(1290)), 10);
    match m.on_tick(double(0.4), Timestamp::from_parts(1290, 1).unwrap()) {
        LegAction::ForceCloseLeg1 { token_id, shares } => {
            assert_eq!(token_id, "yes");
            assert_eq!(shares, double(40.0));
        }
        other => panic!("{:?}", other),
    }
    assert_eq!(m.leg2_status(), "Force-closing");
    assert_eq!(m.leg1_fill_price(), Some(double(0.6)));
    assert!(matches!(m.on_tick(double(0.4), at(1299)), LegAction::Nothing));
}

#[test]
fn a_reset_starts_over() {
    let mut m = manager();
    m.on_signal_at(signal(Leg1Side::Yes), at(1100));
    m.reset("y2".to_string(), "n2".to_string(), at(1300));
    assert!(m.is_idle());
    let action = m.on_signal_at(signal(Leg1Side::No), at(1400));
    assert!(matches!(action, LegAction::PlaceLeg1 { ref token_id, .. } if token_id == "n2"));
}

#[test]
fn every_lock_at_the_limit_pays() {
    let mut vars = NameMap::new();
    vars.insert("POLYMARKET_PRIVATE_KEY".to_string(), "k".to_string());
    let cfg = Config::from_env(&vars).unwrap();
    for params in [StrategyParams::default(), StrategyParams::from_config(&cfg, "BTC")] {
        let mut price = 0.0;
        while price <= 1.0 {
            let mut m = LegManager::new(params, "y".to_string(), "n".to_string(), at(0), 300);
            m.on_signal_at(signal(Leg1Side::Yes), at(1));
            if let LegAction::PlaceLeg2 { price: limit, .. } = m.on_leg1_fill_at(double(price), double(1.0), at(1)) {
                if value(limit) >= 0.0 {
                    m.on_leg2_fill(limit);
                    assert!(value(m.unrealised_pnl(double(0.0), double(0.0))) > 0.0, "{}", price);
                }
            }
            price += 0.00713;
        }
    }
}
