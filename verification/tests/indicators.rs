use polymarket_bot::feeds::hyperliquid::{HlBookSnapshot, PriceLevel};
use polymarket_bot::indicators::price_aggregator::PriceSource;
use polymarket_bot::indicators::{BookImbalanceTracker, MomentumTracker, PriceAggregator};
use polymarket_bot::number::binary64::Binary64;
use polymarket_bot::utils::clock::{utc_now, Timestamp};

fn double(x: f64) -> Binary64 {
    Binary64::from_bits(x.to_bits())
}

fn at(secs: i64) -> Timestamp {
    Timestamp::from_parts(secs, 0).unwrap()
}

#[test]
fn prices_come_from_hyperliquid_without_chainlink() {
    let mut agg = PriceAggregator::default();
    assert!(!agg.has_price("BTC"));
    agg.update_chainlink("BTC", double(99.0), at(1));
    assert!(agg.has_price("BTC"));
    agg.snapshot_open_price("BTC");
    assert!(agg.get_state("BTC").is_none());
    agg.update_hl_mid("BTC", double(100.0), at(2));
    assert!(agg.get_state("BTC").is_none());
    agg.snapshot_open_price("BTC");
    agg.update_hl_mid("BTC", double(100.07), at(3));
    let state = agg.get_state("BTC").unwrap();
    assert_eq!(state.asset, "BTC");
    assert_eq!(state.price, double(100.07));
    assert_eq!(state.source, PriceSource::Hyperliquid);
    assert_eq!(state.bps_from_open, double((100.07 - 100.0) / 100.0 * 10_000.0));
    assert_eq!(state.timestamp, at(3));
    agg.clear_open_prices();
    assert!(agg.get_state("BTC").is_none());
}

#[test]
fn chainlink_is_preferred_where_enabled() {
    let mut agg = PriceAggregator::new(true);
    agg.update_hl_mid("ETH", double(10.0), at(1));
    agg.snapshot_open_price("ETH");
    assert_eq!(agg.get_state("ETH").unwrap().source, PriceSource::Hyperliquid);
    agg.update_chainlink("ETH", double(9.5), at(2));
    let state = agg.get_state_at("ETH", at(2)).unwrap();
    assert_eq!(state.source, PriceSource::Chainlink);
    assert_eq!(state.bps_from_open, double((9.5 - 10.0) / 10.0 * 10_000.0));
    assert!(agg.get_state("BTC").is_none());
}

#[test]
fn a_stale_chainlink_price_gives_way() {
    let mut agg = PriceAggregator::new(true);
    agg.update_hl_mid("ETH", double(10.0), at(1000));
    agg.update_chainlink("ETH", double(9.5), at(1000));
    agg.snapshot_open_price_at("ETH", at(1030));
    let fresh = agg.get_state_at("ETH", at(1030)).unwrap();
    assert_eq!((fresh.source, fresh.price), (PriceSource::Chainlink, double(9.5)));
    assert_eq!(fresh.bps_from_open, double(0.0));
    let late = Timestamp::from_parts(1030, 1).unwrap();
    let stale = agg.get_state_at("ETH", late).unwrap();
    assert_eq!((stale.source, stale.price), (PriceSource::Hyperliquid, double(10.0)));
    assert_eq!(stale.bps_from_open, double((10.0 - 9.5) / 9.5 * 10_000.0));
    agg.snapshot_open_price_at("ETH", at(90_000));
    assert_eq!(agg.get_state_at("ETH", at(90_000)).unwrap().bps_from_open, double(0.0));
    agg.update_chainlink("BTC", double(1.0), at(1000));
    agg.snapshot_open_price_at("BTC", at(2000));
    assert!(agg.get_state_at("BTC", at(1000)).is_none());
}

#[test]
fn the_clock_tells_which_price_is_fresh() {
    let mut agg = PriceAggregator::new(true);
    agg.update_hl_mid("ETH", double(10.0), utc_now());
    agg.update_chainlink("ETH", double(9.5), utc_now());
    agg.snapshot_open_price("ETH");
    assert_eq!(agg.get_state("ETH").unwrap().source, PriceSource::Chainlink);
    agg.update_chainlink("ETH", double(9.5), at(1000));
    assert_eq!(agg.get_state("ETH").unwrap().source, PriceSource::Hyperliquid);
}

#[test]
fn a_market_opens_without_a_move() {
    for price in [0.1, 3.0, 67_123.45, f64::MAX] {
        let mut agg = PriceAggregator::new(false);
        agg.update_hl_mid("BTC", double(price), at(1));
        agg.snapshot_open_price("BTC");
        assert_eq!(agg.get_state("BTC").unwrap().bps_from_open, double(0.0));
    }
}

#[test]
fn an_open_price_of_zero_means_no_move() {
    let mut agg = PriceAggregator::new(false);
    agg.update_hl_mid("BTC", double(0.0), at(1));
    agg.snapshot_open_price("BTC");
    agg.update_hl_mid("BTC", double(5.0), at(2));
    assert_eq!(agg.get_state("BTC").unwrap().bps_from_open, double(0.0));
}

fn book(bids: &[(f64, f64)], asks: &[(f64, f64)]) -> HlBookSnapshot {
    let side = |levels: &[(f64, f64)]| {
        levels.iter().map(|l| PriceLevel { price: double(l.0), size: double(l.1) }).collect()
    };
    HlBookSnapshot { asset: "BTC".to_string(), bids: side(bids), asks: side(asks), timestamp: at(1) }
}

#[test]
fn imbalance_weighs_the_top_levels() {
    let mut tracker = BookImbalanceTracker::new(2);
    assert!(tracker.get("BTC").is_none());
    tracker.update(&book(&[(100.0, 2.0), (99.5, 1.5), (99.0, 50.0)], &[(100.5, 1.0), (101.0, 0.5)]));
    let state = tracker.get("BTC").unwrap();
    let bid: f64 = [100.0 * 2.0, 99.5 * 1.5].iter().sum();
    let ask: f64 = [100.5 * 1.0, 101.0 * 0.5].iter().sum();
    assert_eq!(state.bid_depth, double(bid));
    assert_eq!(state.ask_depth, double(ask));
    assert_eq!(state.imbalance, double((bid - ask) / (bid + ask)));
    assert_eq!(state.best_bid, double(100.0));
    assert_eq!(state.best_ask, double(100.5));
    assert_eq!(state.mid_price, double((100.0 + 100.5) / 2.0));
    assert_eq!(state.spread_bps, double((100.5 - 100.0) / ((100.0 + 100.5) / 2.0) * 10_000.0));
    assert_eq!(state.tob_ratio, double(2.0 / (2.0 + 1.0)));
}

#[test]
fn an_empty_book_is_balanced() {
    let mut tracker = BookImbalanceTracker::new(5);
    tracker.update(&book(&[], &[]));
    let state = tracker.get("BTC").unwrap();
    let nothing: f64 = Vec::<f64>::new().iter().sum();
    assert_eq!(state.bid_depth, double(nothing));
    assert_eq!(state.imbalance, double(0.0));
    assert_eq!(state.mid_price, double(0.0));
    assert_eq!(state.spread_bps, double(0.0));
    assert_eq!(state.tob_ratio, double(0.5));
}

#[test]
fn one_sided_books_reach_the_ends_of_the_range() {
    let mut tracker = BookImbalanceTracker::new(5);
    tracker.update(&book(&[(3.0, 7.0)], &[]));
    assert_eq!(tracker.get("BTC").unwrap().imbalance, double(1.0));
    tracker.update(&book(&[], &[(3.0, 7.0)]));
    assert_eq!(tracker.get("BTC").unwrap().imbalance, double(-1.0));
    tracker.update(&book(&[(0.1, 0.3), (0.7, 1e-9)], &[(1e-300, 1e-300)]));
    let state = tracker.get("BTC").unwrap();
    assert!(state.imbalance.is_at_most(double(1.0)));
    assert!(double(-1.0).is_at_most(state.imbalance));
}

#[test]
fn alignment_needs_a_direction() {
    let mut tracker = BookImbalanceTracker::new(5);
    tracker.update(&book(&[(1.0, 3.0)], &[(1.0, 1.0)]));
    assert!(tracker.is_aligned("BTC", double(4.0), double(0.1)));
    assert!(!tracker.is_aligned("BTC", double(4.0), double(0.5)));
    assert!(!tracker.is_aligned("BTC", double(-4.0), double(0.1)));
    assert!(!tracker.is_aligned("BTC", double(0.0), double(0.1)));
    assert!(!tracker.is_aligned("ETH", double(4.0), double(0.1)));
    tracker.update(&book(&[(1.0, 1.0)], &[(1.0, 3.0)]));
    assert!(tracker.is_aligned("BTC", double(-4.0), double(0.1)));
}

#[test]
fn momentum_compares_with_both_windows() {
    let mut tracker = MomentumTracker::new(5, 15);
    assert!(tracker.compute().is_none());
    for i in 0..20 {
        tracker.push(double(100.0 + i as f64), at(1000 + i));
    }
    let state = tracker.compute().unwrap();
    let short = (119.0 - 114.0) / 114.0 * 10_000.0;
    let long = (119.0 - 104.0) / 104.0 * 10_000.0;
    assert_eq!(state.short_bps, double(short));
    assert_eq!(state.long_bps, double(long));
    assert_eq!(state.acceleration, double(short - long));
    assert_eq!(state.latest_price, double(119.0));
    tracker.clear();
    assert!(tracker.compute().is_none());
}

#[test]
fn samples_more_than_two_seconds_off_do_not_count() {
    let mut tracker = MomentumTracker::new(5, 15);
    tracker.push(double(100.0), at(1000));
    tracker.push(double(101.0), Timestamp::from_parts(1007, 1_000_000).unwrap());
    let state = tracker.compute().unwrap();
    assert_eq!(state.short_bps, double(0.0));
    tracker.push(double(102.0), at(1007));
    let state = tracker.compute().unwrap();
    assert_eq!(state.short_bps, double((102.0 - 100.0) / 100.0 * 10_000.0));
    assert_eq!(state.long_bps, double(0.0));
}

#[test]
fn of_equally_close_samples_the_oldest_counts() {
    let mut tracker = MomentumTracker::new(5, 15);
    tracker.push(double(10.0), at(1004));
    tracker.push(double(20.0), at(1006));
    tracker.push(double(40.0), at(1010));
    assert_eq!(tracker.compute().unwrap().short_bps, double((40.0 - 10.0) / 10.0 * 10_000.0));
}

#[test]
fn the_smallest_move_has_a_direction() {
    for open in [5e-324, 1e-300, 0.1, 1.0, 97_123.5, 1e300] {
        let mut agg = PriceAggregator::new(false);
        agg.update_hl_mid("BTC", double(open), at(1));
        agg.snapshot_open_price("BTC");
        let up = f64::from_bits(open.to_bits() + 1);
        let down = f64::from_bits(open.to_bits() - 1);
        agg.update_hl_mid("BTC", double(up), at(2));
        let rise = agg.get_state("BTC").unwrap().bps_from_open;
        assert_eq!(rise, double((up - open) / open * 10_000.0));
        assert!(rise.is_above(double(0.0)), "{}", open);
        agg.update_hl_mid("BTC", double(down), at(3));
        assert!(agg.get_state("BTC").unwrap().bps_from_open.is_below(double(0.0)), "{}", open);
    }
}

#[test]
fn the_top_ratio_is_a_share() {
    let mut tracker = BookImbalanceTracker::new(5);
    for (bid, ask) in [(0.0, 1.0), (1.0, 0.0), (1e308, 1e308), (0.3, 1e-17), (-0.0, 2.0)] {
        tracker.update(&book(&[(1.0, bid)], &[(1.0, ask)]));
        let ratio = tracker.get("BTC").unwrap().tob_ratio;
        assert_eq!(ratio, double(bid / (bid + ask)));
        assert!(double(0.0).is_at_most(ratio) && ratio.is_at_most(double(1.0)));
    }
}
