use chrono::Utc;
use polymarket_bot::market_discovery::slug::{
    current_market_open_ts, current_slug, format_slug, market_open_at, next_market_open_at,
    next_market_open_ts, next_slug, next_slug_at, secs_remaining, secs_remaining_at, secs_until_open,
    slug_at,
};

#[test]
fn test_format_slug() {
    assert_eq!(format_slug("BTC", 1700000000), "btc-updown-5m-1700000000");
    assert_eq!(format_slug("ETH", 1700000300), "eth-updown-5m-1700000300");
}

#[test]
fn test_secs_remaining() {
    let remaining = secs_remaining(300);
    assert!(remaining > 0 && remaining <= 300);
}

#[test]
fn test_slug_format() {
    let slug = format_slug("BTC", 1700000000);
    assert_eq!(slug, "btc-updown-5m-1700000000");

    let slug = format_slug("ETH", 1700000300);
    assert_eq!(slug, "eth-updown-5m-1700000300");
}

#[test]
fn test_slug_alignment() {
    let now = Utc::now().timestamp() as u64;
    let current = current_slug("BTC", 300);

    let ts_str = current.strip_prefix("btc-updown-5m-").unwrap();
    let ts: u64 = ts_str.parse().unwrap();

    assert_eq!(ts % 300, 0, "Timestamp should be aligned to 300s");
    assert!(ts <= now, "Current slug should be <= now");
    assert!(now - ts < 300, "Current slug should be within last 5 min");
}

#[test]
fn test_next_slug_is_future() {
    let now = Utc::now().timestamp() as u64;
    let next = next_slug("BTC", 300);

    let ts_str = next.strip_prefix("btc-updown-5m-").unwrap();
    let ts: u64 = ts_str.parse().unwrap();

    assert!(ts > now, "Next slug should be in the future");
    assert!(ts - now <= 300, "Next slug should be within 5 min");
}

#[test]
fn test_secs_remaining_range() {
    let remaining = secs_remaining(300);
    assert!(remaining > 0, "Should have > 0 seconds remaining");
    assert!(remaining <= 300, "Should have <= 300 seconds remaining");
}

#[test]
fn boundaries_at_given_times() {
    assert_eq!(market_open_at(1700000123, 300), 1700000100);
    assert_eq!(market_open_at(1700000100, 300), 1700000100);
    assert_eq!(secs_remaining_at(1700000123, 300), 277);
    assert_eq!(secs_remaining_at(1700000100, 300), 300);
    assert_eq!((secs_until_open(300, 270), secs_until_open(300, 300), secs_until_open(300, 310)), (30, 0, 0));
    assert_eq!(slug_at("Btc", 1700000123, 300), "btc-updown-5m-1700000100");
    assert_eq!(next_slug_at("ETH", 1700000123, 300), "eth-updown-5m-1700000400");
    assert_eq!(format_slug("\u{c4}X", 0), "\u{e4}x-updown-5m-0");
    let open = current_market_open_ts(300);
    let next = next_market_open_ts(300);
    assert!(next == open + 300 || next == open + 600);
}

#[test]
fn the_next_market_opens_when_the_current_one_ends() {
    for interval in [1, 7, 300] {
        for now in [0, 1, 299, 300, 1_700_000_123] {
            let (open, next) = (market_open_at(now, interval), next_market_open_at(now, interval));
            assert_eq!(next, open + interval);
            assert_eq!(next, now + secs_remaining_at(now, interval));
            assert_eq!(next, (now + 1..).find(|t| t % interval == 0).unwrap());
            assert_eq!(open, (0..=now).rev().find(|t| t % interval == 0).unwrap());
            assert_eq!(next_slug_at("BTC", now, interval), format_slug("BTC", next));
        }
    }
}

#[test]
fn the_time_can_be_read_from_the_slug() {
    for timestamp in [0, 300, 1_700_000_100, u64::MAX] {
        let slug = polymarket_bot::market_discovery::slug::format_slug("Eth", timestamp);
        let digits = slug.strip_prefix("eth-updown-5m-").unwrap();
        assert_eq!(digits.parse::<u64>().unwrap(), timestamp);
    }
}
