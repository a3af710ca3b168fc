use polymarket_bot::config::{split_csv, Config, ConfigFault};
use polymarket_bot::number::binary64::Binary64;
use polymarket_bot::utils::name_map::NameMap;

fn double(x: f64) -> Binary64 {
    Binary64::from_bits(x.to_bits())
}

fn variables(pairs: &[(&str, &str)]) -> NameMap<String> {
    let mut vars = NameMap::new();
    for (key, value) in pairs {
        vars.insert(key.to_string(), value.to_string());
    }
    vars
}

#[test]
fn defaults_are_used_where_nothing_is_set() {
    let cfg = Config::from_env(&variables(&[("POLYMARKET_PRIVATE_KEY", "k")])).unwrap();
    assert_eq!(cfg.polymarket_private_key, "k");
    assert_eq!(cfg.polymarket_funder_address, None);
    assert_eq!(cfg.polymarket_clob_url, "https://clob.polymarket.com");
    assert_eq!(cfg.polymarket_gamma_url, "https://gamma-api.polymarket.com");
    assert_eq!(cfg.polymarket_ws_url, "wss://ws-subscriptions-clob.polymarket.com/ws");
    assert_eq!(cfg.polymarket_rtds_url, "wss://ws-live-data.polymarket.com");
    assert_eq!(cfg.chainlink_ws_url, "wss://ws.testnet-dataengine.chain.link");
    assert_eq!(cfg.chainlink_api_key, "");
    assert!(!cfg.chainlink_enabled());
    assert_eq!(cfg.hyperliquid_ws_url, "wss://api.hyperliquid.xyz/ws");
    assert_eq!(cfg.hyperliquid_assets, vec!["BTC".to_string(), "ETH".to_string()]);
    assert_eq!(cfg.trade_size_usd, double(25.0));
    assert_eq!(cfg.btc_entry_bps, double(5.0));
    assert_eq!(cfg.eth_entry_bps, double(5.0));
    assert_eq!(cfg.book_imb_thresh, double(0.1));
    assert_eq!(cfg.min_entry_price, double(0.55));
    assert_eq!(cfg.max_entry_price, double(0.92));
    assert_eq!(cfg.leg2_wait_secs, 15);
    assert_eq!(cfg.leg2_min_wait_secs, 3);
    assert_eq!(cfg.force_close_secs, 10);
    assert_eq!(cfg.max_concurrent_positions, 3);
    assert_eq!(cfg.max_daily_loss_usd, double(200.0));
    assert_eq!(cfg.cooldown_after_losses, 3);
    assert_eq!(cfg.cooldown_duration_secs, 300);
    assert_eq!(cfg.log_level, "info");
    assert!(cfg.dry_run);
    assert_eq!(cfg.assets, vec!["BTC".to_string(), "ETH".to_string()]);
    assert_eq!(cfg.market_interval_secs, 300);
}

#[test]
fn settings_come_from_the_variables() {
    let cfg = Config::from_env(&variables(&[
        ("POLYMARKET_PRIVATE_KEY", "k"),
        ("POLYMARKET_FUNDER_ADDRESS", "0xabc"),
        ("CHAINLINK_API_KEY", "a"),
        ("CHAINLINK_API_SECRET", "b"),
        ("TRADE_SIZE_USD", "12.5"),
        ("ETH_ENTRY_BPS", "7e0"),
        ("FORCE_CLOSE_SECS", "+20"),
        ("COOLDOWN_AFTER_LOSSES", "4294967298"),
        ("DRY_RUN", "False"),
        ("ASSETS", " btc,, eth ,sol"),
    ]))
    .unwrap();
    assert_eq!(cfg.polymarket_funder_address, Some("0xabc".to_string()));
    assert!(cfg.chainlink_enabled());
    assert_eq!(cfg.trade_size_usd, double(12.5));
    assert_eq!(cfg.eth_entry_bps, double(7.0));
    assert_eq!(cfg.force_close_secs, 20);
    assert_eq!(cfg.cooldown_after_losses, 2);
    assert!(!cfg.dry_run);
    assert_eq!(cfg.assets, vec!["BTC".to_string(), "ETH".to_string(), "SOL".to_string()]);
}

#[test]
fn an_empty_funder_counts_as_none() {
    let cfg = Config::from_env(&variables(&[
        ("POLYMARKET_PRIVATE_KEY", "k"),
        ("POLYMARKET_FUNDER_ADDRESS", ""),
    ]))
    .unwrap();
    assert_eq!(cfg.polymarket_funder_address, None);
}

#[test]
fn a_dry_run_is_left_only_on_purpose() {
    for (value, dry) in [("true", true), ("TRUE", true), ("1", true), ("0", false), ("yes", false), ("", false)] {
        let cfg = Config::from_env(&variables(&[("POLYMARKET_PRIVATE_KEY", "k"), ("DRY_RUN", value)])).unwrap();
        assert_eq!(cfg.dry_run, dry, "{}", value);
    }
}

#[test]
fn the_private_key_is_required() {
    let e = Config::from_env(&variables(&[("TRADE_SIZE_USD", "x")])).unwrap_err();
    assert_eq!(e.fault, ConfigFault::Missing);
    assert_eq!(e.message(), "Missing required env var: POLYMARKET_PRIVATE_KEY");
}

#[test]
fn a_bad_number_is_named() {
    let e = Config::from_env(&variables(&[
        ("POLYMARKET_PRIVATE_KEY", "k"),
        ("BTC_ENTRY_BPS", "five"),
        ("LEG2_WAIT_SECS", "-1"),
    ]))
    .unwrap_err();
    assert_eq!(e.fault, ConfigFault::InvalidF64);
    assert_eq!(e.message(), "Invalid f64 for BTC_ENTRY_BPS: five");
    let e = Config::from_env(&variables(&[
        ("POLYMARKET_PRIVATE_KEY", "k"),
        ("LEG2_WAIT_SECS", "-1"),
        ("MARKET_INTERVAL_SECS", "x"),
    ]))
    .unwrap_err();
    assert_eq!(e.fault, ConfigFault::InvalidU64);
    assert_eq!(e.message(), "Invalid u64 for LEG2_WAIT_SECS: -1");
}

#[test]
fn every_numeric_variable_is_checked() {
    for key in [
        "TRADE_SIZE_USD", "BTC_ENTRY_BPS", "ETH_ENTRY_BPS", "BOOK_IMB_THRESH", "MIN_ENTRY_PRICE",
        "MAX_ENTRY_PRICE", "LEG2_WAIT_SECS", "LEG2_MIN_WAIT_SECS", "FORCE_CLOSE_SECS",
        "MAX_CONCURRENT_POSITIONS", "MAX_DAILY_LOSS_USD", "COOLDOWN_AFTER_LOSSES",
        "COOLDOWN_DURATION_SECS", "MARKET_INTERVAL_SECS",
    ] {
        let e = Config::from_env(&variables(&[("POLYMARKET_PRIVATE_KEY", "k"), (key, "?")])).unwrap_err();
        assert_eq!(e.key, key);
        assert_eq!(e.value, "?");
    }
}

#[test]
fn entry_thresholds_depend_on_the_asset() {
    let cfg = Config::from_env(&variables(&[
        ("POLYMARKET_PRIVATE_KEY", "k"),
        ("BTC_ENTRY_BPS", "4"),
        ("ETH_ENTRY_BPS", "6"),
    ]))
    .unwrap();
    assert_eq!(cfg.entry_bps_for_asset("eth"), double(6.0));
    assert_eq!(cfg.entry_bps_for_asset("ETH"), double(6.0));
    assert_eq!(cfg.entry_bps_for_asset("BTC"), double(4.0));
    assert_eq!(cfg.entry_bps_for_asset("SOL"), double(4.0));
}

#[test]
fn lists_are_split_at_commas() {
    assert_eq!(split_csv(""), Vec::<String>::new());
    assert_eq!(split_csv(" , ,"), Vec::<String>::new());
    assert_eq!(split_csv("a"), vec!["A".to_string()]);
    assert_eq!(split_csv("straße,\tb c "), vec!["STRASSE".to_string(), "B C".to_string()]);
}
