use polymarket_bot::feeds::chainlink;
use polymarket_bot::feeds::chainlink::{FeedConfig, StreamReport};
use polymarket_bot::feeds::hyperliquid;
use polymarket_bot::feeds::hyperliquid::{
    HlChannel, HlEvent, HlPayload, L2BookData, LevelEntry, TradeEntry, TradeSide,
};
use polymarket_bot::feeds::polymarket;
use polymarket_bot::feeds::polymarket::{ClobLevel, ClobWsMsg, PolyEvent, PriceChangeEntry};
use polymarket_bot::feeds::session::{
    Session, SessionAction, SessionEvent, SessionPhase, SessionPolicy, Topics,
};
use polymarket_bot::feeds::wire;
use polymarket_bot::number::binary64::Binary64;
use polymarket_bot::utils::clock::Timestamp;

fn double(x: f64) -> Binary64 {
    Binary64::from_bits(x.to_bits())
}

fn at(secs: i64) -> Timestamp {
    Timestamp::from_parts(secs, 0).unwrap()
}

fn some(s: &str) -> Option<String> {
    Some(s.to_string())
}

fn feeds() -> Vec<FeedConfig> {
    vec![
        FeedConfig { asset: "BTC".to_string(), feed_id: "0x1".to_string() },
        FeedConfig { asset: "ETH".to_string(), feed_id: "0x2".to_string() },
        FeedConfig { asset: "LATE".to_string(), feed_id: "0x2".to_string() },
    ]
}

fn report(feed_id: &str, price: &str, secs: i64) -> Option<StreamReport> {
    Some(StreamReport {
        feed_id: feed_id.to_string(),
        benchmark_price: price.to_string(),
        observations_timestamp: secs,
    })
}

#[test]
fn a_report_names_its_asset_and_price() {
    let update = chainlink::process_message_at(report("0x2", "3012.25", 1_700_000_000), &feeds(), at(5))
        .unwrap()
        .unwrap();
    assert_eq!(update.asset, "ETH");
    assert_eq!(update.price, double(3012.25));
    assert_eq!(update.timestamp, at(1_700_000_000));
}

#[test]
fn an_unknown_feed_is_called_unknown() {
    let update = chainlink::process_message_at(report("0x9", "1", i64::MAX), &feeds(), at(5)).unwrap().unwrap();
    assert_eq!(update.asset, "UNKNOWN");
    assert_eq!(update.timestamp, at(5));
}

#[test]
fn a_report_without_a_number_is_refused() {
    assert!(chainlink::process_message(report("0x1", "12,5", 0), &feeds()).is_err());
    assert!(chainlink::process_message(None, &feeds()).unwrap().is_none());
    assert!(chainlink::process_message(report("0x1", "12.5", 0), &feeds()).unwrap().is_some());
}

#[test]
fn chainlink_texts() {
    assert_eq!(chainlink::auth_url("wss://x", "k", "s"), "wss://x?api_key=k&api_secret=s");
    assert_eq!(
        chainlink::subscribe_text(&feeds()),
        "{\"feedIDs\":[\"0x1\",\"0x2\",\"0x2\"],\"type\":\"subscribe\"}"
    );
}

#[test]
fn json_texts_are_those_of_serde_json() {
    let ids = vec!["1".to_string(), "a\"b\\c\n".to_string(), "\u{e9}\u{1}".to_string()];
    let mut map = serde_json::Map::new();
    map.insert("assets_ids".to_string(), serde_json::Value::from(ids.clone()));
    map.insert("type".to_string(), serde_json::Value::from("market"));
    map.insert("custom_feature_enabled".to_string(), serde_json::Value::from(true));
    let text = polymarket::market_subscription(&ids);
    let parsed: serde_json::Value = serde_json::from_str(&text).unwrap();
    assert_eq!(parsed, serde_json::Value::Object(map));
    assert_eq!(wire::array_text(&ids), serde_json::to_string(&ids).unwrap());
    assert_eq!(wire::array_text(&Vec::new()), "[]");
    assert_eq!(wire::string_text("a\tb"), "\"a\\tb\"");
}

#[test]
fn polymarket_subscriptions() {
    let ids = vec!["1".to_string(), "2".to_string()];
    assert_eq!(
        polymarket::market_subscription(&ids),
        "{\"assets_ids\":[\"1\",\"2\"],\"custom_feature_enabled\":true,\"type\":\"market\"}"
    );
    assert_eq!(
        polymarket::price_subscription(&ids),
        "{\"assets_ids\":[\"1\",\"2\"],\"channel\":\"prices\",\"type\":\"subscribe\"}"
    );
}

#[test]
fn hyperliquid_subscriptions() {
    assert_eq!(
        hyperliquid::book_subscription("BTC"),
        "{\"method\":\"subscribe\",\"subscription\":{\"coin\":\"BTC\",\"type\":\"l2Book\"}}"
    );
    assert_eq!(
        hyperliquid::trades_subscription("ETH"),
        "{\"method\":\"subscribe\",\"subscription\":{\"coin\":\"ETH\",\"type\":\"trades\"}}"
    );
}

#[test]
fn channels_are_told_by_name() {
    assert_eq!(hyperliquid::channel_of(Some("l2Book")), HlChannel::Book);
    assert_eq!(hyperliquid::channel_of(Some("trades")), HlChannel::Trades);
    assert_eq!(hyperliquid::channel_of(Some("pong")), HlChannel::Other);
    assert_eq!(hyperliquid::channel_of(None), HlChannel::Other);
}

fn entry(px: &str, sz: &str) -> LevelEntry {
    LevelEntry { px: px.to_string(), sz: sz.to_string() }
}

#[test]
fn a_book_keeps_the_levels_that_can_be_read() {
    let book = L2BookData {
        coin: "BTC".to_string(),
        levels: vec![
            vec![entry("100.5", "2"), entry("bad", "1"), entry("99", "x"), entry("98", "3e-1")],
            vec![entry("101", "1")],
        ],
        time: Some(1_700_000_000_123),
    };
    let snapshot = hyperliquid::parse_book_snapshot_at(book, at(7));
    assert_eq!(snapshot.asset, "BTC");
    assert_eq!(snapshot.bids.len(), 2);
    assert_eq!(snapshot.bids[0].price, double(100.5));
    assert_eq!(snapshot.bids[1].size, double(0.3));
    assert_eq!(snapshot.asks.len(), 1);
    assert_eq!(snapshot.timestamp, Timestamp::from_parts(1_700_000_000, 123_000_000).unwrap());
}

#[test]
fn a_book_without_time_or_sides_is_empty_and_now() {
    let book = L2BookData { coin: "BTC".to_string(), levels: Vec::new(), time: None };
    let snapshot = hyperliquid::parse_book_snapshot_at(book, at(7));
    assert!(snapshot.bids.is_empty() && snapshot.asks.is_empty());
    assert_eq!(snapshot.timestamp, at(7));
    let book = L2BookData { coin: "BTC".to_string(), levels: Vec::new(), time: Some(u64::MAX / 2) };
    assert_eq!(hyperliquid::parse_book_snapshot_at(book, at(7)).timestamp, at(7));
    let book = L2BookData { coin: "BTC".to_string(), levels: Vec::new(), time: Some(u64::MAX) };
    let before = hyperliquid::parse_book_snapshot(book).timestamp;
    assert_eq!(before, Timestamp::from_parts(-1, 999_000_000).unwrap());
}

fn trade(px: &str, side: &str, time: u64) -> TradeEntry {
    TradeEntry {
        coin: "ETH".to_string(),
        px: px.to_string(),
        sz: "2".to_string(),
        side: side.to_string(),
        time,
    }
}

#[test]
fn trades_keep_their_order() {
    let payload = HlPayload::Trades(vec![trade("10", "B", 1000), trade("?", "A", 2000), trade("12", "b", 3000)]);
    let events = hyperliquid::process_hl_message_at(payload, at(7));
    assert_eq!(events.len(), 3);
    let expected = [(10.0, TradeSide::Buy, 1), (0.0, TradeSide::Sell, 2), (12.0, TradeSide::Sell, 3)];
    for (event, (price, side, secs)) in events.iter().zip(expected) {
        match event {
            HlEvent::Trade(t) => {
                assert_eq!(t.price, double(price));
                assert_eq!(t.side, side);
                assert_eq!(t.timestamp, at(secs));
            }
            HlEvent::Book(_) => panic!("not a trade"),
        }
    }
    assert!(hyperliquid::process_hl_message_at(HlPayload::Nothing, at(7)).is_empty());
    assert_eq!(hyperliquid::parse_trade(trade("3", "B", 4000)).timestamp, at(4));
}

#[test]
fn a_book_message_is_one_event() {
    let book = L2BookData { coin: "BTC".to_string(), levels: Vec::new(), time: None };
    let events = hyperliquid::process_hl_message_at(HlPayload::Book(book), at(7));
    assert!(matches!(&events[..], [HlEvent::Book(b)] if b.asset == "BTC"));
}

fn message() -> ClobWsMsg {
    ClobWsMsg {
        event_type: None,
        market: None,
        asset_id: None,
        bids: None,
        asks: None,
        price: None,
        best_ask: None,
        price_changes: None,
    }
}

fn level(price: &str, size: &str) -> ClobLevel {
    ClobLevel { price: price.to_string(), size: size.to_string() }
}

#[test]
fn batches_start_with_a_bracket() {
    assert!(polymarket::is_batch("[{}]"));
    assert!(!polymarket::is_batch("{}"));
    assert!(!polymarket::is_batch(" [{}]"));
    assert!(!polymarket::is_batch(""));
}

#[test]
fn a_snapshot_without_a_kind_is_a_book() {
    let mut msg = message();
    msg.market = some("m");
    msg.asks = Some(vec![level("0.5", "10"), level("no", "1")]);
    let events = polymarket::process_single_clob_msg_at(&msg, at(3));
    match &events[..] {
        [PolyEvent::Book(book)] => {
            assert_eq!(book.token_id, "m");
            assert!(book.bids.is_empty());
            assert_eq!(book.asks.len(), 1);
            assert_eq!(book.asks[0].price, double(0.5));
            assert_eq!(book.timestamp, at(3));
        }
        _ => panic!("not a book"),
    }
    msg.asset_id = some("t");
    let events = polymarket::process_single_clob_msg(&msg);
    assert!(matches!(&events[..], [PolyEvent::Book(b)] if b.token_id == "t"));
}

#[test]
fn an_empty_message_says_nothing() {
    assert!(polymarket::process_single_clob_msg_at(&message(), at(3)).is_empty());
    let mut msg = message();
    msg.event_type = some("tick_size_change");
    msg.price = some("0.5");
    assert!(polymarket::process_single_clob_msg_at(&msg, at(3)).is_empty());
}

fn prices(events: &[PolyEvent]) -> Vec<(String, Binary64)> {
    events
        .iter()
        .map(|e| match e {
            PolyEvent::Price(p) => (p.token_id.clone(), p.price),
            PolyEvent::Book(_) => panic!("not a price"),
        })
        .collect()
}

#[test]
fn trades_and_quotes_report_prices() {
    let mut msg = message();
    msg.event_type = some("last_trade_price");
    msg.asset_id = some("t");
    msg.price = some("0.61");
    msg.best_ask = some("0.62");
    assert_eq!(prices(&polymarket::process_single_clob_msg_at(&msg, at(3))), vec![("t".to_string(), double(0.61))]);
    msg.event_type = some("best_bid_ask");
    assert_eq!(prices(&polymarket::process_single_clob_msg_at(&msg, at(3))), vec![("t".to_string(), double(0.62))]);
    msg.best_ask = some("none");
    assert!(polymarket::process_single_clob_msg_at(&msg, at(3)).is_empty());
    msg.event_type = some("last_trade_price");
    msg.price = None;
    assert!(polymarket::process_single_clob_msg_at(&msg, at(3)).is_empty());
}

fn change(asset_id: Option<String>, price: Option<String>, best_ask: Option<String>) -> PriceChangeEntry {
    PriceChangeEntry { asset_id, price, best_ask }
}

#[test]
fn price_changes_prefer_the_best_ask() {
    let mut msg = message();
    msg.event_type = some("price_change");
    msg.price_changes = Some(vec![
        change(some("a"), some("0.1"), some("0.2")),
        change(some("b"), some("0.3"), None),
        change(some("c"), some("0.4"), some("?")),
        change(some(""), some("0.5"), None),
        change(None, some("0.6"), None),
        change(some("d"), None, None),
        change(some("e"), None, some("0.7")),
    ]);
    assert_eq!(
        prices(&polymarket::process_single_clob_msg_at(&msg, at(3))),
        vec![
            ("a".to_string(), double(0.2)),
            ("b".to_string(), double(0.3)),
            ("e".to_string(), double(0.7)),
        ]
    );
    msg.price_changes = None;
    assert!(polymarket::process_single_clob_msg_at(&msg, at(3)).is_empty());
}

#[test]
fn rtds_messages() {
    let mut msg = message();
    assert!(polymarket::process_rtds_message_at(&msg, at(3)).unwrap().is_none());
    msg.price = some("0.25");
    msg.market = some("m");
    let update = polymarket::process_rtds_message_at(&msg, at(3)).unwrap().unwrap();
    assert_eq!(update.token_id, "");
    assert_eq!(update.price, double(0.25));
    msg.asset_id = some("t");
    assert_eq!(polymarket::process_rtds_message_at(&msg, at(3)).unwrap().unwrap().token_id, "t");
    msg.price = some("1/4");
    assert!(polymarket::process_rtds_message_at(&msg, at(3)).is_err());
}

fn messages(texts: &[&str]) -> Topics {
    Topics::Messages(texts.iter().map(|t| t.to_string()).collect())
}

fn subscribe(texts: &[&str]) -> SessionAction {
    SessionAction::Subscribe { messages: texts.iter().map(|t| t.to_string()).collect() }
}

#[test]
fn a_broken_session_connects_again() {
    let (mut session, action) = Session::start(SessionPolicy::poly_clob(), messages(&["a", "b"]));
    assert_eq!(action, SessionAction::Connect);
    assert_eq!(session.step(SessionEvent::Connected), subscribe(&["a", "b"]));
    assert_eq!(session.step(SessionEvent::SubscribeFailed), SessionAction::Read);
    assert_eq!(session.step(SessionEvent::Text), SessionAction::Process);
    let data = vec![1, 2, 3];
    assert_eq!(
        session.step(SessionEvent::Ping { data: data.clone() }),
        SessionAction::SendPong { data }
    );
    assert_eq!(session.step(SessionEvent::PingDue), SessionAction::SendPing);
    assert_eq!(session.step(SessionEvent::Pong), SessionAction::Read);
    assert_eq!(session.step(SessionEvent::Binary), SessionAction::Read);
    let tokens = vec!["7".to_string()];
    assert_eq!(session.step(SessionEvent::NewTokens { tokens }), SessionAction::Read);
    assert_eq!(session.phase, SessionPhase::Reading);
    for event in [
        SessionEvent::PingFailed,
        SessionEvent::Closed,
        SessionEvent::ReadFailed,
        SessionEvent::Ended,
        SessionEvent::ConnectFailed,
    ] {
        assert_eq!(session.step(event), SessionAction::Sleep { secs: 3 });
        assert_eq!(session.phase, SessionPhase::Waiting);
        assert_eq!(session.step(SessionEvent::WaitOver), SessionAction::Connect);
        assert_eq!(session.phase, SessionPhase::Connecting);
        assert_eq!(session.step(SessionEvent::Connected), subscribe(&["a", "b"]));
    }
}

#[test]
fn tokens_are_subscribed_to_again_on_a_new_connection() {
    let policy = SessionPolicy::poly_clob();
    assert_eq!(policy.heartbeat_secs, Some(10));
    let (mut session, _) = Session::start(policy, Topics::Tokens(vec!["1".to_string()]));
    let list = |items: &[&str]| -> Vec<String> { items.iter().map(|t| t.to_string()).collect() };
    let all = |items: &[&str]| polymarket::market_subscription(&list(items));
    assert_eq!(session.step(SessionEvent::Connected), subscribe(&[&all(&["1"])]));
    session.step(SessionEvent::Subscribed);
    assert_eq!(
        session.step(SessionEvent::NewTokens { tokens: list(&["2", "3"]) }),
        SessionAction::SendText { message: all(&["2", "3"]) }
    );
    session.step(SessionEvent::Closed);
    session.step(SessionEvent::WaitOver);
    assert_eq!(session.step(SessionEvent::Connected), subscribe(&[&all(&["1", "2", "3"])]));
}

#[test]
fn each_asset_has_two_subscriptions() {
    let assets = vec!["BTC".to_string(), "ETH".to_string()];
    assert_eq!(
        hyperliquid::subscriptions(&assets),
        vec![
            hyperliquid::book_subscription("BTC"),
            hyperliquid::trades_subscription("BTC"),
            hyperliquid::book_subscription("ETH"),
            hyperliquid::trades_subscription("ETH"),
        ]
    );
    assert!(hyperliquid::subscriptions(&Vec::new()).is_empty());
}

#[test]
fn failed_subscriptions_are_waited_out_where_they_matter() {
    for (policy, reconnect) in [(SessionPolicy::chainlink(), 3), (SessionPolicy::poly_rtds(), 5)] {
        let (mut session, _) = Session::start(policy, messages(&["a"]));
        session.step(SessionEvent::Connected);
        assert_eq!(session.step(SessionEvent::SubscribeFailed), SessionAction::Sleep { secs: 5 });
        session.step(SessionEvent::WaitOver);
        session.step(SessionEvent::Connected);
        assert_eq!(session.step(SessionEvent::Subscribed), SessionAction::Read);
        assert_eq!(session.step(SessionEvent::Closed), SessionAction::Sleep { secs: reconnect });
    }
    let (mut session, _) = Session::start(SessionPolicy::hyperliquid(), messages(&["a"]));
    session.step(SessionEvent::Connected);
    assert_eq!(session.step(SessionEvent::SubscribeFailed), SessionAction::Read);
    assert_eq!(session.step(SessionEvent::Ended), SessionAction::Sleep { secs: 3 });
}
