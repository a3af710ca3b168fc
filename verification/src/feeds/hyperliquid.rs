//! Hyperliquid: order books and trades.

use crate::feeds::session;
use crate::feeds::session::{Session, SessionAction, SessionEvent, SessionPolicy};
use crate::feeds::wire;
use crate::feeds::wire::string_text;
use crate::number::binary64::Binary64;
use crate::number::reading;
use crate::utils::clock;
use crate::utils::clock::{signed, utc_now, Timestamp};
use crate::utils::text;
use crate::utils::text::same_text;
use vstd::prelude::*;
use vstd::string::*;

verus! {

/// A level-2 orderbook snapshot from Hyperliquid.
#[derive(Debug, Clone)]
pub struct HlBookSnapshot {
    pub asset: String,
    pub bids: Vec<PriceLevel>,
    pub asks: Vec<PriceLevel>,
    pub timestamp: Timestamp,
}

/// A single price level (price, size).
#[derive(Debug, Clone, Copy, PartialEq)]
pub struct PriceLevel {
    pub price: Binary64,
    pub size: Binary64,
}

/// A trade event from Hyperliquid.
#[derive(Debug, Clone)]
pub struct HlTrade {
    pub asset: String,
    pub price: Binary64,
    pub size: Binary64,
    pub side: TradeSide,
    pub timestamp: Timestamp,
}

#[derive(Debug, Clone, Copy, PartialEq, Eq, Structural)]
pub enum TradeSide {
    Buy,
    Sell,
}

/// Events emitted by the Hyperliquid feed.
#[derive(Debug, Clone)]
pub enum HlEvent {
    Book(HlBookSnapshot),
    Trade(HlTrade),
}

/// An order book, as the source sends it.
#[derive(Debug)]
pub struct L2BookData {
    pub coin: String,
    pub levels: Vec<Vec<LevelEntry>>,
    pub time: Option<u64>,
}

/// A price level, as the source sends it.
#[derive(Debug)]
pub struct LevelEntry {
    pub px: String,
    pub sz: String,
}

/// A trade, as the source sends it.
#[derive(Debug)]
pub struct TradeEntry {
    pub coin: String,
    pub px: String,
    pub sz: String,
    pub side: String,
    pub time: u64,
}

/// What a message is about.
#[derive(Debug, Clone, Copy, PartialEq, Eq, Structural)]
pub enum HlChannel {
    Book,
    Trades,
    Other,
}

/// What a message holds.
#[derive(Debug)]
pub enum HlPayload {
    Book(L2BookData),
    Trades(Vec<TradeEntry>),
    /// Nothing of interest, or nothing that can be read.
    Nothing,
}

/// The channel of a name.
pub open spec fn channel_named(name: Option<Seq<char>>) -> HlChannel {
    match name {
        Some(name) => if name == "l2Book"@ {
            HlChannel::Book
        } else if name == "trades"@ {
            HlChannel::Trades
        } else {
            HlChannel::Other
        },
        None => HlChannel::Other,
    }
}

/// Books and trades have a channel each, and no other name is either.
pub proof fn lemma_channels(name: Seq<char>)
    ensures
        channel_named(Some(name)) is Book <==> name == "l2Book"@,
        channel_named(Some(name)) is Trades <==> name == "trades"@,
        channel_named(None) is Other,
{
    reveal_strlit("l2Book");
    reveal_strlit("trades");
    assert("l2Book"@[0] != "trades"@[0]);
}

/// The channel that a message names.
pub fn channel_of(channel: Option<&str>) -> (r: HlChannel)
    ensures
        r == match channel {
            Some(name) => channel_named(Some(name@)),
            None => channel_named(None),
        },
{
    match channel {
        Some(name) => if same_text(name, "l2Book") {
            HlChannel::Book
        } else if same_text(name, "trades") {
            HlChannel::Trades
        } else {
            HlChannel::Other
        },
        None => HlChannel::Other,
    }
}

/// A level, if both its numbers can be read.
pub open spec fn read_level(entry: LevelEntry) -> Option<PriceLevel> {
    match (reading::read_double(entry.px@), reading::read_double(entry.sz@)) {
        (Some(price), Some(size)) => Some(PriceLevel { price, size }),
        _ => None,
    }
}

/// The levels that can be read, in order.
pub open spec fn read_levels(entries: Seq<LevelEntry>) -> Seq<PriceLevel>
    decreases entries.len(),
{
    if entries.len() == 0 {
        Seq::empty()
    } else {
        match read_level(entries.last()) {
            Some(level) => read_levels(entries.drop_last()).push(level),
            None => read_levels(entries.drop_last()),
        }
    }
}

fn parse_levels(entries: &Vec<LevelEntry>) -> (r: Vec<PriceLevel>)
    ensures
        r@ == read_levels(entries@),
{
    let mut out: Vec<PriceLevel> = Vec::new();
    let mut i: usize = 0;
    assert(entries@.take(0) =~= Seq::<LevelEntry>::empty());
    while i < entries.len()
        invariant
            i <= entries@.len(),
            out@ == read_levels(entries@.take(i as int)),
        decreases entries@.len() - i,
    {
        assert(entries@.take(i + 1).drop_last() =~= entries@.take(i as int));
        let price: Option<Binary64> = Binary64::parse(entries[i].px.as_str());
        let size: Option<Binary64> = Binary64::parse(entries[i].sz.as_str());
        if let Some(price) = price {
            if let Some(size) = size {
                out.push(PriceLevel { price, size });
            }
        }
        i = i + 1;
    }
    assert(entries@.take(i as int) =~= entries@);
    out
}

/// The levels of one side of a book: none where the side is missing.
pub open spec fn side_levels(levels: Seq<Vec<LevelEntry>>, side: int) -> Seq<PriceLevel> {
    if side < levels.len() {
        read_levels(levels[side]@)
    } else {
        Seq::empty()
    }
}

/// Whether a point is the one that a count of milliseconds names, or else `now`.
pub open spec fn stamped(t: Timestamp, millis: Option<u64>, now: Timestamp) -> bool {
    match millis {
        Some(ms) => if clock::in_calendar(clock::as_signed(ms) / 1000) {
            t.nanos() == clock::as_signed(ms) * 1_000_000
        } else {
            t == now
        },
        None => t == now,
    }
}

fn stamp(millis: Option<u64>, now: Timestamp) -> (r: Timestamp)
    ensures
        stamped(r, millis, now),
{
    match millis {
        Some(ms) => match Timestamp::from_millis(signed(ms)) {
            Some(t) => t,
            None => now,
        },
        None => now,
    }
}

/// Whether a snapshot is what the source sent, at a reading of the clock.
pub open spec fn book_of(r: HlBookSnapshot, book: L2BookData, now: Timestamp) -> bool {
    &&& r.asset == book.coin
    &&& r.bids@ == side_levels(book.levels@, 0)
    &&& r.asks@ == side_levels(book.levels@, 1)
    &&& stamped(r.timestamp, book.time, now)
}

/// Reads an order book: bids first, then asks.
pub fn parse_book_snapshot_at(book: L2BookData, now: Timestamp) -> (r: HlBookSnapshot)
    ensures
        book_of(r, book, now),
{
    let timestamp: Timestamp = stamp(book.time, now);
    let bids: Vec<PriceLevel> = if book.levels.len() > 0 {
        parse_levels(&book.levels[0])
    } else {
        Vec::new()
    };
    let asks: Vec<PriceLevel> = if book.levels.len() > 1 {
        parse_levels(&book.levels[1])
    } else {
        Vec::new()
    };
    assert(book.levels@.len() == 0 ==> bids@ =~= side_levels(book.levels@, 0));
    assert(book.levels@.len() <= 1 ==> asks@ =~= side_levels(book.levels@, 1));
    HlBookSnapshot { asset: book.coin, bids, asks, timestamp }
}

pub fn parse_book_snapshot(book: L2BookData) -> (r: HlBookSnapshot)
    ensures
        exists|now: Timestamp| now.valid() && book_of(r, book, now),
{
    let now: Timestamp = utc_now();
    let r = parse_book_snapshot_at(book, now);
    assert(now.valid() && book_of(r, book, now));
    r
}

/// A number, or zero where it cannot be read.
pub open spec fn number_or_zero(text: Seq<char>) -> Binary64 {
    match reading::read_double(text) {
        Some(x) => x,
        None => Binary64::nothing(),
    }
}

fn parse_or_zero(text: &str) -> (r: Binary64)
    ensures
        r == number_or_zero(text@),
{
    match Binary64::parse(text) {
        Some(x) => x,
        None => Binary64::zero(),
    }
}

/// Whether a trade is what the source sent, at a reading of the clock.
pub open spec fn trade_of(r: HlTrade, entry: TradeEntry, now: Timestamp) -> bool {
    &&& r.asset == entry.coin
    &&& r.price == number_or_zero(entry.px@)
    &&& r.size == number_or_zero(entry.sz@)
    &&& r.side == if entry.side@ == "B"@ {
        TradeSide::Buy
    } else {
        TradeSide::Sell
    }
    &&& stamped(r.timestamp, Some(entry.time), now)
}

/// Reads a trade.
pub fn parse_trade_at(entry: TradeEntry, now: Timestamp) -> (r: HlTrade)
    ensures
        trade_of(r, entry, now),
{
    let timestamp: Timestamp = stamp(Some(entry.time), now);
    let price: Binary64 = parse_or_zero(entry.px.as_str());
    let size: Binary64 = parse_or_zero(entry.sz.as_str());
    let side: TradeSide = if same_text(entry.side.as_str(), "B") {
        TradeSide::Buy
    } else {
        TradeSide::Sell
    };
    HlTrade { asset: entry.coin, price, size, side, timestamp }
}

pub fn parse_trade(entry: TradeEntry) -> (r: HlTrade)
    ensures
        exists|now: Timestamp| now.valid() && trade_of(r, entry, now),
{
    let now: Timestamp = utc_now();
    let r = parse_trade_at(entry, now);
    assert(now.valid() && trade_of(r, entry, now));
    r
}

/// Whether an event is the trade that the source sent.
pub open spec fn is_trade(event: HlEvent, entry: TradeEntry, now: Timestamp) -> bool {
    event matches HlEvent::Trade(trade) && trade_of(trade, entry, now)
}

/// Whether some events are what a message holds, in order.
pub open spec fn events_of(events: Seq<HlEvent>, payload: HlPayload, now: Timestamp) -> bool {
    match payload {
        HlPayload::Book(book) => {
            &&& events.len() == 1
            &&& events[0] matches HlEvent::Book(snapshot) && book_of(snapshot, book, now)
        },
        HlPayload::Trades(entries) => {
            &&& events.len() == entries@.len()
            &&& forall|i: int|
                0 <= i < events.len() ==> is_trade(#[trigger] events[i], entries@[i], now)
        },
        HlPayload::Nothing => events.len() == 0,
    }
}

/// The events of a message.
pub fn process_hl_message_at(payload: HlPayload, now: Timestamp) -> (r: Vec<HlEvent>)
    ensures
        events_of(r@, payload, now),
{
    let mut out: Vec<HlEvent> = Vec::new();
    match payload {
        HlPayload::Book(book) => {
            out.push(HlEvent::Book(parse_book_snapshot_at(book, now)));
        },
        HlPayload::Trades(entries) => {
            let mut rest: Vec<TradeEntry> = entries;
            let ghost all = rest@;
            let count: usize = rest.len();
            let mut reversed: Vec<HlTrade> = Vec::new();
            while rest.len() > 0
                invariant
                    rest@.len() + reversed@.len() == count == all.len(),
                    rest@ == all.take(rest@.len() as int),
                    forall|j: int|
                        0 <= j < reversed@.len() ==> trade_of(
                            #[trigger] reversed@[j],
                            all[count - 1 - j],
                            now,
                        ),
                decreases rest@.len(),
            {
                let ghost before = rest@;
                if let Some(entry) = rest.pop() {
                    assert(rest@ =~= all.take(rest@.len() as int));
                    assert(entry == all[count - 1 - reversed@.len()]);
                    reversed.push(parse_trade_at(entry, now));
                }
            }
            while reversed.len() > 0
                invariant
                    out@.len() + reversed@.len() == count == all.len(),
                    forall|j: int|
                        0 <= j < reversed@.len() ==> trade_of(
                            #[trigger] reversed@[j],
                            all[count - 1 - j],
                            now,
                        ),
                    forall|i: int|
                        0 <= i < out@.len() ==> is_trade(#[trigger] out@[i], all[i], now),
                decreases reversed@.len(),
            {
                if let Some(trade) = reversed.pop() {
                    assert(trade_of(trade, all[out@.len() as int], now));
                    out.push(HlEvent::Trade(trade));
                }
            }
        },
        HlPayload::Nothing => {},
    }
    out
}

/// What to subscribe to for an asset.
pub open spec fn subscription(kind: Seq<char>, asset: Seq<char>) -> Seq<char> {
    "{\"method\":\"subscribe\",\"subscription\":{\"coin\":"@ + wire::json_string(asset)
        + ",\"type\":\""@ + kind + "\"}}"@
}

/// The message that subscribes to the order book of an asset.
pub fn book_subscription(asset: &str) -> (r: String)
    ensures
        r@ == subscription("l2Book"@, asset@),
{
    subscription_text("l2Book", asset)
}

/// The message that subscribes to the trades of an asset.
pub fn trades_subscription(asset: &str) -> (r: String)
    ensures
        r@ == subscription("trades"@, asset@),
{
    subscription_text("trades", asset)
}

fn subscription_text(kind: &str, asset: &str) -> (r: String)
    ensures
        r@ == subscription(kind@, asset@),
{
    "{\"method\":\"subscribe\",\"subscription\":{\"coin\":".to_owned().concat(
        string_text(asset).as_str(),
    ).concat(",\"type\":\"").concat(kind).concat("\"}}")
}

/// The messages that subscribe to the book and to the trades of each asset, in
/// order.
pub open spec fn all_subscriptions(assets: Seq<Seq<char>>) -> Seq<Seq<char>>
    decreases assets.len(),
{
    if assets.len() == 0 {
        Seq::empty()
    } else {
        all_subscriptions(assets.drop_last()).push(subscription("l2Book"@, assets.last())).push(
            subscription("trades"@, assets.last()),
        )
    }
}

/// The messages are two for each asset: its book, then its trades.
pub proof fn lemma_two_for_each(assets: Seq<Seq<char>>, i: int)
    requires
        0 <= i < assets.len(),
    ensures
        all_subscriptions(assets).len() == 2 * assets.len(),
        all_subscriptions(assets)[2 * i] == subscription("l2Book"@, assets[i]),
        all_subscriptions(assets)[2 * i + 1] == subscription("trades"@, assets[i]),
    decreases assets.len(),
{
    lemma_subscription_count(assets.drop_last());
    if i < assets.len() - 1 {
        lemma_two_for_each(assets.drop_last(), i);
    }
}

proof fn lemma_subscription_count(assets: Seq<Seq<char>>)
    ensures
        all_subscriptions(assets).len() == 2 * assets.len(),
    decreases assets.len(),
{
    if assets.len() > 0 {
        lemma_subscription_count(assets.drop_last());
    }
}

/// The messages that subscribe to the book and to the trades of each asset, in
/// order.
pub fn subscriptions(assets: &Vec<String>) -> (r: Vec<String>)
    ensures
        r@.len() == 2 * assets@.len(),
        text::texts(r@) == all_subscriptions(text::texts(assets@)),
        forall|i: int|
            0 <= i < assets@.len() ==> (#[trigger] r@[2 * i])@ == subscription(
                "l2Book"@,
                assets@[i]@,
            ),
        forall|i: int|
            0 <= i < assets@.len() ==> (#[trigger] r@[2 * i + 1])@ == subscription(
                "trades"@,
                assets@[i]@,
            ),
{
    let ghost all = text::texts(assets@);
    let mut out: Vec<String> = Vec::new();
    let mut i: usize = 0;
    assert(all.take(0) =~= Seq::<Seq<char>>::empty());
    assert(text::texts(out@) =~= Seq::<Seq<char>>::empty());
    while i < assets.len()
        invariant
            i <= assets@.len(),
            all == text::texts(assets@),
            text::texts(out@) == all_subscriptions(all.take(i as int)),
        decreases assets@.len() - i,
    {
        let ghost had = out@;
        assert(all.take(i + 1).drop_last() =~= all.take(i as int));
        assert(all.take(i + 1).last() == assets@[i as int]@);
        out.push(book_subscription(assets[i].as_str()));
        out.push(trades_subscription(assets[i].as_str()));
        assert(text::texts(out@) =~= text::texts(had).push(
            subscription("l2Book"@, assets@[i as int]@),
        ).push(subscription("trades"@, assets@[i as int]@)));
        i = i + 1;
    }
    assert(all.take(i as int) =~= all);
    proof {
        lemma_subscription_count(all);
        assert forall|i: int| 0 <= i < assets@.len() implies (#[trigger] out@[2 * i])@
            == subscription("l2Book"@, assets@[i]@) by {
            lemma_two_for_each(all, i);
            assert(text::texts(out@)[2 * i] == out@[2 * i]@);
        }
        assert forall|i: int| 0 <= i < assets@.len() implies (#[trigger] out@[2 * i + 1])@
            == subscription("trades"@, assets@[i]@) by {
            lemma_two_for_each(all, i);
            assert(text::texts(out@)[2 * i + 1] == out@[2 * i + 1]@);
        }
    }
    out
}

/// On every connection the book and the trades of each asset are subscribed to,
/// in order, before anything is read; a broken connection is made again after
/// three seconds.
pub proof fn lemma_subscribes_to_all_assets(
    assets: Seq<Seq<char>>,
    states: Seq<Session>,
    actions: Seq<SessionAction>,
    events: Seq<SessionEvent>,
    i: int,
)
    requires
        session::is_run(states, actions, events),
        states[0].policy == SessionPolicy::of_hyperliquid(),
        states[0].topics is Messages,
        states[0].topics.listed() == all_subscriptions(assets),
        0 <= i < events.len(),
        events[i] is Connected,
    ensures
        actions[i + 1] is Subscribe,
        text::texts(actions[i + 1]->Subscribe_messages@) == all_subscriptions(assets),
        actions[i + 1]->Subscribe_messages@.len() == 2 * assets.len(),
        states[i].policy.reconnect_secs == 3,
{
    session::lemma_topics_are_kept(states, actions, events, i);
    assert(Session::follows(states[i], events[i], states[i + 1], actions[i + 1]));
    lemma_subscription_count(assets);
    assert(text::texts(actions[i + 1]->Subscribe_messages@).len() == 2 * assets.len());
}

/// Whether both numbers of a level can be read.
pub open spec fn readable(entry: LevelEntry) -> bool {
    reading::read_double(entry.px@) is Some && reading::read_double(entry.sz@) is Some
}

/// Whether all levels of a side can be read.
pub open spec fn all_readable(entries: Seq<LevelEntry>) -> bool {
    forall|i: int| 0 <= i < entries.len() ==> readable(#[trigger] entries[i])
}

/// Whether a level holds the numbers of an entry.
pub open spec fn holds(level: PriceLevel, entry: LevelEntry) -> bool {
    &&& reading::read_double(entry.px@) == Some(level.price)
    &&& reading::read_double(entry.sz@) == Some(level.size)
}

/// Whether levels are the entries of a message, one for one and in order.
pub open spec fn in_message_order(levels: Seq<PriceLevel>, entries: Seq<LevelEntry>) -> bool {
    &&& levels.len() == entries.len()
    &&& forall|i: int| 0 <= i < levels.len() ==> holds(#[trigger] levels[i], entries[i])
}

proof fn lemma_reads_in_order(entries: Seq<LevelEntry>)
    requires
        all_readable(entries),
    ensures
        in_message_order(read_levels(entries), entries),
    decreases entries.len(),
{
    if entries.len() > 0 {
        let rest = entries.drop_last();
        assert forall|i: int| 0 <= i < rest.len() implies readable(#[trigger] rest[i]) by {
            assert(readable(entries[i]));
        }
        lemma_reads_in_order(rest);
        assert(readable(entries[entries.len() - 1]));
        let levels = read_levels(entries);
        assert forall|i: int| 0 <= i < levels.len() implies holds(#[trigger] levels[i], entries[i]) by {
            if i < rest.len() {
                assert(holds(read_levels(rest)[i], rest[i]));
            }
        }
    }
}

proof fn lemma_read_levels_join(a: Seq<LevelEntry>, b: Seq<LevelEntry>)
    ensures
        read_levels(a + b) == read_levels(a) + read_levels(b),
    decreases b.len(),
{
    if b.len() == 0 {
        assert(a + b =~= a);
        assert(read_levels(a) + read_levels(b) =~= read_levels(a));
    } else {
        assert((a + b).drop_last() =~= a + b.drop_last());
        lemma_read_levels_join(a, b.drop_last());
        assert(read_levels(a + b) =~= read_levels(a) + read_levels(b));
    }
}

/// A snapshot holds the levels of the message in the order of the message: where
/// the levels of a side can all be read, the i-th level of that side is its i-th
/// entry, for the asks, which come second, as for the bids, which come first. So
/// the first level of either side is the first of the message.
pub proof fn lemma_snapshot_in_message_order(r: HlBookSnapshot, book: L2BookData, now: Timestamp)
    requires
        book_of(r, book, now),
    ensures
        r.asset == book.coin,
        book.levels@.len() > 0 && all_readable(book.levels@[0]@) ==> in_message_order(
            r.bids@,
            book.levels@[0]@,
        ),
        book.levels@.len() > 1 && all_readable(book.levels@[1]@) ==> in_message_order(
            r.asks@,
            book.levels@[1]@,
        ),
        book.levels@.len() == 0 ==> r.bids@.len() == 0,
        book.levels@.len() <= 1 ==> r.asks@.len() == 0,
        book.levels@.len() > 0 && all_readable(book.levels@[0]@) && book.levels@[0]@.len() > 0
            ==> holds(r.bids@[0], book.levels@[0]@[0]),
        book.levels@.len() > 1 && all_readable(book.levels@[1]@) && book.levels@[1]@.len() > 0
            ==> holds(r.asks@[0], book.levels@[1]@[0]),
{
    if book.levels@.len() > 0 && all_readable(book.levels@[0]@) {
        lemma_reads_in_order(book.levels@[0]@);
        assert(book.levels@[0]@.len() > 0 ==> holds(r.bids@[0], book.levels@[0]@[0]));
    }
    if book.levels@.len() > 1 && all_readable(book.levels@[1]@) {
        lemma_reads_in_order(book.levels@[1]@);
        assert(book.levels@[1]@.len() > 0 ==> holds(r.asks@[0], book.levels@[1]@[0]));
    }
}

/// A level that cannot be read is left out, on either side, and the others stay
/// in their places before and after it.
pub proof fn lemma_unreadable_level_is_left_out(
    r: HlBookSnapshot,
    book: L2BookData,
    now: Timestamp,
    side: int,
    before: Seq<LevelEntry>,
    entry: LevelEntry,
    after: Seq<LevelEntry>,
)
    requires
        book_of(r, book, now),
        side == 0 || side == 1,
        side < book.levels@.len(),
        book.levels@[side]@ == before.push(entry) + after,
        !readable(entry),
        all_readable(before),
        all_readable(after),
    ensures
        in_message_order(if side == 0 { r.bids@ } else { r.asks@ }, before + after),
{
    lemma_read_levels_join(before.push(entry), after);
    assert(before.push(entry).drop_last() =~= before);
    assert(read_levels(before.push(entry)) == read_levels(before));
    lemma_reads_in_order(before);
    lemma_reads_in_order(after);
    let levels = read_levels(before) + read_levels(after);
    let entries = before + after;
    assert forall|i: int| 0 <= i < levels.len() implies holds(#[trigger] levels[i], entries[i]) by {
        if i < before.len() {
            assert(holds(read_levels(before)[i], before[i]));
        } else {
            assert(holds(read_levels(after)[i - before.len()], after[i - before.len()]));
        }
    }
}

/// A snapshot carries the time of the message, counted in milliseconds, and else
/// the time of its arrival; so does a trade.
pub proof fn lemma_time_of_message(
    r: HlBookSnapshot,
    book: L2BookData,
    trade: HlTrade,
    entry: TradeEntry,
    now: Timestamp,
    millis: u64,
)
    requires
        book_of(r, book, now),
        trade_of(trade, entry, now),
        millis <= 4_102_444_800_000,
    ensures
        book.time == Some(millis) ==> r.timestamp.nanos() == millis * 1_000_000,
        book.time is None ==> r.timestamp == now,
        entry.time == millis ==> trade.timestamp.nanos() == millis * 1_000_000,
{
}

/// A time that the calendar does not reach is replaced by the time of arrival.
pub proof fn lemma_time_out_of_calendar(
    r: HlBookSnapshot,
    book: L2BookData,
    trade: HlTrade,
    entry: TradeEntry,
    now: Timestamp,
    millis: u64,
)
    requires
        book_of(r, book, now),
        trade_of(trade, entry, now),
        8_210_266_876_800_000 <= millis <= 0x7FFF_FFFF_FFFF_FFFF,
    ensures
        book.time == Some(millis) ==> r.timestamp == now,
        entry.time == millis ==> trade.timestamp == now,
{
}

/// A trade holds the numbers of the message, and is a purchase where the message
/// says `B` and a sale where it says anything else.
pub proof fn lemma_trade_in_message(trade: HlTrade, entry: TradeEntry, now: Timestamp)
    requires
        trade_of(trade, entry, now),
    ensures
        trade.asset == entry.coin,
        reading::read_double(entry.px@) is Some ==> reading::read_double(entry.px@) == Some(
            trade.price,
        ),
        reading::read_double(entry.sz@) is Some ==> reading::read_double(entry.sz@) == Some(
            trade.size,
        ),
        reading::read_double(entry.px@) is None ==> trade.price == Binary64::nothing(),
        reading::read_double(entry.sz@) is None ==> trade.size == Binary64::nothing(),
        entry.side@ == "B"@ <==> trade.side is Buy,
        entry.side@ == "A"@ ==> trade.side is Sell,
{
    reveal_strlit("A");
    reveal_strlit("B");
    if entry.side@ == "A"@ {
        assert("A"@[0] != "B"@[0]);
    }
}

/// Trades come out one for one, in the order of the message.
pub proof fn lemma_trades_in_message_order(
    events: Seq<HlEvent>,
    entries: Vec<TradeEntry>,
    now: Timestamp,
    i: int,
)
    requires
        events_of(events, HlPayload::Trades(entries), now),
        0 <= i < entries@.len(),
    ensures
        events.len() == entries@.len(),
        events[i] is Trade,
        trade_of(events[i]->Trade_0, entries@[i], now),
{
    assert(is_trade(events[i], entries@[i], now));
}

} // verus!
