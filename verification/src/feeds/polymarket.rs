//! Polymarket: order books and prices of outcome tokens.

use crate::feeds::session;
use crate::feeds::session::{Session, SessionAction, SessionEvent, SessionPolicy};
use crate::feeds::wire;
use crate::feeds::wire::array_text;
use crate::number::binary64::Binary64;
use crate::number::reading;
use crate::utils::clock::{utc_now, Timestamp};
use crate::utils::text;
use crate::utils::text::{chars_of, same_text};
use vstd::prelude::*;
use vstd::string::*;

verus! {

/// Polymarket orderbook snapshot for a token.
#[derive(Debug, Clone)]
pub struct PolyBook {
    pub token_id: String,
    pub bids: Vec<PolyLevel>,
    pub asks: Vec<PolyLevel>,
    pub timestamp: Timestamp,
}

/// A single price level in the Polymarket CLOB.
#[derive(Debug, Clone, Copy, PartialEq)]
pub struct PolyLevel {
    pub price: Binary64,
    pub size: Binary64,
}

/// A price update from Polymarket RTDS (real-time token price).
#[derive(Debug, Clone)]
pub struct PolyPrice {
    pub token_id: String,
    pub price: Binary64,
    pub timestamp: Timestamp,
}

/// Events from the Polymarket feed.
#[derive(Debug, Clone)]
pub enum PolyEvent {
    Book(PolyBook),
    Price(PolyPrice),
}

/// A message of the market channel, as the source sends it. The kind stands in
/// `event_type`.
#[derive(Debug)]
pub struct ClobWsMsg {
    pub event_type: Option<String>,
    pub market: Option<String>,
    pub asset_id: Option<String>,
    pub bids: Option<Vec<ClobLevel>>,
    pub asks: Option<Vec<ClobLevel>>,
    pub price: Option<String>,
    pub best_ask: Option<String>,
    pub price_changes: Option<Vec<PriceChangeEntry>>,
}

/// A price level, as the source sends it.
#[derive(Debug)]
pub struct ClobLevel {
    pub price: String,
    pub size: String,
}

/// A price change, as the source sends it.
#[derive(Debug)]
pub struct PriceChangeEntry {
    pub asset_id: Option<String>,
    pub price: Option<String>,
    pub best_ask: Option<String>,
}

/// A message whose price is not a number.
#[derive(Debug, Clone, Copy, PartialEq, Eq, Structural)]
pub struct InvalidPrice;

/// Whether a text holds an array of messages.
pub open spec fn batched(message: Seq<char>) -> bool {
    message.len() > 0 && message[0] == '['
}

/// An array of messages is told by its first character.
pub proof fn lemma_batched(rest: Seq<char>, first: char)
    ensures
        batched(seq!['['] + rest),
        first != '[' ==> !batched(seq![first] + rest),
        !batched(Seq::empty()),
{
}

/// Whether a text holds an array of messages: the first book snapshots arrive
/// in one.
pub fn is_batch(message: &str) -> (r: bool)
    ensures
        r == batched(message@),
{
    let chars: Vec<char> = chars_of(message);
    chars.len() > 0 && chars[0] == '['
}

/// The kind of a message. A snapshot that names none is told by its levels.
pub open spec fn kind_of(msg: ClobWsMsg) -> Seq<char> {
    match msg.event_type {
        Some(kind) => kind@,
        None => if msg.bids is Some || msg.asks is Some {
            "book"@
        } else {
            ""@
        },
    }
}

/// The token that a message is about.
pub open spec fn token_of(msg: ClobWsMsg) -> Seq<char> {
    match msg.asset_id {
        Some(id) => id@,
        None => match msg.market {
            Some(id) => id@,
            None => ""@,
        },
    }
}

/// A level, if both its numbers can be read.
pub open spec fn read_level(entry: ClobLevel) -> Option<PolyLevel> {
    match (reading::read_double(entry.price@), reading::read_double(entry.size@)) {
        (Some(price), Some(size)) => Some(PolyLevel { price, size }),
        _ => None,
    }
}

/// The levels that can be read, in order.
pub open spec fn read_levels(entries: Seq<ClobLevel>) -> Seq<PolyLevel>
    decreases entries.len(),
{
    if entries.len() == 0 {
        Seq::empty()
    } else {
        match read_level(entries.last()) {
            Some(level) => read_levels(entries.drop_last()).push(level),
            None => read_levels(entries.drop_last()),
        }
    }
}

pub open spec fn side_levels(side: Option<Vec<ClobLevel>>) -> Seq<PolyLevel> {
    match side {
        Some(entries) => read_levels(entries@),
        None => Seq::empty(),
    }
}

/// A number, if it is there and can be read.
pub open spec fn optional_number(text: Option<String>) -> Option<Binary64> {
    match text {
        Some(text) => reading::read_double(text@),
        None => None,
    }
}

/// The token and the price of a price change: the best ask if it is given, else
/// the price. None where the token is missing or the number cannot be read.
pub open spec fn change_of(entry: PriceChangeEntry) -> Option<(Seq<char>, Binary64)> {
    match entry.asset_id {
        Some(id) => if id@ == ""@ {
            None
        } else {
            match optional_number(
                if entry.best_ask is Some {
                    entry.best_ask
                } else {
                    entry.price
                },
            ) {
                Some(price) => Some((id@, price)),
                None => None,
            }
        },
        None => None,
    }
}

/// The tokens and prices of some price changes, in order.
pub open spec fn changes(entries: Seq<PriceChangeEntry>) -> Seq<(Seq<char>, Binary64)>
    decreases entries.len(),
{
    if entries.len() == 0 {
        Seq::empty()
    } else {
        match change_of(entries.last()) {
            Some(change) => changes(entries.drop_last()).push(change),
            None => changes(entries.drop_last()),
        }
    }
}

/// The tokens and prices that a message other than a book reports.
pub open spec fn prices_of(msg: ClobWsMsg) -> Seq<(Seq<char>, Binary64)> {
    if kind_of(msg) == "last_trade_price"@ {
        match optional_number(msg.price) {
            Some(price) => seq![(token_of(msg), price)],
            None => Seq::empty(),
        }
    } else if kind_of(msg) == "best_bid_ask"@ {
        match optional_number(msg.best_ask) {
            Some(price) => seq![(token_of(msg), price)],
            None => Seq::empty(),
        }
    } else if kind_of(msg) == "price_change"@ {
        match msg.price_changes {
            Some(entries) => changes(entries@),
            None => Seq::empty(),
        }
    } else {
        Seq::empty()
    }
}

/// Whether an event reports the price of a token.
pub open spec fn is_price(
    event: PolyEvent,
    token_id: Seq<char>,
    price: Binary64,
    now: Timestamp,
) -> bool {
    event matches PolyEvent::Price(p) && p.token_id@ == token_id && p.price == price && p.timestamp
        == now
}

/// Whether some events report these tokens and prices, in order.
pub open spec fn price_events(
    events: Seq<PolyEvent>,
    prices: Seq<(Seq<char>, Binary64)>,
    now: Timestamp,
) -> bool {
    &&& events.len() == prices.len()
    &&& forall|i: int|
        0 <= i < events.len() ==> is_price(#[trigger] events[i], prices[i].0, prices[i].1, now)
}

/// Whether some events are what a message says, at a reading of the clock.
pub open spec fn events_of(events: Seq<PolyEvent>, msg: ClobWsMsg, now: Timestamp) -> bool {
    if kind_of(msg) == "book"@ {
        &&& events.len() == 1
        &&& events[0] matches PolyEvent::Book(book) && book.token_id@ == token_of(msg) && book.bids@
            == side_levels(msg.bids) && book.asks@ == side_levels(msg.asks) && book.timestamp
            == now
    } else {
        price_events(events, prices_of(msg), now)
    }
}

fn parse_levels(side: &Option<Vec<ClobLevel>>) -> (r: Vec<PolyLevel>)
    ensures
        r@ == side_levels(*side),
{
    let mut out: Vec<PolyLevel> = Vec::new();
    match side {
        None => {
            assert(out@ =~= side_levels(*side));
            out
        },
        Some(entries) => {
            let mut i: usize = 0;
            assert(entries@.take(0) =~= Seq::<ClobLevel>::empty());
            while i < entries.len()
                invariant
                    i <= entries@.len(),
                    out@ == read_levels(entries@.take(i as int)),
                decreases entries@.len() - i,
            {
                assert(entries@.take(i + 1).drop_last() =~= entries@.take(i as int));
                let price: Option<Binary64> = Binary64::parse(entries[i].price.as_str());
                let size: Option<Binary64> = Binary64::parse(entries[i].size.as_str());
                if let Some(price) = price {
                    if let Some(size) = size {
                        out.push(PolyLevel { price, size });
                    }
                }
                i = i + 1;
            }
            assert(entries@.take(i as int) =~= entries@);
            out
        },
    }
}

fn parse_optional(text: &Option<String>) -> (r: Option<Binary64>)
    ensures
        r == optional_number(*text),
{
    match text {
        Some(text) => Binary64::parse(text.as_str()),
        None => None,
    }
}

fn message_kind(msg: &ClobWsMsg) -> (r: String)
    ensures
        r@ == kind_of(*msg),
{
    match &msg.event_type {
        Some(kind) => kind.clone(),
        None => if msg.bids.is_some() || msg.asks.is_some() {
            "book".to_owned()
        } else {
            "".to_owned()
        },
    }
}

fn message_token(msg: &ClobWsMsg) -> (r: String)
    ensures
        r@ == token_of(*msg),
{
    match &msg.asset_id {
        Some(id) => id.clone(),
        None => match &msg.market {
            Some(id) => id.clone(),
            None => "".to_owned(),
        },
    }
}

fn push_changes(out: &mut Vec<PolyEvent>, entries: &Vec<PriceChangeEntry>, now: Timestamp)
    requires
        old(out)@.len() == 0,
    ensures
        price_events(final(out)@, changes(entries@), now),
{
    let mut i: usize = 0;
    assert(entries@.take(0) =~= Seq::<PriceChangeEntry>::empty());
    while i < entries.len()
        invariant
            i <= entries@.len(),
            price_events(out@, changes(entries@.take(i as int)), now),
        decreases entries@.len() - i,
    {
        assert(entries@.take(i + 1).drop_last() =~= entries@.take(i as int));
        assert(entries@.take(i + 1).last() == entries@[i as int]);
        let entry: &PriceChangeEntry = &entries[i];
        i = i + 1;
        let token_id: String = match &entry.asset_id {
            Some(id) => id.clone(),
            None => {
                continue ;
            },
        };
        if same_text(token_id.as_str(), "") {
            continue ;
        }
        let price: Option<Binary64> = if entry.best_ask.is_some() {
            parse_optional(&entry.best_ask)
        } else {
            parse_optional(&entry.price)
        };
        if let Some(price) = price {
            out.push(PolyEvent::Price(PolyPrice { token_id, price, timestamp: now }));
        }
    }
    assert(entries@.take(i as int) =~= entries@);
}

/// The events of one message of the market channel.
pub fn process_single_clob_msg_at(msg: &ClobWsMsg, now: Timestamp) -> (r: Vec<PolyEvent>)
    ensures
        events_of(r@, *msg, now),
{
    let kind: String = message_kind(msg);
    let mut out: Vec<PolyEvent> = Vec::new();
    if same_text(kind.as_str(), "book") {
        let bids: Vec<PolyLevel> = parse_levels(&msg.bids);
        let asks: Vec<PolyLevel> = parse_levels(&msg.asks);
        out.push(
            PolyEvent::Book(
                PolyBook { token_id: message_token(msg), bids, asks, timestamp: now },
            ),
        );
    } else if same_text(kind.as_str(), "last_trade_price") {
        if let Some(price) = parse_optional(&msg.price) {
            out.push(
                PolyEvent::Price(
                    PolyPrice { token_id: message_token(msg), price, timestamp: now },
                ),
            );
        }
    } else if same_text(kind.as_str(), "best_bid_ask") {
        if let Some(price) = parse_optional(&msg.best_ask) {
            out.push(
                PolyEvent::Price(
                    PolyPrice { token_id: message_token(msg), price, timestamp: now },
                ),
            );
        }
    } else if same_text(kind.as_str(), "price_change") {
        if let Some(entries) = &msg.price_changes {
            push_changes(&mut out, entries, now);
        }
    }
    out
}

/// The events of one message of the market channel as it arrives.
pub fn process_single_clob_msg(msg: &ClobWsMsg) -> (r: Vec<PolyEvent>)
    ensures
        exists|now: Timestamp| now.valid() && events_of(r@, *msg, now),
{
    let now: Timestamp = utc_now();
    let r = process_single_clob_msg_at(msg, now);
    assert(now.valid() && events_of(r@, *msg, now));
    r
}

/// Whether an outcome is what a message of the price channel says, at a reading
/// of the clock.
pub open spec fn update_of(
    r: Result<Option<PolyPrice>, InvalidPrice>,
    msg: ClobWsMsg,
    now: Timestamp,
) -> bool {
    match msg.price {
        None => r == Ok::<Option<PolyPrice>, InvalidPrice>(None),
        Some(price) => {
            &&& r is Err <==> reading::read_double(price@) is None
            &&& r matches Ok(update) ==> update is Some && update->Some_0.token_id@
                == match msg.asset_id {
                Some(id) => id@,
                None => ""@,
            } && reading::read_double(price@) == Some(update->Some_0.price)
                && update->Some_0.timestamp == now
        },
    }
}

/// The price of a message of the price channel, if it holds one.
pub fn process_rtds_message_at(msg: &ClobWsMsg, now: Timestamp) -> (r: Result<
    Option<PolyPrice>,
    InvalidPrice,
>)
    ensures
        update_of(r, *msg, now),
{
    match &msg.price {
        None => Ok(None),
        Some(price) => {
            let token_id: String = match &msg.asset_id {
                Some(id) => id.clone(),
                None => "".to_owned(),
            };
            match Binary64::parse(price.as_str()) {
                Some(price) => Ok(Some(PolyPrice { token_id, price, timestamp: now })),
                None => Err(InvalidPrice),
            }
        },
    }
}

/// The message that subscribes to the books of some tokens.
pub open spec fn books_message(tokens: Seq<Seq<char>>) -> Seq<char> {
    "{\"assets_ids\":"@ + wire::json_array(tokens)
        + ",\"custom_feature_enabled\":true,\"type\":\"market\"}"@
}

/// The message that subscribes to the books of some tokens.
pub fn market_subscription(token_ids: &Vec<String>) -> (r: String)
    ensures
        r@ == books_message(text::texts(token_ids@)),
{
    "{\"assets_ids\":".to_owned().concat(array_text(token_ids).as_str()).concat(
        ",\"custom_feature_enabled\":true,\"type\":\"market\"}",
    )
}

/// The message that subscribes to the prices of some tokens.
pub open spec fn prices_message(tokens: Seq<Seq<char>>) -> Seq<char> {
    "{\"assets_ids\":"@ + wire::json_array(tokens)
        + ",\"channel\":\"prices\",\"type\":\"subscribe\"}"@
}

/// The message that subscribes to the prices of some tokens.
pub fn price_subscription(token_ids: &Vec<String>) -> (r: String)
    ensures
        r@ == prices_message(text::texts(token_ids@)),
{
    "{\"assets_ids\":".to_owned().concat(array_text(token_ids).as_str()).concat(
        ",\"channel\":\"prices\",\"type\":\"subscribe\"}",
    )
}

/// On every connection the first message subscribes to the books of all tokens
/// at once: those of the start and all that were added since, in order. It goes
/// out before anything is read, a ping is due every ten seconds, and a broken
/// connection is made again after three.
pub proof fn lemma_subscribes_to_all_tokens(
    states: Seq<Session>,
    actions: Seq<SessionAction>,
    events: Seq<SessionEvent>,
    i: int,
)
    requires
        session::is_run(states, actions, events),
        states[0].policy == SessionPolicy::of_poly_clob(),
        states[0].topics is Tokens,
        0 <= i < events.len(),
        events[i] is Connected,
    ensures
        actions[i + 1] is Subscribe,
        text::texts(actions[i + 1]->Subscribe_messages@) == seq![
            books_message(states[0].topics.listed() + session::all_added(events.take(i))),
        ],
        states[i].policy.heartbeat_secs == Some(10u64),
        states[i].policy.reconnect_secs == 3,
{
    session::lemma_topics_are_kept(states, actions, events, i);
    assert(Session::follows(states[i], events[i], states[i + 1], actions[i + 1]));
}

/// Whether both numbers of a level can be read.
pub open spec fn readable(entry: ClobLevel) -> bool {
    reading::read_double(entry.price@) is Some && reading::read_double(entry.size@) is Some
}

/// Whether all levels of a side can be read.
pub open spec fn all_readable(entries: Seq<ClobLevel>) -> bool {
    forall|i: int| 0 <= i < entries.len() ==> readable(#[trigger] entries[i])
}

/// Whether a level holds the numbers of an entry.
pub open spec fn holds(level: PolyLevel, entry: ClobLevel) -> bool {
    &&& reading::read_double(entry.price@) == Some(level.price)
    &&& reading::read_double(entry.size@) == Some(level.size)
}

/// Whether levels are the entries of a message, one for one and in order.
pub open spec fn in_message_order(levels: Seq<PolyLevel>, entries: Seq<ClobLevel>) -> bool {
    &&& levels.len() == entries.len()
    &&& forall|i: int| 0 <= i < levels.len() ==> holds(#[trigger] levels[i], entries[i])
}

proof fn lemma_reads_in_order(entries: Seq<ClobLevel>)
    requires
        all_readable(entries),
    ensures
        in_message_order(read_levels(entries), entries),
    decreases entries.len(),
{
    if entries.len() > 0 {
        let rest = entries.drop_last();
        assert forall|i: int| 0 <= i < rest.len() implies readable(#[trigger] rest[i]) by {
            assert(readable(entries[i]));
        }
        lemma_reads_in_order(rest);
        assert(readable(entries[entries.len() - 1]));
        let levels = read_levels(entries);
        assert forall|i: int| 0 <= i < levels.len() implies holds(#[trigger] levels[i], entries[i]) by {
            if i < rest.len() {
                assert(holds(read_levels(rest)[i], rest[i]));
            }
        }
    }
}

proof fn lemma_read_levels_join(a: Seq<ClobLevel>, b: Seq<ClobLevel>)
    ensures
        read_levels(a + b) == read_levels(a) + read_levels(b),
    decreases b.len(),
{
    if b.len() == 0 {
        assert(a + b =~= a);
        assert(read_levels(a) + read_levels(b) =~= read_levels(a));
    } else {
        assert((a + b).drop_last() =~= a + b.drop_last());
        lemma_read_levels_join(a, b.drop_last());
        assert(read_levels(a + b) =~= read_levels(a) + read_levels(b));
    }
}

/// Whether a message is an order book: it says so, or says nothing and holds
/// levels.
pub open spec fn says_book(msg: ClobWsMsg) -> bool {
    match msg.event_type {
        Some(kind) => kind@ == "book"@,
        None => msg.bids is Some || msg.asks is Some,
    }
}

/// An order book gives one event, which holds the levels of the message in the
/// order of the message: where the levels of a side can all be read, the i-th
/// level of that side is its i-th entry, for the asks as for the bids. A side
/// that is missing is empty.
pub proof fn lemma_book_in_message_order(
    events: Seq<PolyEvent>,
    msg: ClobWsMsg,
    now: Timestamp,
)
    requires
        events_of(events, msg, now),
        says_book(msg),
    ensures
        events.len() == 1,
        events[0] is Book,
        ({
            let book = events[0]->Book_0;
            &&& book.timestamp == now
            &&& msg.asset_id is Some ==> book.token_id@ == msg.asset_id->0@
            &&& msg.asset_id is None && msg.market is Some ==> book.token_id@ == msg.market->0@
            &&& msg.asset_id is None && msg.market is None ==> book.token_id@.len() == 0
            &&& msg.bids is None ==> book.bids@.len() == 0
            &&& msg.asks is None ==> book.asks@.len() == 0
            &&& msg.bids is Some && all_readable(msg.bids->0@) ==> in_message_order(
                book.bids@,
                msg.bids->0@,
            )
            &&& msg.asks is Some && all_readable(msg.asks->0@) ==> in_message_order(
                book.asks@,
                msg.asks->0@,
            )
        }),
{
    reveal_strlit("");
    if msg.bids is Some && all_readable(msg.bids->0@) {
        lemma_reads_in_order(msg.bids->0@);
    }
    if msg.asks is Some && all_readable(msg.asks->0@) {
        lemma_reads_in_order(msg.asks->0@);
    }
}

/// A level that cannot be read is left out, and the others stay in their places
/// before and after it.
pub proof fn lemma_unreadable_level_is_left_out(
    side: Vec<ClobLevel>,
    before: Seq<ClobLevel>,
    entry: ClobLevel,
    after: Seq<ClobLevel>,
)
    requires
        side@ == before.push(entry) + after,
        !readable(entry),
        all_readable(before),
        all_readable(after),
    ensures
        in_message_order(side_levels(Some(side)), before + after),
{
    lemma_read_levels_join(before.push(entry), after);
    assert(before.push(entry).drop_last() =~= before);
    assert(read_levels(before.push(entry)) == read_levels(before));
    lemma_reads_in_order(before);
    lemma_reads_in_order(after);
    let levels = read_levels(before) + read_levels(after);
    let entries = before + after;
    assert forall|i: int| 0 <= i < levels.len() implies holds(#[trigger] levels[i], entries[i]) by {
        if i < before.len() {
            assert(holds(read_levels(before)[i], before[i]));
        } else {
            assert(holds(read_levels(after)[i - before.len()], after[i - before.len()]));
        }
    }
}

proof fn lemma_kinds_differ()
    ensures
        "book"@ != "last_trade_price"@,
        "book"@ != "best_bid_ask"@,
        "book"@ != "price_change"@,
        "last_trade_price"@ != "best_bid_ask"@,
        "last_trade_price"@ != "price_change"@,
        "best_bid_ask"@ != "price_change"@,
        ""@ != "book"@,
        ""@.len() == 0,
{
    reveal_strlit("book");
    reveal_strlit("last_trade_price");
    reveal_strlit("best_bid_ask");
    reveal_strlit("price_change");
    reveal_strlit("");
    assert("best_bid_ask"@[0] != "price_change"@[0]);
    assert("last_trade_price"@[0] != "price_change"@[0]);
    assert("last_trade_price"@[0] != "best_bid_ask"@[0]);
    assert("book"@.len() == 4 && "best_bid_ask"@.len() == 12);
}

/// A trade gives the price of the trade and a best pair the ask of it, for the
/// token of the message, where the number is there and can be read; else there is
/// no event.
pub proof fn lemma_single_price(
    events: Seq<PolyEvent>,
    msg: ClobWsMsg,
    now: Timestamp,
    price: Binary64,
)
    requires
        events_of(events, msg, now),
        msg.event_type is Some,
        ({
            let text = if msg.event_type->0@ == "last_trade_price"@ {
                msg.price
            } else {
                msg.best_ask
            };
            &&& msg.event_type->0@ == "last_trade_price"@ || msg.event_type->0@ == "best_bid_ask"@
            &&& text is Some
            &&& reading::read_double(text->0@) == Some(price)
        }),
    ensures
        events.len() == 1,
        events[0] is Price,
        events[0]->Price_0.price == price,
        events[0]->Price_0.timestamp == now,
        msg.asset_id is Some ==> events[0]->Price_0.token_id@ == msg.asset_id->0@,
        msg.asset_id is None && msg.market is Some ==> events[0]->Price_0.token_id@
            == msg.market->0@,
{
    lemma_kinds_differ();
    assert(is_price(events[0], prices_of(msg)[0].0, prices_of(msg)[0].1, now));
}

/// Messages of no known kind, and prices that are missing or cannot be read, give
/// no event.
pub proof fn lemma_no_price_no_event(events: Seq<PolyEvent>, msg: ClobWsMsg, now: Timestamp)
    requires
        events_of(events, msg, now),
        ({
            let kind = msg.event_type->0@;
            ||| msg.event_type is None && msg.bids is None && msg.asks is None
            ||| msg.event_type is Some && kind != "book"@ && kind != "last_trade_price"@ && kind
                != "best_bid_ask"@ && kind != "price_change"@
            ||| msg.event_type is Some && kind == "last_trade_price"@ && (msg.price is None
                || reading::read_double(msg.price->0@) is None)
            ||| msg.event_type is Some && kind == "best_bid_ask"@ && (msg.best_ask is None
                || reading::read_double(msg.best_ask->0@) is None)
            ||| msg.event_type is Some && kind == "price_change"@ && msg.price_changes is None
        }),
    ensures
        events.len() == 0,
{
    lemma_kinds_differ();
    reveal_strlit("");
    reveal_strlit("last_trade_price");
    reveal_strlit("best_bid_ask");
    reveal_strlit("price_change");
}

/// Whether a change names a token and has a price: its best ask where that is
/// given, and else its own price.
pub open spec fn gives_price(
    entry: PriceChangeEntry,
    token: Seq<char>,
    price: Binary64,
) -> bool {
    &&& entry.asset_id is Some && entry.asset_id->0@ == token
    &&& token.len() > 0
    &&& entry.best_ask is Some ==> reading::read_double(entry.best_ask->0@) == Some(price)
    &&& entry.best_ask is None ==> entry.price is Some && reading::read_double(entry.price->0@)
        == Some(price)
}

/// Price changes that all give a price come out one for one, in the order of the
/// message, each with its own token.
pub proof fn lemma_changes_in_message_order(
    events: Seq<PolyEvent>,
    msg: ClobWsMsg,
    now: Timestamp,
    tokens: Seq<Seq<char>>,
    prices: Seq<Binary64>,
)
    requires
        events_of(events, msg, now),
        msg.event_type is Some,
        msg.event_type->0@ == "price_change"@,
        msg.price_changes is Some,
        msg.price_changes->0@.len() == tokens.len() == prices.len(),
        forall|i: int|
            0 <= i < tokens.len() ==> gives_price(
                #[trigger] msg.price_changes->0@[i],
                tokens[i],
                prices[i],
            ),
    ensures
        events.len() == tokens.len(),
        forall|i: int|
            0 <= i < tokens.len() ==> is_price(#[trigger] events[i], tokens[i], prices[i], now),
{
    lemma_kinds_differ();
    lemma_changes_read(msg.price_changes->0@, tokens, prices);
}

proof fn lemma_changes_read(
    entries: Seq<PriceChangeEntry>,
    tokens: Seq<Seq<char>>,
    prices: Seq<Binary64>,
)
    requires
        entries.len() == tokens.len() == prices.len(),
        forall|i: int|
            0 <= i < tokens.len() ==> gives_price(#[trigger] entries[i], tokens[i], prices[i]),
    ensures
        changes(entries).len() == entries.len(),
        forall|i: int|
            0 <= i < entries.len() ==> #[trigger] changes(entries)[i] == (tokens[i], prices[i]),
    decreases entries.len(),
{
    if entries.len() > 0 {
        let rest = entries.drop_last();
        assert forall|i: int| 0 <= i < rest.len() implies gives_price(
            #[trigger] rest[i],
            tokens.drop_last()[i],
            prices.drop_last()[i],
        ) by {
            assert(gives_price(entries[i], tokens[i], prices[i]));
        }
        lemma_changes_read(rest, tokens.drop_last(), prices.drop_last());
        let n = entries.len() - 1;
        assert(gives_price(entries[n], tokens[n], prices[n]));
        lemma_kinds_differ();
        assert forall|i: int| 0 <= i < entries.len() implies #[trigger] changes(entries)[i] == (
            tokens[i],
            prices[i],
        ) by {
            if i < n {
                assert(changes(rest)[i] == (tokens.drop_last()[i], prices.drop_last()[i]));
            }
        }
    }
}

/// A change that gives no price, for want of a token or of a number that can be
/// read, is left out, and the others stay in their places.
pub proof fn lemma_change_without_price_is_left_out(
    before: Seq<PriceChangeEntry>,
    entry: PriceChangeEntry,
    after: Seq<PriceChangeEntry>,
)
    requires
        forall|token: Seq<char>, price: Binary64| !(#[trigger] gives_price(entry, token, price)),
    ensures
        changes(before.push(entry) + after) == changes(before) + changes(after),
    decreases after.len(),
{
    if after.len() == 0 {
        assert(before.push(entry) + after =~= before.push(entry));
        assert(before.push(entry).drop_last() =~= before);
        assert(change_of(entry) is None) by {
            lemma_kinds_differ();
            if change_of(entry) is Some {
                let change = change_of(entry)->0;
                assert(change.0.len() > 0) by {
                    if change.0.len() == 0 {
                        assert(change.0 =~= ""@);
                    }
                }
                assert(gives_price(entry, change.0, change.1));
            }
        }
        assert(changes(before) + changes(after) =~= changes(before));
    } else {
        let rest = after.drop_last();
        lemma_change_without_price_is_left_out(before, entry, rest);
        assert((before.push(entry) + after).drop_last() =~= before.push(entry) + rest);
        assert(changes(before.push(entry) + after) =~= changes(before) + changes(after));
    }
}

/// The price channel gives the price of the message for its token at the time of
/// arrival, says so where the number cannot be read, and is silent on messages
/// without a price.
pub proof fn lemma_update_in_message(
    r: Result<Option<PolyPrice>, InvalidPrice>,
    msg: ClobWsMsg,
    now: Timestamp,
)
    requires
        update_of(r, msg, now),
    ensures
        msg.price is None ==> r == Ok::<Option<PolyPrice>, InvalidPrice>(None),
        msg.price is Some && reading::read_double(msg.price->0@) is None ==> r is Err,
        msg.price is Some && reading::read_double(msg.price->0@) is Some ==> {
            &&& r is Ok && r->Ok_0 is Some
            &&& r->Ok_0->0.price == reading::read_double(msg.price->0@)->0
            &&& r->Ok_0->0.timestamp == now
            &&& msg.asset_id is Some ==> r->Ok_0->0.token_id@ == msg.asset_id->0@
        },
{
}

} // verus!
