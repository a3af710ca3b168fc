//! Chainlink Data Streams.

use crate::feeds::wire;
use crate::feeds::wire::array_text;
use crate::number::binary64::Binary64;
use crate::number::reading;
use crate::utils::clock;
use crate::utils::clock::{utc_now, Timestamp};
use crate::utils::text;
use crate::utils::text::same_text;
use vstd::prelude::*;
use vstd::string::*;

verus! {

/// A price update from Chainlink Data Streams.
#[derive(Debug, Clone)]
pub struct ChainlinkPrice {
    pub asset: String,
    pub price: Binary64,
    pub timestamp: Timestamp,
}

/// A report, as the stream sends it.
#[derive(Debug)]
pub struct StreamReport {
    pub feed_id: String,
    pub benchmark_price: String,
    pub observations_timestamp: i64,
}

/// Configuration for a single Chainlink feed subscription.
#[derive(Debug)]
pub struct FeedConfig {
    pub asset: String,
    pub feed_id: String,
}

impl Clone for FeedConfig {
    fn clone(&self) -> (r: Self)
        ensures
            r == *self,
    {
        FeedConfig { asset: self.asset.clone(), feed_id: self.feed_id.clone() }
    }
}

/// A report whose price is not a number.
#[derive(Debug, Clone, Copy, PartialEq, Eq, Structural)]
pub struct InvalidPrice;

/// The asset of the first feed with that identifier.
pub open spec fn asset_of(feeds: Seq<FeedConfig>, feed_id: Seq<char>) -> Seq<char>
    decreases feeds.len(),
{
    if feeds.len() == 0 {
        "UNKNOWN"@
    } else if feeds[0].feed_id@ == feed_id {
        feeds[0].asset@
    } else {
        asset_of(feeds.drop_first(), feed_id)
    }
}

fn find_asset(feeds: &Vec<FeedConfig>, feed_id: &str) -> (r: String)
    ensures
        r@ == asset_of(feeds@, feed_id@),
{
    let mut i: usize = 0;
    assert(feeds@.skip(0) =~= feeds@);
    while i < feeds.len()
        invariant
            i <= feeds@.len(),
            asset_of(feeds@.skip(i as int), feed_id@) == asset_of(feeds@, feed_id@),
        decreases feeds@.len() - i,
    {
        if same_text(feeds[i].feed_id.as_str(), feed_id) {
            return feeds[i].asset.clone();
        }
        assert(feeds@.skip(i as int).drop_first() =~= feeds@.skip(i + 1));
        i = i + 1;
    }
    "UNKNOWN".to_owned()
}

/// Whether a price update is what a report says, at a reading of the clock.
pub open spec fn reported(
    update: ChainlinkPrice,
    report: StreamReport,
    feeds: Seq<FeedConfig>,
    now: Timestamp,
) -> bool {
    &&& update.asset@ == asset_of(feeds, report.feed_id@)
    &&& reading::read_double(report.benchmark_price@) == Some(update.price)
    &&& if clock::in_calendar(report.observations_timestamp as int) {
        update.timestamp.nanos() == report.observations_timestamp * clock::NANOS_PER_SEC
    } else {
        update.timestamp == now
    }
}

/// Whether `r` is what a message of the stream says, at a reading of the clock.
pub open spec fn update_of(
    r: Result<Option<ChainlinkPrice>, InvalidPrice>,
    report: Option<StreamReport>,
    feeds: Seq<FeedConfig>,
    now: Timestamp,
) -> bool {
    match report {
        None => r == Ok::<Option<ChainlinkPrice>, InvalidPrice>(None),
        Some(report) => {
            &&& r is Err <==> reading::read_double(report.benchmark_price@) is None
            &&& r matches Ok(update) ==> update is Some && reported(
                update->Some_0,
                report,
                feeds,
                now,
            )
        },
    }
}

/// Every report with a price that can be read gives that price, every other one an
/// error, and a message without a report nothing.
pub proof fn lemma_every_report_counts(
    r: Result<Option<ChainlinkPrice>, InvalidPrice>,
    report: Option<StreamReport>,
    feeds: Seq<FeedConfig>,
    now: Timestamp,
)
    requires
        update_of(r, report, feeds, now),
    ensures
        report is None <==> r is Ok && r->Ok_0 is None,
        report is Some && reading::read_double(report->0.benchmark_price@) is Some ==> r is Ok
            && r->Ok_0 is Some && Some(r->Ok_0->0.price) == reading::read_double(
            report->0.benchmark_price@,
        ),
        report is Some && reading::read_double(report->0.benchmark_price@) is None ==> r is Err,
{
}

/// Reads a message of the stream: the price it reports, if it holds a report.
pub fn process_message_at(
    report: Option<StreamReport>,
    feeds: &Vec<FeedConfig>,
    now: Timestamp,
) -> (r: Result<Option<ChainlinkPrice>, InvalidPrice>)
    ensures
        update_of(r, report, feeds@, now),
{
    match report {
        None => Ok(None),
        Some(report) => {
            let asset: String = find_asset(feeds, report.feed_id.as_str());
            match Binary64::parse(report.benchmark_price.as_str()) {
                None => Err(InvalidPrice),
                Some(price) => {
                    let timestamp: Timestamp = match Timestamp::from_secs(
                        report.observations_timestamp,
                    ) {
                        Some(t) => t,
                        None => now,
                    };
                    Ok(Some(ChainlinkPrice { asset, price, timestamp }))
                },
            }
        },
    }
}

/// Reads a message of the stream as it arrives.
pub fn process_message(report: Option<StreamReport>, feeds: &Vec<FeedConfig>) -> (r: Result<
    Option<ChainlinkPrice>,
    InvalidPrice,
>)
    ensures
        match report {
            None => r == Ok::<Option<ChainlinkPrice>, InvalidPrice>(None),
            Some(report) => {
                &&& r is Err <==> reading::read_double(report.benchmark_price@) is None
                &&& r matches Ok(update) ==> update is Some && exists|now: Timestamp|
                    now.valid() && reported(update->Some_0, report, feeds@, now)
            },
        },
{
    process_message_at(report, feeds, utc_now())
}

/// The address to connect to, with a key and its secret.
pub open spec fn signed_address(
    ws_url: Seq<char>,
    api_key: Seq<char>,
    api_secret: Seq<char>,
) -> Seq<char> {
    ws_url + "?api_key="@ + api_key + "&api_secret="@ + api_secret
}

/// The key stands behind its name right after the address, and the secret behind
/// its own at the end.
pub proof fn lemma_signed_address(
    ws_url: Seq<char>,
    api_key: Seq<char>,
    api_secret: Seq<char>,
)
    ensures
        ({
            let address = signed_address(ws_url, api_key, api_secret);
            let front = ws_url + "?api_key="@ + api_key;
            let back = "&api_secret="@ + api_secret;
            &&& address.take(front.len() as int) == front
            &&& address.skip(front.len() as int) == back
        }),
{
    let address = signed_address(ws_url, api_key, api_secret);
    let front = ws_url + "?api_key="@ + api_key;
    let back = "&api_secret="@ + api_secret;
    assert(address.take(front.len() as int) =~= front);
    assert(address.skip(front.len() as int) =~= back);
}

/// The address to connect to.
pub fn auth_url(ws_url: &str, api_key: &str, api_secret: &str) -> (r: String)
    ensures
        r@ == signed_address(ws_url@, api_key@, api_secret@),
{
    ws_url.to_owned().concat("?api_key=").concat(api_key).concat("&api_secret=").concat(api_secret)
}

/// The identifiers of some feeds.
pub open spec fn feed_ids(feeds: Seq<FeedConfig>) -> Seq<Seq<char>> {
    Seq::new(feeds.len(), |i: int| feeds[i].feed_id@)
}

/// The message that subscribes to feeds with these identifiers.
pub open spec fn feeds_message(ids: Seq<Seq<char>>) -> Seq<char> {
    "{\"feedIDs\":"@ + wire::json_array(ids) + ",\"type\":\"subscribe\"}"@
}

/// The identifiers are those of the feeds, one for one and in order.
pub proof fn lemma_feed_ids(feeds: Seq<FeedConfig>, i: int)
    requires
        0 <= i < feeds.len(),
    ensures
        feed_ids(feeds).len() == feeds.len(),
        feed_ids(feeds)[i] == feeds[i].feed_id@,
{
}

/// The message that subscribes to some feeds.
pub fn subscribe_text(feeds: &Vec<FeedConfig>) -> (r: String)
    ensures
        r@ == feeds_message(feed_ids(feeds@)),
{
    let mut ids: Vec<String> = Vec::new();
    let mut i: usize = 0;
    while i < feeds.len()
        invariant
            i <= feeds@.len(),
            ids@.len() == i,
            forall|j: int| 0 <= j < i ==> (#[trigger] ids@[j])@ == feeds@[j].feed_id@,
        decreases feeds@.len() - i,
    {
        ids.push(feeds[i].feed_id.clone());
        i = i + 1;
    }
    assert(text::texts(ids@) =~= feed_ids(feeds@));
    "{\"feedIDs\":".to_owned().concat(array_text(&ids).as_str()).concat(
        ",\"type\":\"subscribe\"}",
    )
}

/// A report is about the asset of the first feed with its identifier, whatever
/// feeds come after it, and about an unknown one where no feed has it.
pub proof fn lemma_asset_of_feed(feeds: Seq<FeedConfig>, feed_id: Seq<char>, i: int)
    requires
        0 <= i < feeds.len(),
        forall|j: int| 0 <= j < i ==> (#[trigger] feeds[j]).feed_id@ != feed_id,
    ensures
        feeds[i].feed_id@ == feed_id ==> asset_of(feeds, feed_id) == feeds[i].asset@,
        i == feeds.len() - 1 && feeds[i].feed_id@ != feed_id ==> asset_of(feeds, feed_id)
            == "UNKNOWN"@,
    decreases feeds.len(),
{
    if feeds[0].feed_id@ != feed_id && i > 0 {
        let rest = feeds.drop_first();
        assert forall|j: int| 0 <= j < i - 1 implies (#[trigger] rest[j]).feed_id@ != feed_id by {
            assert(feeds[j + 1].feed_id@ != feed_id);
        }
        lemma_asset_of_feed(rest, feed_id, i - 1);
    } else if i == 0 && feeds[0].feed_id@ != feed_id {
        assert(asset_of(feeds.drop_first(), feed_id) == "UNKNOWN"@ || feeds.len() > 1);
    }
}

/// An update carries the price of the report and the second of its observation,
/// and is about the asset of its feed.
pub proof fn lemma_update_in_report(
    update: ChainlinkPrice,
    report: StreamReport,
    feeds: Seq<FeedConfig>,
    now: Timestamp,
    i: int,
)
    requires
        reported(update, report, feeds, now),
        0 <= i < feeds.len(),
        forall|j: int| 0 <= j < i ==> (#[trigger] feeds[j]).feed_id@ != report.feed_id@,
        feeds[i].feed_id@ == report.feed_id@,
        0 <= report.observations_timestamp <= 4_102_444_800,
    ensures
        update.asset@ == feeds[i].asset@,
        reading::read_double(report.benchmark_price@) == Some(update.price),
        update.timestamp.nanos() == report.observations_timestamp * 1_000_000_000,
{
    lemma_asset_of_feed(feeds, report.feed_id@, i);
}

/// An observation at a second that the calendar does not reach counts as one of
/// the moment.
pub proof fn lemma_observation_out_of_calendar(
    update: ChainlinkPrice,
    report: StreamReport,
    feeds: Seq<FeedConfig>,
    now: Timestamp,
)
    requires
        reported(update, report, feeds, now),
        report.observations_timestamp > 8_210_266_876_799,
    ensures
        update.timestamp == now,
{
}

} // verus!
