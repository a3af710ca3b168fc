//! Settings, read from environment variables.

use crate::number::binary64::Binary64;
use crate::number::reading;
use crate::utils::name_map::NameMap;
use crate::utils::text;
use crate::utils::text::{chars_of, read_whole_number, same_text, trim_range};
use vstd::prelude::*;
use vstd::string::*;

verus! {

/// The settings of the bot.
#[derive(Debug, Clone)]
pub struct Config {
    // Polymarket
    pub polymarket_private_key: String,
    pub polymarket_funder_address: Option<String>,
    pub polymarket_clob_url: String,
    pub polymarket_gamma_url: String,
    pub polymarket_ws_url: String,
    pub polymarket_rtds_url: String,
    // Chainlink
    pub chainlink_ws_url: String,
    pub chainlink_api_key: String,
    pub chainlink_api_secret: String,
    pub chainlink_btc_feed_id: String,
    pub chainlink_eth_feed_id: String,
    // Hyperliquid
    pub hyperliquid_ws_url: String,
    pub hyperliquid_assets: Vec<String>,
    // Strategy
    pub trade_size_usd: Binary64,
    pub btc_entry_bps: Binary64,
    pub eth_entry_bps: Binary64,
    pub book_imb_thresh: Binary64,
    pub min_entry_price: Binary64,
    pub max_entry_price: Binary64,
    pub leg2_wait_secs: u64,
    pub leg2_min_wait_secs: u64,
    pub force_close_secs: u64,
    // Risk
    pub max_concurrent_positions: usize,
    pub max_daily_loss_usd: Binary64,
    pub cooldown_after_losses: u32,
    pub cooldown_duration_secs: u64,
    // General
    pub log_level: String,
    pub dry_run: bool,
    pub assets: Vec<String>,
    pub market_interval_secs: u64,
}

/// What is wrong with a variable.
#[derive(Debug, Clone, Copy, PartialEq, Eq, Structural)]
pub enum ConfigFault {
    Missing,
    InvalidF64,
    InvalidU64,
}

/// A variable that the settings cannot be read from.
#[derive(Debug)]
pub struct ConfigError {
    pub fault: ConfigFault,
    pub key: String,
    /// What the variable holds; empty where it is missing.
    pub value: String,
}

pub type Variables = Map<Seq<char>, String>;

/// The text of a variable, or the default where it is not set.
pub open spec fn text_setting(vars: Variables, key: Seq<char>, default: Seq<char>) -> Seq<char> {
    if vars.contains_key(key) {
        vars[key]@
    } else {
        default
    }
}

/// The number that a variable holds, or the default where it is not set.
pub open spec fn double_setting(vars: Variables, key: Seq<char>, default: Binary64) -> Option<
    Binary64,
> {
    if vars.contains_key(key) {
        reading::read_double(vars[key]@)
    } else {
        Some(default)
    }
}

/// The whole number that a variable holds, or the default where it is not set.
pub open spec fn whole_setting(vars: Variables, key: Seq<char>, default: u64) -> Option<u64> {
    if vars.contains_key(key) {
        text::whole_number(vars[key]@)
    } else {
        Some(default)
    }
}

/// The items among some parts: trimmed and in capitals, without empty ones.
pub open spec fn items(parts: Seq<Seq<char>>) -> Seq<Seq<char>>
    decreases parts.len(),
{
    if parts.len() == 0 {
        Seq::empty()
    } else {
        let item = text::uppercase(text::trimmed(parts.last()));
        if item.len() == 0 {
            items(parts.drop_last())
        } else {
            items(parts.drop_last()).push(item)
        }
    }
}

/// The items of a list with commas between them.
pub open spec fn csv_items(raw: Seq<char>) -> Seq<Seq<char>> {
    items(text::split_text(raw, ','))
}

/// No item of a list is empty.
pub proof fn lemma_items_not_empty(parts: Seq<Seq<char>>, i: int)
    requires
        0 <= i < items(parts).len(),
    ensures
        items(parts)[i].len() > 0,
    decreases parts.len(),
{
    if parts.len() > 0 && i < items(parts.drop_last()).len() {
        lemma_items_not_empty(parts.drop_last(), i);
    }
}

/// Whether a text means yes.
pub open spec fn affirmative(value: Seq<char>) -> bool {
    text::lowercase(value) == "true"@ || value == "1"@
}

pub open spec fn double_fault(vars: Variables, key: Seq<char>) -> bool {
    vars.contains_key(key) && reading::read_double(vars[key]@) is None
}

pub open spec fn whole_fault(vars: Variables, key: Seq<char>) -> bool {
    vars.contains_key(key) && text::whole_number(vars[key]@) is None
}

/// The first variable, in the order in which they are read, that the settings
/// cannot be read from.
pub open spec fn first_fault(vars: Variables) -> Option<(ConfigFault, Seq<char>)> {
    if !vars.contains_key("POLYMARKET_PRIVATE_KEY"@) {
        Some((ConfigFault::Missing, "POLYMARKET_PRIVATE_KEY"@))
    } else if double_fault(vars, "TRADE_SIZE_USD"@) {
        Some((ConfigFault::InvalidF64, "TRADE_SIZE_USD"@))
    } else if double_fault(vars, "BTC_ENTRY_BPS"@) {
        Some((ConfigFault::InvalidF64, "BTC_ENTRY_BPS"@))
    } else if double_fault(vars, "ETH_ENTRY_BPS"@) {
        Some((ConfigFault::InvalidF64, "ETH_ENTRY_BPS"@))
    } else if double_fault(vars, "BOOK_IMB_THRESH"@) {
        Some((ConfigFault::InvalidF64, "BOOK_IMB_THRESH"@))
    } else if double_fault(vars, "MIN_ENTRY_PRICE"@) {
        Some((ConfigFault::InvalidF64, "MIN_ENTRY_PRICE"@))
    } else if double_fault(vars, "MAX_ENTRY_PRICE"@) {
        Some((ConfigFault::InvalidF64, "MAX_ENTRY_PRICE"@))
    } else if whole_fault(vars, "LEG2_WAIT_SECS"@) {
        Some((ConfigFault::InvalidU64, "LEG2_WAIT_SECS"@))
    } else if whole_fault(vars, "LEG2_MIN_WAIT_SECS"@) {
        Some((ConfigFault::InvalidU64, "LEG2_MIN_WAIT_SECS"@))
    } else if whole_fault(vars, "FORCE_CLOSE_SECS"@) {
        Some((ConfigFault::InvalidU64, "FORCE_CLOSE_SECS"@))
    } else if whole_fault(vars, "MAX_CONCURRENT_POSITIONS"@) {
        Some((ConfigFault::InvalidU64, "MAX_CONCURRENT_POSITIONS"@))
    } else if double_fault(vars, "MAX_DAILY_LOSS_USD"@) {
        Some((ConfigFault::InvalidF64, "MAX_DAILY_LOSS_USD"@))
    } else if whole_fault(vars, "COOLDOWN_AFTER_LOSSES"@) {
        Some((ConfigFault::InvalidU64, "COOLDOWN_AFTER_LOSSES"@))
    } else if whole_fault(vars, "COOLDOWN_DURATION_SECS"@) {
        Some((ConfigFault::InvalidU64, "COOLDOWN_DURATION_SECS"@))
    } else if whole_fault(vars, "MARKET_INTERVAL_SECS"@) {
        Some((ConfigFault::InvalidU64, "MARKET_INTERVAL_SECS"@))
    } else {
        None
    }
}

impl ConfigError {
    /// Whether this error names a fault of a variable and what it holds.
    pub open spec fn names(&self, vars: Variables, fault: ConfigFault, key: Seq<char>) -> bool {
        &&& self.fault == fault
        &&& self.key@ == key
        &&& self.value@ == text_setting(vars, key, Seq::empty())
    }

    /// The error in words.
    pub open spec fn words(&self) -> Seq<char> {
        match self.fault {
            ConfigFault::Missing => "Missing required env var: "@ + self.key@,
            ConfigFault::InvalidF64 => "Invalid f64 for "@ + self.key@ + ": "@ + self.value@,
            ConfigFault::InvalidU64 => "Invalid u64 for "@ + self.key@ + ": "@ + self.value@,
        }
    }

    /// The error in words.
    pub fn message(&self) -> (r: String)
        ensures
            r@ == self.words(),
    {
        let start: String = match self.fault {
            ConfigFault::Missing => {
                return "Missing required env var: ".to_owned().concat(self.key.as_str());
            },
            ConfigFault::InvalidF64 => "Invalid f64 for ".to_owned(),
            ConfigFault::InvalidU64 => "Invalid u64 for ".to_owned(),
        };
        start.concat(self.key.as_str()).concat(": ").concat(self.value.as_str())
    }
}

/// Whether `r` is what is read from the variables: the settings, or the first
/// fault.
pub open spec fn settings_of(r: Result<Config, ConfigError>, vars: Variables) -> bool {
    match first_fault(vars) {
        None => r matches Ok(config) && config.reads(vars),
        Some((fault, key)) => r matches Err(e) && e.names(vars, fault, key),
    }
}

/// Settings are read from all variables with the private key among them in which
/// every number can be read, and from no others; an error names the variable and
/// what it holds.
pub proof fn lemma_when_settings_are_read(r: Result<Config, ConfigError>, vars: Variables)
    requires
        settings_of(r, vars),
    ensures
        r is Ok <==> first_fault(vars) is None,
        r is Ok ==> vars.contains_key("POLYMARKET_PRIVATE_KEY"@) && r->Ok_0.polymarket_private_key
            == vars["POLYMARKET_PRIVATE_KEY"@],
        !vars.contains_key("POLYMARKET_PRIVATE_KEY"@) ==> r is Err && r->Err_0.fault is Missing
            && r->Err_0.key@ == "POLYMARKET_PRIVATE_KEY"@,
        r is Err && vars.contains_key(r->Err_0.key@) ==> r->Err_0.value@ == vars[r->Err_0.key@]@,
        r is Err && r->Err_0.fault is InvalidF64 ==> vars.contains_key(r->Err_0.key@)
            && reading::read_double(vars[r->Err_0.key@]@) is None,
        r is Err && r->Err_0.fault is InvalidU64 ==> vars.contains_key(r->Err_0.key@)
            && text::whole_number(vars[r->Err_0.key@]@) is None,
{
    lemma_faults(vars);
}

fn required(vars: &NameMap<String>, key: &str) -> (r: Result<String, ConfigError>)
    ensures
        match r {
            Ok(s) => vars@.contains_key(key@) && s == vars@[key@],
            Err(e) => !vars@.contains_key(key@) && e.names(vars@, ConfigFault::Missing, key@),
        },
{
    match vars.get(key) {
        Some(value) => Ok(value.clone()),
        None => {
            let value: String = String::new();
            assert(value@ =~= Seq::<char>::empty());
            Err(ConfigError { fault: ConfigFault::Missing, key: key.to_owned(), value })
        },
    }
}

fn optional(vars: &NameMap<String>, key: &str, default: &str) -> (r: String)
    ensures
        r@ == text_setting(vars@, key@, default@),
{
    match vars.get(key) {
        Some(value) => value.clone(),
        None => default.to_owned(),
    }
}

fn parse_f64(vars: &NameMap<String>, key: &str, default: Binary64) -> (r: Result<
    Binary64,
    ConfigError,
>)
    ensures
        match r {
            Ok(x) => !double_fault(vars@, key@) && double_setting(vars@, key@, default) == Some(x),
            Err(e) => double_fault(vars@, key@) && e.names(vars@, ConfigFault::InvalidF64, key@),
        },
{
    match vars.get(key) {
        Some(value) => match Binary64::parse(value.as_str()) {
            Some(x) => Ok(x),
            None => Err(
                ConfigError {
                    fault: ConfigFault::InvalidF64,
                    key: key.to_owned(),
                    value: value.clone(),
                },
            ),
        },
        None => Ok(default),
    }
}

fn parse_u64(vars: &NameMap<String>, key: &str, default: u64) -> (r: Result<u64, ConfigError>)
    ensures
        match r {
            Ok(n) => !whole_fault(vars@, key@) && whole_setting(vars@, key@, default) == Some(n),
            Err(e) => whole_fault(vars@, key@) && e.names(vars@, ConfigFault::InvalidU64, key@),
        },
{
    match vars.get(key) {
        Some(value) => match read_whole_number(value.as_str()) {
            Some(n) => Ok(n),
            None => Err(
                ConfigError {
                    fault: ConfigFault::InvalidU64,
                    key: key.to_owned(),
                    value: value.clone(),
                },
            ),
        },
        None => Ok(default),
    }
}

fn push_item(out: &mut Vec<String>, chars: &Vec<char>, from: usize, to: usize)
    requires
        from <= to <= chars@.len(),
    ensures
        ({
            let item = text::uppercase(text::trimmed(chars@.subrange(from as int, to as int)));
            text::texts(final(out)@) == if item.len() == 0 {
                text::texts(old(out)@)
            } else {
                text::texts(old(out)@).push(item)
            }
        }),
{
    let part: String = trim_range(chars, from, to);
    let item: String = part.as_str().to_uppercase();
    let ghost before = out@;
    if !same_text(item.as_str(), "") {
        proof {
            reveal_strlit("");
        }
        out.push(item);
        assert(text::texts(out@) =~= text::texts(before).push(item@));
        assert(item@.len() != 0) by {
            if item@.len() == 0 {
                assert(item@ =~= ""@);
            }
        }
    } else {
        proof {
            reveal_strlit("");
        }
    }
}

/// Splits a list at its commas.
pub fn split_csv(raw: &str) -> (r: Vec<String>)
    ensures
        text::texts(r@) == csv_items(raw@),
{
    let chars: Vec<char> = chars_of(raw);
    let mut out: Vec<String> = Vec::new();
    let mut start: usize = 0;
    let mut i: usize = 0;
    let ghost mut parts: Seq<Seq<char>> = Seq::empty();
    proof {
        assert(raw@.take(0) =~= Seq::<char>::empty());
        assert(chars@.subrange(0, 0) =~= Seq::<char>::empty());
        assert(parts.push(chars@.subrange(0, 0)) =~= seq![raw@.take(0)]);
        assert(text::texts(out@) =~= items(parts));
    }
    while i < chars.len()
        invariant
            chars@ == raw@,
            start <= i <= chars@.len(),
            text::split_text(raw@.take(i as int), ',') == parts.push(
                chars@.subrange(start as int, i as int),
            ),
            text::texts(out@) == items(parts),
        decreases chars@.len() - i,
    {
        let ghost upto = raw@.take(i as int);
        let ghost next = raw@.take(i + 1);
        let ghost here = chars@.subrange(start as int, i as int);
        proof {
            assert(next.drop_last() =~= upto);
            assert(next.last() == chars@[i as int]);
            assert(parts.push(here).drop_last() =~= parts);
        }
        if chars[i] == ',' {
            push_item(&mut out, &chars, start, i);
            proof {
                parts = parts.push(here);
                assert(parts.drop_last().push(here) =~= parts);
                assert(chars@.subrange(i + 1, i + 1) =~= Seq::<char>::empty());
            }
            start = i + 1;
        } else {
            proof {
                assert(chars@.subrange(start as int, i + 1) =~= here.push(chars@[i as int]));
                assert(parts.push(here).update(parts.len() as int, here.push(chars@[i as int]))
                    =~= parts.push(chars@.subrange(start as int, i + 1)));
            }
        }
        i = i + 1;
    }
    proof {
        assert(raw@.take(i as int) =~= raw@);
        let here = chars@.subrange(start as int, i as int);
        assert(parts.push(here).drop_last() =~= parts);
    }
    push_item(&mut out, &chars, start, i);
    out
}

fn parse_csv(vars: &NameMap<String>, key: &str, default: &str) -> (r: Vec<String>)
    ensures
        text::texts(r@) == csv_items(text_setting(vars@, key@, default@)),
{
    let raw: String = optional(vars, key, default);
    split_csv(raw.as_str())
}

fn is_affirmative(value: &str) -> (r: bool)
    ensures
        r == affirmative(value@),
{
    same_text(value.to_lowercase().as_str(), "true") || same_text(value, "1")
}

impl Config {
    /// Whether these are the settings that the variables give, where a variable
    /// that is not set leaves its default.
    pub open spec fn reads(&self, vars: Variables) -> bool {
        &&& self.reads_connections(vars)
        &&& self.reads_strategy(vars)
        &&& self.reads_limits(vars)
    }

    pub open spec fn reads_connections(&self, vars: Variables) -> bool {
        &&& vars.contains_key("POLYMARKET_PRIVATE_KEY"@)
        &&& self.polymarket_private_key == vars["POLYMARKET_PRIVATE_KEY"@]
        &&& self.polymarket_funder_address == if vars.contains_key("POLYMARKET_FUNDER_ADDRESS"@)
            && vars["POLYMARKET_FUNDER_ADDRESS"@]@ != ""@ {
            Some(vars["POLYMARKET_FUNDER_ADDRESS"@])
        } else {
            None
        }
        &&& self.polymarket_clob_url@ == text_setting(
            vars,
            "POLYMARKET_CLOB_URL"@,
            "https://clob.polymarket.com"@,
        )
        &&& self.polymarket_gamma_url@ == text_setting(
            vars,
            "POLYMARKET_GAMMA_URL"@,
            "https://gamma-api.polymarket.com"@,
        )
        &&& self.polymarket_ws_url@ == text_setting(
            vars,
            "POLYMARKET_WS_URL"@,
            "wss://ws-subscriptions-clob.polymarket.com/ws"@,
        )
        &&& self.polymarket_rtds_url@ == text_setting(
            vars,
            "POLYMARKET_RTDS_URL"@,
            "wss://ws-live-data.polymarket.com"@,
        )
        &&& self.chainlink_ws_url@ == text_setting(
            vars,
            "CHAINLINK_WS_URL"@,
            "wss://ws.testnet-dataengine.chain.link"@,
        )
        &&& self.chainlink_api_key@ == text_setting(vars, "CHAINLINK_API_KEY"@, ""@)
        &&& self.chainlink_api_secret@ == text_setting(vars, "CHAINLINK_API_SECRET"@, ""@)
        &&& self.chainlink_btc_feed_id@ == text_setting(vars, "CHAINLINK_BTC_FEED_ID"@, ""@)
        &&& self.chainlink_eth_feed_id@ == text_setting(vars, "CHAINLINK_ETH_FEED_ID"@, ""@)
        &&& self.hyperliquid_ws_url@ == text_setting(
            vars,
            "HYPERLIQUID_WS_URL"@,
            "wss://api.hyperliquid.xyz/ws"@,
        )
        &&& text::texts(self.hyperliquid_assets@) == csv_items(
            text_setting(vars, "HYPERLIQUID_ASSETS"@, "BTC,ETH"@),
        )
    }

    pub open spec fn reads_strategy(&self, vars: Variables) -> bool {
        &&& double_setting(vars, "TRADE_SIZE_USD"@, Binary64::of_nat(25)) == Some(
            self.trade_size_usd,
        )
        &&& double_setting(vars, "BTC_ENTRY_BPS"@, Binary64::of_nat(5)) == Some(self.btc_entry_bps)
        &&& double_setting(vars, "ETH_ENTRY_BPS"@, Binary64::of_nat(5)) == Some(self.eth_entry_bps)
        &&& double_setting(vars, "BOOK_IMB_THRESH"@, Binary64::of_ratio(1, 10)) == Some(
            self.book_imb_thresh,
        )
        &&& double_setting(vars, "MIN_ENTRY_PRICE"@, Binary64::of_ratio(55, 100)) == Some(
            self.min_entry_price,
        )
        &&& double_setting(vars, "MAX_ENTRY_PRICE"@, Binary64::of_ratio(92, 100)) == Some(
            self.max_entry_price,
        )
        &&& whole_setting(vars, "LEG2_WAIT_SECS"@, 15) == Some(self.leg2_wait_secs)
        &&& whole_setting(vars, "LEG2_MIN_WAIT_SECS"@, 3) == Some(self.leg2_min_wait_secs)
        &&& whole_setting(vars, "FORCE_CLOSE_SECS"@, 10) == Some(self.force_close_secs)
    }

    /// Counts wider than their setting lose their upper bits.
    pub open spec fn reads_limits(&self, vars: Variables) -> bool {
        &&& whole_setting(vars, "MAX_CONCURRENT_POSITIONS"@, 3) matches Some(n)
            && self.max_concurrent_positions == n as usize
        &&& double_setting(vars, "MAX_DAILY_LOSS_USD"@, Binary64::of_nat(200)) == Some(
            self.max_daily_loss_usd,
        )
        &&& whole_setting(vars, "COOLDOWN_AFTER_LOSSES"@, 3) matches Some(n)
            && self.cooldown_after_losses == n as u32
        &&& whole_setting(vars, "COOLDOWN_DURATION_SECS"@, 300) == Some(
            self.cooldown_duration_secs,
        )
        &&& self.log_level@ == text_setting(vars, "LOG_LEVEL"@, "info"@)
        &&& self.dry_run == (vars.contains_key("DRY_RUN"@) ==> affirmative(vars["DRY_RUN"@]@))
        &&& text::texts(self.assets@) == csv_items(text_setting(vars, "ASSETS"@, "BTC,ETH"@))
        &&& whole_setting(vars, "MARKET_INTERVAL_SECS"@, 300) == Some(self.market_interval_secs)
    }

    /// Reads the settings from the variables of the environment.
    pub fn from_env(vars: &NameMap<String>) -> (r: Result<Config, ConfigError>)
        ensures
            settings_of(r, vars@),
    {
        let polymarket_private_key = match required(vars, "POLYMARKET_PRIVATE_KEY") {
            Ok(v) => v,
            Err(e) => return Err(e),
        };
        let polymarket_funder_address: Option<String> = match vars.get(
            "POLYMARKET_FUNDER_ADDRESS",
        ) {
            Some(value) => if same_text(value.as_str(), "") {
                None
            } else {
                Some(value.clone())
            },
            None => None,
        };
        let trade_size_usd = match parse_f64(vars, "TRADE_SIZE_USD", Binary64::from_u64(25)) {
            Ok(v) => v,
            Err(e) => return Err(e),
        };
        let btc_entry_bps = match parse_f64(vars, "BTC_ENTRY_BPS", Binary64::from_u64(5)) {
            Ok(v) => v,
            Err(e) => return Err(e),
        };
        let eth_entry_bps = match parse_f64(vars, "ETH_ENTRY_BPS", Binary64::from_u64(5)) {
            Ok(v) => v,
            Err(e) => return Err(e),
        };
        let book_imb_thresh = match parse_f64(vars, "BOOK_IMB_THRESH", Binary64::ratio(1, 10)) {
            Ok(v) => v,
            Err(e) => return Err(e),
        };
        let min_entry_price = match parse_f64(vars, "MIN_ENTRY_PRICE", Binary64::ratio(55, 100)) {
            Ok(v) => v,
            Err(e) => return Err(e),
        };
        let max_entry_price = match parse_f64(vars, "MAX_ENTRY_PRICE", Binary64::ratio(92, 100)) {
            Ok(v) => v,
            Err(e) => return Err(e),
        };
        let leg2_wait_secs: u64 = match parse_u64(vars, "LEG2_WAIT_SECS", 15) {
            Ok(v) => v,
            Err(e) => return Err(e),
        };
        let leg2_min_wait_secs: u64 = match parse_u64(vars, "LEG2_MIN_WAIT_SECS", 3) {
            Ok(v) => v,
            Err(e) => return Err(e),
        };
        let force_close_secs: u64 = match parse_u64(vars, "FORCE_CLOSE_SECS", 10) {
            Ok(v) => v,
            Err(e) => return Err(e),
        };
        let max_positions: u64 = match parse_u64(vars, "MAX_CONCURRENT_POSITIONS", 3) {
            Ok(v) => v,
            Err(e) => return Err(e),
        };
        let max_daily_loss_usd = match parse_f64(
            vars,
            "MAX_DAILY_LOSS_USD",
            Binary64::from_u64(200),
        ) {
            Ok(v) => v,
            Err(e) => return Err(e),
        };
        let cooldown_losses: u64 = match parse_u64(vars, "COOLDOWN_AFTER_LOSSES", 3) {
            Ok(v) => v,
            Err(e) => return Err(e),
        };
        let cooldown_duration_secs: u64 = match parse_u64(vars, "COOLDOWN_DURATION_SECS", 300) {
            Ok(v) => v,
            Err(e) => return Err(e),
        };
        let market_interval_secs: u64 = match parse_u64(vars, "MARKET_INTERVAL_SECS", 300) {
            Ok(v) => v,
            Err(e) => return Err(e),
        };
        let dry_run: bool = match vars.get("DRY_RUN") {
            Some(value) => is_affirmative(value.as_str()),
            None => true,
        };
        Ok(
            Config {
                polymarket_private_key,
                polymarket_funder_address,
                polymarket_clob_url: optional(
                    vars,
                    "POLYMARKET_CLOB_URL",
                    "https://clob.polymarket.com",
                ),
                polymarket_gamma_url: optional(
                    vars,
                    "POLYMARKET_GAMMA_URL",
                    "https://gamma-api.polymarket.com",
                ),
                polymarket_ws_url: optional(
                    vars,
                    "POLYMARKET_WS_URL",
                    "wss://ws-subscriptions-clob.polymarket.com/ws",
                ),
                polymarket_rtds_url: optional(
                    vars,
                    "POLYMARKET_RTDS_URL",
                    "wss://ws-live-data.polymarket.com",
                ),
                chainlink_ws_url: optional(
                    vars,
                    "CHAINLINK_WS_URL",
                    "wss://ws.testnet-dataengine.chain.link",
                ),
                chainlink_api_key: optional(vars, "CHAINLINK_API_KEY", ""),
                chainlink_api_secret: optional(vars, "CHAINLINK_API_SECRET", ""),
                chainlink_btc_feed_id: optional(vars, "CHAINLINK_BTC_FEED_ID", ""),
                chainlink_eth_feed_id: optional(vars, "CHAINLINK_ETH_FEED_ID", ""),
                hyperliquid_ws_url: optional(
                    vars,
                    "HYPERLIQUID_WS_URL",
                    "wss://api.hyperliquid.xyz/ws",
                ),
                hyperliquid_assets: parse_csv(vars, "HYPERLIQUID_ASSETS", "BTC,ETH"),
                trade_size_usd,
                btc_entry_bps,
                eth_entry_bps,
                book_imb_thresh,
                min_entry_price,
                max_entry_price,
                leg2_wait_secs,
                leg2_min_wait_secs,
                force_close_secs,
                max_concurrent_positions: max_positions as usize,
                max_daily_loss_usd,
                cooldown_after_losses: cooldown_losses as u32,
                cooldown_duration_secs,
                log_level: optional(vars, "LOG_LEVEL", "info"),
                dry_run,
                assets: parse_csv(vars, "ASSETS", "BTC,ETH"),
                market_interval_secs,
            },
        )
    }

    /// The entry threshold of an asset, in any spelling of its name.
    pub open spec fn entry_bps(&self, asset: Seq<char>) -> Binary64 {
        if text::uppercase(asset) == "ETH"@ {
            self.eth_entry_bps
        } else {
            self.btc_entry_bps
        }
    }

    pub fn entry_bps_for_asset(&self, asset: &str) -> (r: Binary64)
        ensures
            r == self.entry_bps(asset@),
    {
        if same_text(asset.to_uppercase().as_str(), "ETH") {
            self.eth_entry_bps
        } else {
            self.btc_entry_bps
        }
    }

    /// Whether the Chainlink feed is set up.
    pub open spec fn has_chainlink(&self) -> bool {
        self.chainlink_api_key@ != ""@ && self.chainlink_api_secret@ != ""@
    }

    pub fn chainlink_enabled(&self) -> (r: bool)
        ensures
            r == self.has_chainlink(),
    {
        !same_text(self.chainlink_api_key.as_str(), "") && !same_text(
            self.chainlink_api_secret.as_str(),
            "",
        )
    }
}

proof fn lemma_items_join(a: Seq<Seq<char>>, b: Seq<Seq<char>>)
    ensures
        items(a + b) == items(a) + items(b),
    decreases b.len(),
{
    if b.len() == 0 {
        assert(a + b =~= a);
        assert(items(a) + items(b) =~= items(a));
    } else {
        assert((a + b).drop_last() =~= a + b.drop_last());
        lemma_items_join(a, b.drop_last());
        assert(items(a + b) =~= items(a) + items(b));
    }
}

/// A comma joins two lists: the items of the whole are those of the first, then
/// those of the second.
pub proof fn lemma_comma_joins_lists(a: Seq<char>, b: Seq<char>)
    ensures
        csv_items(a + seq![','] + b) == csv_items(a) + csv_items(b),
{
    text::lemma_split(a, b, ',');
    lemma_items_join(text::split_text(a, ','), text::split_text(b, ','));
}

/// A list without a comma has one item, trimmed and in capitals, and none where
/// nothing is left of it.
pub proof fn lemma_single_item(raw: Seq<char>)
    requires
        forall|i: int| 0 <= i < raw.len() ==> #[trigger] raw[i] != ',',
    ensures
        ({
            let item = text::uppercase(text::trimmed(raw));
            csv_items(raw) == if item.len() == 0 {
                Seq::<Seq<char>>::empty()
            } else {
                seq![item]
            }
        }),
{
    text::lemma_split(raw, Seq::empty(), ',');
    let parts = text::split_text(raw, ',');
    assert(parts.drop_last() =~= Seq::<Seq<char>>::empty());
    assert(items(parts.drop_last()) =~= Seq::<Seq<char>>::empty());
    let item = text::uppercase(text::trimmed(raw));
    assert(items(parts) =~= if item.len() == 0 {
        Seq::<Seq<char>>::empty()
    } else {
        seq![item]
    });
}

/// A variable that is set decides its own setting: each text as it is, each
/// number as it reads.
pub proof fn lemma_set_variables_decide(config: Config, vars: Variables)
    requires
        config.reads(vars),
    ensures
        config.polymarket_private_key == vars["POLYMARKET_PRIVATE_KEY"@],
        vars.contains_key("POLYMARKET_FUNDER_ADDRESS"@)
            && vars["POLYMARKET_FUNDER_ADDRESS"@]@.len() > 0 ==> config.polymarket_funder_address
            == Some(vars["POLYMARKET_FUNDER_ADDRESS"@]),
        vars.contains_key("POLYMARKET_CLOB_URL"@) ==> config.polymarket_clob_url@
            == vars["POLYMARKET_CLOB_URL"@]@,
        vars.contains_key("POLYMARKET_GAMMA_URL"@) ==> config.polymarket_gamma_url@
            == vars["POLYMARKET_GAMMA_URL"@]@,
        vars.contains_key("POLYMARKET_WS_URL"@) ==> config.polymarket_ws_url@
            == vars["POLYMARKET_WS_URL"@]@,
        vars.contains_key("POLYMARKET_RTDS_URL"@) ==> config.polymarket_rtds_url@
            == vars["POLYMARKET_RTDS_URL"@]@,
        vars.contains_key("CHAINLINK_WS_URL"@) ==> config.chainlink_ws_url@
            == vars["CHAINLINK_WS_URL"@]@,
        vars.contains_key("CHAINLINK_API_KEY"@) ==> config.chainlink_api_key@
            == vars["CHAINLINK_API_KEY"@]@,
        vars.contains_key("CHAINLINK_API_SECRET"@) ==> config.chainlink_api_secret@
            == vars["CHAINLINK_API_SECRET"@]@,
        vars.contains_key("CHAINLINK_BTC_FEED_ID"@) ==> config.chainlink_btc_feed_id@
            == vars["CHAINLINK_BTC_FEED_ID"@]@,
        vars.contains_key("CHAINLINK_ETH_FEED_ID"@) ==> config.chainlink_eth_feed_id@
            == vars["CHAINLINK_ETH_FEED_ID"@]@,
        vars.contains_key("HYPERLIQUID_WS_URL"@) ==> config.hyperliquid_ws_url@
            == vars["HYPERLIQUID_WS_URL"@]@,
        vars.contains_key("TRADE_SIZE_USD"@) ==> Some(config.trade_size_usd)
            == reading::read_double(vars["TRADE_SIZE_USD"@]@),
        vars.contains_key("BTC_ENTRY_BPS"@) ==> Some(config.btc_entry_bps) == reading::read_double(
            vars["BTC_ENTRY_BPS"@]@,
        ),
        vars.contains_key("ETH_ENTRY_BPS"@) ==> Some(config.eth_entry_bps) == reading::read_double(
            vars["ETH_ENTRY_BPS"@]@,
        ),
        vars.contains_key("BOOK_IMB_THRESH"@) ==> Some(config.book_imb_thresh)
            == reading::read_double(vars["BOOK_IMB_THRESH"@]@),
        vars.contains_key("MIN_ENTRY_PRICE"@) ==> Some(config.min_entry_price)
            == reading::read_double(vars["MIN_ENTRY_PRICE"@]@),
        vars.contains_key("MAX_ENTRY_PRICE"@) ==> Some(config.max_entry_price)
            == reading::read_double(vars["MAX_ENTRY_PRICE"@]@),
        vars.contains_key("MAX_DAILY_LOSS_USD"@) ==> Some(config.max_daily_loss_usd)
            == reading::read_double(vars["MAX_DAILY_LOSS_USD"@]@),
        vars.contains_key("LEG2_WAIT_SECS"@) ==> Some(config.leg2_wait_secs) == text::whole_number(
            vars["LEG2_WAIT_SECS"@]@,
        ),
        vars.contains_key("LEG2_MIN_WAIT_SECS"@) ==> Some(config.leg2_min_wait_secs)
            == text::whole_number(vars["LEG2_MIN_WAIT_SECS"@]@),
        vars.contains_key("FORCE_CLOSE_SECS"@) ==> Some(config.force_close_secs)
            == text::whole_number(vars["FORCE_CLOSE_SECS"@]@),
        vars.contains_key("COOLDOWN_DURATION_SECS"@) ==> Some(config.cooldown_duration_secs)
            == text::whole_number(vars["COOLDOWN_DURATION_SECS"@]@),
        vars.contains_key("MARKET_INTERVAL_SECS"@) ==> Some(config.market_interval_secs)
            == text::whole_number(vars["MARKET_INTERVAL_SECS"@]@),
        vars.contains_key("MAX_CONCURRENT_POSITIONS"@) && text::whole_number(
            vars["MAX_CONCURRENT_POSITIONS"@]@,
        )->0 <= 0xFFFF_FFFF ==> config.max_concurrent_positions == text::whole_number(
            vars["MAX_CONCURRENT_POSITIONS"@]@,
        )->0,
        vars.contains_key("COOLDOWN_AFTER_LOSSES"@) && text::whole_number(
            vars["COOLDOWN_AFTER_LOSSES"@]@,
        )->0 <= 0xFFFF_FFFF ==> config.cooldown_after_losses == text::whole_number(
            vars["COOLDOWN_AFTER_LOSSES"@]@,
        )->0,
        vars.contains_key("LOG_LEVEL"@) ==> config.log_level@ == vars["LOG_LEVEL"@]@,
        vars.contains_key("ASSETS"@) ==> text::texts(config.assets@) == csv_items(
            vars["ASSETS"@]@,
        ),
        vars.contains_key("HYPERLIQUID_ASSETS"@) ==> text::texts(config.hyperliquid_assets@)
            == csv_items(vars["HYPERLIQUID_ASSETS"@]@),
{
    reveal_strlit("");
}

/// What holds where nothing but the private key is set: five basis points and a
/// tenth of imbalance for an entry between 0.55 and 0.92, 25 dollars a trade, a
/// close ten seconds before the end of a market of five minutes, three positions,
/// 200 dollars of loss a day, five minutes of cooldown after three losses, and
/// nothing traded for real.
pub proof fn lemma_defaults(config: Config, vars: Variables)
    requires
        config.reads(vars),
        forall|key: Seq<char>| #[trigger]
            vars.contains_key(key) ==> key == "POLYMARKET_PRIVATE_KEY"@,
    ensures
        config.dry_run,
        config.trade_size_usd == Binary64::of_nat(25),
        config.btc_entry_bps == Binary64::of_nat(5),
        config.eth_entry_bps == Binary64::of_nat(5),
        config.book_imb_thresh == Binary64::of_ratio(1, 10),
        config.min_entry_price == Binary64::of_ratio(55, 100),
        config.max_entry_price == Binary64::of_ratio(92, 100),
        config.leg2_wait_secs == 15,
        config.leg2_min_wait_secs == 3,
        config.force_close_secs == 10,
        config.max_concurrent_positions == 3,
        config.max_daily_loss_usd == Binary64::of_nat(200),
        config.cooldown_after_losses == 3,
        config.cooldown_duration_secs == 300,
        config.market_interval_secs == 300,
        config.polymarket_funder_address is None,
        config.polymarket_clob_url@ == "https://clob.polymarket.com"@,
        config.polymarket_gamma_url@ == "https://gamma-api.polymarket.com"@,
        config.polymarket_ws_url@ == "wss://ws-subscriptions-clob.polymarket.com/ws"@,
        config.polymarket_rtds_url@ == "wss://ws-live-data.polymarket.com"@,
        config.hyperliquid_ws_url@ == "wss://api.hyperliquid.xyz/ws"@,
        config.log_level@ == "info"@,
        text::texts(config.assets@) == csv_items("BTC,ETH"@),
        text::texts(config.hyperliquid_assets@) == csv_items("BTC,ETH"@),
        !config.has_chainlink(),
{
    lemma_key_lengths();
}

/// The private key has a name of its own among the variables.
proof fn lemma_key_lengths()
    ensures
        !vars_named("POLYMARKET_FUNDER_ADDRESS"@),
        !vars_named("POLYMARKET_CLOB_URL"@),
        !vars_named("POLYMARKET_GAMMA_URL"@),
        !vars_named("POLYMARKET_WS_URL"@),
        !vars_named("POLYMARKET_RTDS_URL"@),
        !vars_named("CHAINLINK_WS_URL"@),
        !vars_named("CHAINLINK_API_KEY"@),
        !vars_named("CHAINLINK_API_SECRET"@),
        !vars_named("CHAINLINK_BTC_FEED_ID"@),
        !vars_named("CHAINLINK_ETH_FEED_ID"@),
        !vars_named("HYPERLIQUID_WS_URL"@),
        !vars_named("HYPERLIQUID_ASSETS"@),
        !vars_named("TRADE_SIZE_USD"@),
        !vars_named("BTC_ENTRY_BPS"@),
        !vars_named("ETH_ENTRY_BPS"@),
        !vars_named("BOOK_IMB_THRESH"@),
        !vars_named("MIN_ENTRY_PRICE"@),
        !vars_named("MAX_ENTRY_PRICE"@),
        !vars_named("LEG2_WAIT_SECS"@),
        !vars_named("LEG2_MIN_WAIT_SECS"@),
        !vars_named("FORCE_CLOSE_SECS"@),
        !vars_named("MAX_CONCURRENT_POSITIONS"@),
        !vars_named("MAX_DAILY_LOSS_USD"@),
        !vars_named("COOLDOWN_AFTER_LOSSES"@),
        !vars_named("COOLDOWN_DURATION_SECS"@),
        !vars_named("LOG_LEVEL"@),
        !vars_named("DRY_RUN"@),
        !vars_named("ASSETS"@),
        !vars_named("MARKET_INTERVAL_SECS"@),
{
    reveal_strlit("POLYMARKET_PRIVATE_KEY");
    reveal_strlit("POLYMARKET_FUNDER_ADDRESS");
    reveal_strlit("POLYMARKET_CLOB_URL");
    reveal_strlit("POLYMARKET_GAMMA_URL");
    reveal_strlit("POLYMARKET_WS_URL");
    reveal_strlit("POLYMARKET_RTDS_URL");
    reveal_strlit("CHAINLINK_WS_URL");
    reveal_strlit("CHAINLINK_API_KEY");
    reveal_strlit("CHAINLINK_API_SECRET");
    reveal_strlit("CHAINLINK_BTC_FEED_ID");
    reveal_strlit("CHAINLINK_ETH_FEED_ID");
    reveal_strlit("HYPERLIQUID_WS_URL");
    reveal_strlit("HYPERLIQUID_ASSETS");
    reveal_strlit("TRADE_SIZE_USD");
    reveal_strlit("BTC_ENTRY_BPS");
    reveal_strlit("ETH_ENTRY_BPS");
    reveal_strlit("BOOK_IMB_THRESH");
    reveal_strlit("MIN_ENTRY_PRICE");
    reveal_strlit("MAX_ENTRY_PRICE");
    reveal_strlit("LEG2_WAIT_SECS");
    reveal_strlit("LEG2_MIN_WAIT_SECS");
    reveal_strlit("FORCE_CLOSE_SECS");
    reveal_strlit("MAX_CONCURRENT_POSITIONS");
    reveal_strlit("MAX_DAILY_LOSS_USD");
    reveal_strlit("COOLDOWN_AFTER_LOSSES");
    reveal_strlit("COOLDOWN_DURATION_SECS");
    reveal_strlit("LOG_LEVEL");
    reveal_strlit("DRY_RUN");
    reveal_strlit("ASSETS");
    reveal_strlit("MARKET_INTERVAL_SECS");
    let key = "POLYMARKET_PRIVATE_KEY"@;
    assert(key.len() == 22 && key[0] == 'P');
    assert("COOLDOWN_DURATION_SECS"@[0] == 'C');
}

spec fn vars_named(key: Seq<char>) -> bool {
    key == "POLYMARKET_PRIVATE_KEY"@
}

/// Nothing is traded for real unless the variable for it says something other
/// than yes.
pub proof fn lemma_live_only_on_request(config: Config, vars: Variables)
    requires
        config.reads(vars),
    ensures
        !vars.contains_key("DRY_RUN"@) ==> config.dry_run,
        vars.contains_key("DRY_RUN"@) && (vars["DRY_RUN"@]@ == "1"@ || text::lowercase(
            vars["DRY_RUN"@]@,
        ) == "true"@) ==> config.dry_run,
        !config.dry_run <==> vars.contains_key("DRY_RUN"@) && vars["DRY_RUN"@]@ != "1"@
            && text::lowercase(vars["DRY_RUN"@]@) != "true"@,
{
}

/// A fault is one of a variable: the private key that is not set, or a number that
/// is set and cannot be read. Where there is none, the key is set and every number
/// can be read.
pub proof fn lemma_faults(vars: Variables)
    ensures
        match first_fault(vars) {
            Some((ConfigFault::Missing, key)) => key == "POLYMARKET_PRIVATE_KEY"@
                && !vars.contains_key(key),
            Some((ConfigFault::InvalidF64, key)) => vars.contains_key(key) && reading::read_double(
                vars[key]@,
            ) is None,
            Some((ConfigFault::InvalidU64, key)) => vars.contains_key(key) && text::whole_number(
                vars[key]@,
            ) is None,
            None => vars.contains_key("POLYMARKET_PRIVATE_KEY"@),
        },
        first_fault(vars) is None ==> {
            &&& vars.contains_key("TRADE_SIZE_USD"@) ==> reading::read_double(
                vars["TRADE_SIZE_USD"@]@,
            ) is Some
            &&& vars.contains_key("BTC_ENTRY_BPS"@) ==> reading::read_double(
                vars["BTC_ENTRY_BPS"@]@,
            ) is Some
            &&& vars.contains_key("ETH_ENTRY_BPS"@) ==> reading::read_double(
                vars["ETH_ENTRY_BPS"@]@,
            ) is Some
            &&& vars.contains_key("BOOK_IMB_THRESH"@) ==> reading::read_double(
                vars["BOOK_IMB_THRESH"@]@,
            ) is Some
            &&& vars.contains_key("MAX_DAILY_LOSS_USD"@) ==> reading::read_double(
                vars["MAX_DAILY_LOSS_USD"@]@,
            ) is Some
            &&& vars.contains_key("MAX_CONCURRENT_POSITIONS"@) ==> text::whole_number(
                vars["MAX_CONCURRENT_POSITIONS"@]@,
            ) is Some
            &&& vars.contains_key("MARKET_INTERVAL_SECS"@) ==> text::whole_number(
                vars["MARKET_INTERVAL_SECS"@]@,
            ) is Some
        },
{
}

/// Each asset has its own threshold, in any spelling of its name; any other asset
/// has that of BTC.
pub proof fn lemma_threshold_of_asset(config: Config, asset: Seq<char>)
    ensures
        text::uppercase(asset) == "ETH"@ ==> config.entry_bps(asset) == config.eth_entry_bps,
        text::uppercase(asset) == "BTC"@ ==> config.entry_bps(asset) == config.btc_entry_bps,
        text::uppercase(asset) != "ETH"@ ==> config.entry_bps(asset) == config.btc_entry_bps,
{
    reveal_strlit("BTC");
    reveal_strlit("ETH");
    assert("BTC"@[0] != "ETH"@[0]);
}

/// Chainlink is used exactly where both its key and its secret are set up.
pub proof fn lemma_chainlink_needs_both(config: Config)
    ensures
        config.has_chainlink() <==> config.chainlink_api_key@.len() > 0
            && config.chainlink_api_secret@.len() > 0,
{
    reveal_strlit("");
    if config.chainlink_api_key@.len() == 0 {
        assert(config.chainlink_api_key@ =~= ""@);
    }
    if config.chainlink_api_secret@.len() == 0 {
        assert(config.chainlink_api_secret@ =~= ""@);
    }
}

/// An error tells the variable, and behind it what it holds if that cannot be
/// read.
pub proof fn lemma_error_tells_variable(error: ConfigError)
    ensures
        ({
            let words = error.words();
            let value_at = words.len() - error.value@.len();
            &&& error.fault is Missing ==> words.skip(words.len() - error.key@.len()) == error.key@
            &&& !(error.fault is Missing) ==> words.skip(value_at) == error.value@
                && words.subrange(value_at - 2 - error.key@.len(), value_at - 2) == error.key@
        }),
{
    reveal_strlit(": ");
    let words = error.words();
    let value_at = words.len() - error.value@.len();
    if error.fault is Missing {
        assert(words.skip(words.len() - error.key@.len()) =~= error.key@);
    } else {
        assert(words.skip(value_at) =~= error.value@);
        assert(words.subrange(value_at - 2 - error.key@.len(), value_at - 2) =~= error.key@);
    }
}

} // verus!
