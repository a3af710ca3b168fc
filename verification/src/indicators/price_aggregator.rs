//! Prices from several sources, and their moves since the market opened.

use crate::number::algebra;
use crate::number::binary64::Binary64;
use crate::number::precision;
use crate::number::rounding;
use crate::utils::clock;
use crate::utils::clock::{utc_now, Timestamp};
use crate::utils::name_map::NameMap;
use vstd::prelude::*;
use vstd::string::*;

verus! {

/// How old a Chainlink price may be to count as fresh, in seconds.
pub const MAX_CHAINLINK_AGE_SECS: u64 = 30;

/// Aggregates prices from Chainlink and Hyperliquid, producing BPS deltas
/// relative to the market's opening price.
///
/// When Chainlink is unavailable, Hyperliquid mid-price is used as the
/// primary price source for directional signals.
#[derive(Debug)]
pub struct PriceAggregator {
    /// Latest Chainlink prices (preferred source of truth).
    chainlink_prices: NameMap<TimestampedPrice>,
    /// Latest Hyperliquid mid prices (primary when Chainlink unavailable).
    hl_mid_prices: NameMap<TimestampedPrice>,
    /// Market open prices for BPS calculation (set when market opens).
    market_open_prices: NameMap<Binary64>,
    /// Whether Chainlink is available as a price source.
    chainlink_enabled: bool,
}

#[derive(Debug, Clone, Copy, PartialEq)]
pub struct TimestampedPrice {
    pub price: Binary64,
    pub timestamp: Timestamp,
}

/// Computed price state for a single asset at a point in time.
#[derive(Debug, Clone)]
pub struct PriceState {
    pub asset: String,
    /// The authoritative price (Chainlink if available, else Hyperliquid mid).
    pub price: Binary64,
    /// Source of the price.
    pub source: PriceSource,
    /// BPS move from market open.
    pub bps_from_open: Binary64,
    pub timestamp: Timestamp,
}

#[derive(Debug, Clone, Copy, PartialEq, Eq, Structural)]
pub enum PriceSource {
    Chainlink,
    Hyperliquid,
}

/// The change from one price to another, in basis points of the first.
pub open spec fn change_bps(from: Binary64, to: Binary64) -> Binary64 {
    to.difference(from).quotient(from).product(Binary64::of_nat(10_000))
}

/// The change from one price to another, in basis points of the first.
pub fn bps_change(from: Binary64, to: Binary64) -> (r: Binary64)
    ensures
        r == change_bps(from, to),
{
    to.minus(from).over(from).times(Binary64::from_u64(10_000))
}

impl PriceAggregator {
    pub closed spec fn chainlink(&self) -> Map<Seq<char>, TimestampedPrice> {
        self.chainlink_prices@
    }

    pub closed spec fn hyperliquid(&self) -> Map<Seq<char>, TimestampedPrice> {
        self.hl_mid_prices@
    }

    pub closed spec fn open_prices(&self) -> Map<Seq<char>, Binary64> {
        self.market_open_prices@
    }

    pub closed spec fn uses_chainlink(&self) -> bool {
        self.chainlink_enabled
    }

    /// Whether there is a Chainlink price of an asset that is fresh at a time.
    pub open spec fn has_fresh_chainlink(&self, asset: Seq<char>, now: Timestamp) -> bool {
        self.chainlink().contains_key(asset) && now.nanos()
            - self.chainlink()[asset].timestamp.nanos() <= MAX_CHAINLINK_AGE_SECS
            * clock::NANOS_PER_SEC
    }

    /// Where the price of an asset comes from at a time.
    pub open spec fn source_of(&self, asset: Seq<char>, now: Timestamp) -> PriceSource {
        if self.uses_chainlink() && self.has_fresh_chainlink(asset, now) {
            PriceSource::Chainlink
        } else {
            PriceSource::Hyperliquid
        }
    }

    /// The best available price of an asset at a time.
    pub open spec fn best_price(&self, asset: Seq<char>, now: Timestamp) -> Option<
        TimestampedPrice,
    > {
        if self.source_of(asset, now) == PriceSource::Chainlink {
            Some(self.chainlink()[asset])
        } else if self.hyperliquid().contains_key(asset) {
            Some(self.hyperliquid()[asset])
        } else {
            None
        }
    }

    /// The move of an asset since its market opened, in basis points; zero where
    /// the opening price is not positive.
    pub open spec fn move_since_open(&self, asset: Seq<char>, now: Timestamp) -> Binary64 {
        let open = self.open_prices()[asset];
        if Binary64::nothing().less(open) {
            change_bps(open, self.best_price(asset, now)->Some_0.price)
        } else {
            Binary64::nothing()
        }
    }

    /// Whether the state of an asset is known: it has a price and an opening price.
    pub open spec fn knows(&self, asset: Seq<char>, now: Timestamp) -> bool {
        self.best_price(asset, now) is Some && self.open_prices().contains_key(asset)
    }

    /// Whether the opening price of an asset is the best price at a time, if
    /// there is one, and all else is as it was.
    pub open spec fn opened(&self, before: PriceAggregator, asset: Seq<char>, now: Timestamp) -> bool {
        &&& self.open_prices() == match before.best_price(asset, now) {
            Some(best) => before.open_prices().insert(asset, best.price),
            None => before.open_prices(),
        }
        &&& self.chainlink() == before.chainlink()
        &&& self.hyperliquid() == before.hyperliquid()
        &&& self.uses_chainlink() == before.uses_chainlink()
    }

    /// Whether the opening price of an asset is the best price at a time, or is
    /// not known where there is none, and all else is as it was.
    pub open spec fn rotated(&self, before: PriceAggregator, asset: Seq<char>, now: Timestamp) -> bool {
        &&& self.open_prices() == match before.best_price(asset, now) {
            Some(best) => before.open_prices().insert(asset, best.price),
            None => before.open_prices().remove(asset),
        }
        &&& self.chainlink() == before.chainlink()
        &&& self.hyperliquid() == before.hyperliquid()
        &&& self.uses_chainlink() == before.uses_chainlink()
    }

    /// Whether a state is that of an asset at a time.
    pub open spec fn describes(&self, state: PriceState, asset: Seq<char>, now: Timestamp) -> bool {
        &&& state.asset@ == asset
        &&& self.best_price(asset, now) == Some(
            TimestampedPrice { price: state.price, timestamp: state.timestamp },
        )
        &&& state.source == self.source_of(asset, now)
        &&& state.bps_from_open == self.move_since_open(asset, now)
    }

    pub fn new(chainlink_enabled: bool) -> (r: Self)
        ensures
            r.uses_chainlink() == chainlink_enabled,
            r.chainlink() == Map::<Seq<char>, TimestampedPrice>::empty(),
            r.hyperliquid() == Map::<Seq<char>, TimestampedPrice>::empty(),
            r.open_prices() == Map::<Seq<char>, Binary64>::empty(),
    {
        PriceAggregator {
            chainlink_prices: NameMap::new(),
            hl_mid_prices: NameMap::new(),
            market_open_prices: NameMap::new(),
            chainlink_enabled,
        }
    }

    /// Update Chainlink price for an asset. Caller should pass pre-uppercased keys.
    pub fn update_chainlink(&mut self, asset: &str, price: Binary64, ts: Timestamp)
        ensures
            final(self).chainlink() == old(self).chainlink().insert(
                asset@,
                TimestampedPrice { price, timestamp: ts },
            ),
            final(self).hyperliquid() == old(self).hyperliquid(),
            final(self).open_prices() == old(self).open_prices(),
            final(self).uses_chainlink() == old(self).uses_chainlink(),
    {
        self.chainlink_prices.insert(asset.to_owned(), TimestampedPrice { price, timestamp: ts });
    }

    /// Update Hyperliquid mid-price for an asset. Caller should pass pre-uppercased keys.
    pub fn update_hl_mid(&mut self, asset: &str, price: Binary64, ts: Timestamp)
        ensures
            final(self).hyperliquid() == old(self).hyperliquid().insert(
                asset@,
                TimestampedPrice { price, timestamp: ts },
            ),
            final(self).chainlink() == old(self).chainlink(),
            final(self).open_prices() == old(self).open_prices(),
            final(self).uses_chainlink() == old(self).uses_chainlink(),
    {
        self.hl_mid_prices.insert(asset.to_owned(), TimestampedPrice { price, timestamp: ts });
    }

    /// Snapshot the market open price from the best available source at a time.
    pub fn snapshot_open_price_at(&mut self, asset: &str, now: Timestamp)
        ensures
            final(self).opened(*old(self), asset@, now),
    {
        if let Some(best) = self.get_best_price(asset, now) {
            self.market_open_prices.insert(asset.to_owned(), best.price);
        }
    }

    /// Snapshot the market open price from the best available source.
    pub fn snapshot_open_price(&mut self, asset: &str)
        ensures
            exists|now: Timestamp| #[trigger]
                now.valid() && final(self).opened(*old(self), asset@, now),
    {
        let now: Timestamp = utc_now();
        assert(now.valid());
        self.snapshot_open_price_at(asset, now);
    }

    /// Starts a new market interval of an asset: the opening price of the one
    /// before is cleared, and that of the new one taken from the best available
    /// source at a time.
    pub fn rotate_at(&mut self, asset: &str, now: Timestamp)
        ensures
            final(self).rotated(*old(self), asset@, now),
    {
        let ghost before = *self;
        self.market_open_prices.remove(asset);
        self.snapshot_open_price_at(asset, now);
        proof {
            assert(self.open_prices() =~= match before.best_price(asset@, now) {
                Some(best) => before.open_prices().insert(asset@, best.price),
                None => before.open_prices().remove(asset@),
            });
        }
    }

    /// Get the price state for an asset at a time using the best available source.
    pub fn get_state_at(&self, asset: &str, now: Timestamp) -> (r: Option<PriceState>)
        ensures
            r is Some <==> self.knows(asset@, now),
            r matches Some(state) ==> self.describes(state, asset@, now),
    {
        let best: TimestampedPrice = match self.get_best_price(asset, now) {
            Some(best) => best,
            None => return None,
        };
        let open: Binary64 = match self.market_open_prices.get(asset) {
            Some(open) => *open,
            None => return None,
        };
        let bps_from_open: Binary64 = if open.is_above(Binary64::zero()) {
            bps_change(open, best.price)
        } else {
            Binary64::zero()
        };
        let source: PriceSource = if self.chainlink_enabled && self.fresh_chainlink(
            asset,
            now,
        ).is_some() {
            PriceSource::Chainlink
        } else {
            PriceSource::Hyperliquid
        };
        Some(
            PriceState {
                asset: asset.to_owned(),
                price: best.price,
                source,
                bps_from_open,
                timestamp: best.timestamp,
            },
        )
    }

    /// Get the current price state for an asset using the best available source.
    pub fn get_state(&self, asset: &str) -> (r: Option<PriceState>)
        ensures
            exists|now: Timestamp| #[trigger]
                now.valid() && match r {
                    Some(state) => self.knows(asset@, now) && self.describes(state, asset@, now),
                    None => !self.knows(asset@, now),
                },
    {
        let now: Timestamp = utc_now();
        assert(now.valid());
        self.get_state_at(asset, now)
    }

    fn fresh_chainlink(&self, asset: &str, now: Timestamp) -> (r: Option<TimestampedPrice>)
        ensures
            r == if self.has_fresh_chainlink(asset@, now) {
                Some(self.chainlink()[asset@])
            } else {
                None
            },
    {
        match self.chainlink_prices.get(asset) {
            Some(cl) => if now.nanos_since(cl.timestamp) <= MAX_CHAINLINK_AGE_SECS as i128
                * 1_000_000_000 {
                Some(*cl)
            } else {
                None
            },
            None => None,
        }
    }

    /// Returns the best available price: Chainlink if enabled and fresh, else Hyperliquid.
    fn get_best_price(&self, asset: &str, now: Timestamp) -> (r: Option<TimestampedPrice>)
        ensures
            r == self.best_price(asset@, now),
    {
        if self.chainlink_enabled {
            if let Some(cl) = self.fresh_chainlink(asset, now) {
                return Some(cl);
            }
        }
        match self.hl_mid_prices.get(asset) {
            Some(hl) => Some(*hl),
            None => None,
        }
    }

    /// Clear open prices (called when rotating to a new market interval).
    pub fn clear_open_prices(&mut self)
        ensures
            final(self).open_prices() == Map::<Seq<char>, Binary64>::empty(),
            final(self).chainlink() == old(self).chainlink(),
            final(self).hyperliquid() == old(self).hyperliquid(),
            final(self).uses_chainlink() == old(self).uses_chainlink(),
    {
        self.market_open_prices.clear();
    }

    /// Whether there is any price of an asset, fresh or not.
    pub open spec fn has_any_price(&self, asset: Seq<char>) -> bool {
        self.chainlink().contains_key(asset) || self.hyperliquid().contains_key(asset)
    }

    /// Check if we have any price data for the given asset.
    pub fn has_price(&self, asset: &str) -> (r: bool)
        ensures
            r == self.has_any_price(asset@),
    {
        self.chainlink_prices.contains_key(asset) || self.hl_mid_prices.contains_key(asset)
    }
}

impl Default for PriceAggregator {
    fn default() -> (r: Self)
        ensures
            !r.uses_chainlink(),
            r.chainlink() == Map::<Seq<char>, TimestampedPrice>::empty(),
            r.hyperliquid() == Map::<Seq<char>, TimestampedPrice>::empty(),
            r.open_prices() == Map::<Seq<char>, Binary64>::empty(),
    {
        PriceAggregator::new(false)
    }
}

/// A Chainlink price decides only where Chainlink is enabled and the price is
/// fresh, no more than thirty seconds old, and there it does; a price that is too
/// old gives way to the one from Hyperliquid.
pub proof fn lemma_fresh_chainlink_decides(
    prices: &PriceAggregator,
    asset: Seq<char>,
    now: Timestamp,
)
    requires
        prices.chainlink().contains_key(asset),
    ensures
        ({
            let age = now.nanos() - prices.chainlink()[asset].timestamp.nanos();
            if prices.uses_chainlink() && age <= 30_000_000_000 {
                prices.best_price(asset, now) == Some(prices.chainlink()[asset])
            } else {
                prices.best_price(asset, now) == if prices.hyperliquid().contains_key(asset) {
                    Some(prices.hyperliquid()[asset])
                } else {
                    None
                }
            }
        }),
{
}

/// A market opens without a move: right after the opening price is set, the
/// move is nothing.
pub proof fn lemma_no_move_at_open(price: Binary64)
    requires
        price.finite(),
        Binary64::nothing().less(price),
    ensures
        change_bps(price, price) == Binary64::nothing(),
{
    reveal(Binary64::sum);
    reveal(Binary64::quotient);
    precision::lemma_signed(false, 0);
    precision::lemma_signed(true, price.rank());
    precision::lemma_order(Binary64::nothing(), price);
    precision::lemma_nothing_over(price);
    precision::lemma_ten_thousand();
    precision::lemma_nothing_times(Binary64::of_nat(10_000));
}

/// A price above the opening price is a positive move, and one below it a
/// negative one, however small the difference is.
pub proof fn lemma_move_has_direction(open: Binary64, price: Binary64)
    requires
        open.finite(),
        Binary64::nothing().less(open),
        price.finite(),
        Binary64::nothing().at_most(price),
    ensures
        open.less(price) ==> Binary64::nothing().less(change_bps(open, price)),
        price.less(open) ==> change_bps(open, price).less(Binary64::nothing()),
{
    precision::lemma_signed(false, 0);
    precision::lemma_order(Binary64::nothing(), open);
    precision::lemma_order(Binary64::nothing(), price);
    precision::lemma_order(open, price);
    precision::lemma_order(price, open);
    if open.units() != price.units() {
        precision::lemma_relative_difference(price, open);
        precision::lemma_ten_thousand();
        precision::lemma_product_grows(
            price.difference(open).quotient(open),
            Binary64::of_nat(10_000),
        );
    }
}

/// The same move, read from the state of an asset: it is nothing at the opening
/// price, positive above it and negative below it; twice the opening price is a
/// move of ten thousand basis points.
pub proof fn lemma_state_tells_move(
    prices: &PriceAggregator,
    state: PriceState,
    asset: Seq<char>,
    now: Timestamp,
)
    requires
        prices.describes(state, asset, now),
        prices.open_prices()[asset].finite(),
        Binary64::nothing().less(prices.open_prices()[asset]),
        state.price.finite(),
        Binary64::nothing().at_most(state.price),
    ensures
        ({
            let open = prices.open_prices()[asset];
            let bps = state.bps_from_open;
            &&& open.less(state.price) ==> Binary64::nothing().less(bps)
            &&& state.price.less(open) ==> bps.less(Binary64::nothing())
            &&& state.price.units() == open.units() ==> bps.rank() == 0
            &&& state.price.units() == 2 * open.units() ==> bps == Binary64::of_nat(10_000)
        }),
{
    let open = prices.open_prices()[asset];
    lemma_move_has_direction(open, state.price);
    lemma_move_scale(open, state.price);
}

/// No change is no move, and twice the price is a move of ten thousand basis
/// points.
pub proof fn lemma_move_scale(open: Binary64, price: Binary64)
    requires
        open.finite(),
        Binary64::nothing().less(open),
        price.finite(),
    ensures
        price.units() == open.units() ==> change_bps(open, price).rank() == 0,
        price.units() == 2 * open.units() ==> change_bps(open, price) == Binary64::of_nat(10_000),
{
    let k = Binary64::of_nat(10_000);
    let gap = price.difference(open);
    precision::lemma_signed(false, 0);
    precision::lemma_order(Binary64::nothing(), open);
    precision::lemma_ten_thousand();
    algebra::lemma_difference_sign(price, open);
    algebra::lemma_negated(open);
    if price.units() == open.units() {
        algebra::lemma_zero_over(gap, open);
        algebra::lemma_zero_times(gap.quotient(open), k);
    }
    if price.units() == 2 * open.units() {
        assert(gap == open) by {
            reveal(Binary64::sum);
            precision::lemma_rounding_exact(open.rank(), 1);
            assert(rounding::magnitude(open.rank()) * 1 == open.units());
        }
        algebra::lemma_self_quotient(open);
        algebra::lemma_times_one(k);
    }
}

/// A market that opens, or is rotated, starts without a move: the opening price
/// is the price of the moment.
pub proof fn lemma_opens_without_move(
    before: PriceAggregator,
    after: PriceAggregator,
    asset: Seq<char>,
    now: Timestamp,
    state: PriceState,
)
    requires
        after.opened(before, asset, now) || after.rotated(before, asset, now),
        before.best_price(asset, now) is Some,
        before.best_price(asset, now)->0.price.finite(),
        Binary64::nothing().less(before.best_price(asset, now)->0.price),
        after.describes(state, asset, now),
    ensures
        after.knows(asset, now),
        state.price == before.best_price(asset, now)->0.price,
        after.open_prices()[asset] == state.price,
        state.bps_from_open == Binary64::nothing(),
{
    lemma_no_move_at_open(state.price);
}

/// Opening or rotating the market of one asset leaves the others as they were,
/// and a rotation without any price leaves no opening price behind.
pub proof fn lemma_opening_keeps_others(
    before: PriceAggregator,
    after: PriceAggregator,
    asset: Seq<char>,
    other: Seq<char>,
    now: Timestamp,
)
    requires
        after.opened(before, asset, now) || after.rotated(before, asset, now),
    ensures
        after.best_price(asset, now) == before.best_price(asset, now),
        after.best_price(other, now) == before.best_price(other, now),
        other != asset ==> after.knows(other, now) == before.knows(other, now),
        other != asset && before.knows(other, now) ==> after.move_since_open(other, now)
            == before.move_since_open(other, now),
        after.rotated(before, asset, now) && before.best_price(asset, now) is None
            ==> !after.open_prices().contains_key(asset),
        before.best_price(asset, now) is Some ==> after.open_prices().contains_key(asset)
            && after.open_prices()[asset] == before.best_price(asset, now)->0.price,
{
}

/// Where no fresh Chainlink price counts, the price is the one from Hyperliquid,
/// and the source says which of the two it is.
pub proof fn lemma_source_is_told(
    prices: &PriceAggregator,
    state: PriceState,
    asset: Seq<char>,
    now: Timestamp,
)
    requires
        prices.describes(state, asset, now),
    ensures
        state.asset@ == asset,
        state.source is Chainlink ==> prices.uses_chainlink() && prices.chainlink().contains_key(
            asset,
        ) && state.price == prices.chainlink()[asset].price && state.timestamp
            == prices.chainlink()[asset].timestamp,
        state.source is Hyperliquid ==> prices.hyperliquid().contains_key(asset) && state.price
            == prices.hyperliquid()[asset].price && state.timestamp
            == prices.hyperliquid()[asset].timestamp,
        !prices.uses_chainlink() || !prices.chainlink().contains_key(asset)
            ==> state.source is Hyperliquid,
{
}

/// An asset has a price where either source has one, and so wherever a best price
/// can be told; without any there is none.
pub proof fn lemma_any_price(prices: &PriceAggregator, asset: Seq<char>, now: Timestamp)
    ensures
        prices.hyperliquid().contains_key(asset) ==> prices.has_any_price(asset)
            && prices.best_price(asset, now) is Some,
        prices.chainlink().contains_key(asset) ==> prices.has_any_price(asset),
        prices.best_price(asset, now) is Some ==> prices.has_any_price(asset),
        !prices.chainlink().contains_key(asset) && !prices.hyperliquid().contains_key(asset)
            ==> !prices.has_any_price(asset) && !prices.knows(asset, now),
        prices.knows(asset, now) ==> prices.open_prices().contains_key(asset),
{
}

} // verus!
