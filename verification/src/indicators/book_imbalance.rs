//! How the two sides of an order book weigh against each other.

use crate::feeds::hyperliquid::{HlBookSnapshot, PriceLevel};
use crate::number::algebra;
use crate::number::binary64::{Binary64, SIGN_BIT};
use crate::number::precision;
use crate::number::rounding;
use crate::utils::name_map::NameMap;
use vstd::prelude::*;
use vstd::string::*;

verus! {

/// Tracks order book imbalance from Hyperliquid LOB snapshots.
/// Imbalance = (bid_depth - ask_depth) / (bid_depth + ask_depth)
/// Range: [-1.0, +1.0] where +1.0 = all bids, -1.0 = all asks.
#[derive(Debug)]
pub struct BookImbalanceTracker {
    /// Number of top levels to consider for imbalance calculation.
    depth_levels: usize,
    /// Latest computed imbalance per asset.
    latest_imbalance: NameMap<ImbalanceState>,
}

/// Current book imbalance state for an asset.
#[derive(Debug, Clone, Copy, PartialEq)]
pub struct ImbalanceState {
    /// Overall imbalance [-1, +1].
    pub imbalance: Binary64,
    /// Total bid depth (in USD).
    pub bid_depth: Binary64,
    /// Total ask depth (in USD).
    pub ask_depth: Binary64,
    /// Top-of-book bid/ask ratio.
    pub tob_ratio: Binary64,
    /// Best bid price.
    pub best_bid: Binary64,
    /// Best ask price.
    pub best_ask: Binary64,
    /// Mid price.
    pub mid_price: Binary64,
    /// Spread in basis points.
    pub spread_bps: Binary64,
}

/// What the levels of one side are worth together. The sum starts from minus
/// zero, so that an empty side is worth minus zero.
pub open spec fn depth_of(levels: Seq<PriceLevel>) -> Binary64
    decreases levels.len(),
{
    if levels.len() == 0 {
        Binary64::signed(true, 0)
    } else {
        depth_of(levels.drop_last()).sum(levels.last().price.product(levels.last().size))
    }
}

/// The first levels of a side.
pub open spec fn top_levels(levels: Seq<PriceLevel>, n: nat) -> Seq<PriceLevel> {
    if n < levels.len() {
        levels.take(n as int)
    } else {
        levels
    }
}

/// The difference of the depths over their sum; zero where the sum is not
/// positive.
pub open spec fn imbalance_of(bid_depth: Binary64, ask_depth: Binary64) -> Binary64 {
    let total = bid_depth.sum(ask_depth);
    if Binary64::nothing().less(total) {
        bid_depth.difference(ask_depth).quotient(total)
    } else {
        Binary64::nothing()
    }
}

pub open spec fn first_price(levels: Seq<PriceLevel>) -> Binary64 {
    if levels.len() == 0 {
        Binary64::nothing()
    } else {
        levels[0].price
    }
}

pub open spec fn first_size(levels: Seq<PriceLevel>) -> Binary64 {
    if levels.len() == 0 {
        Binary64::nothing()
    } else {
        levels[0].size
    }
}

/// Half way between two prices; zero unless both are positive.
pub open spec fn middle(bid: Binary64, ask: Binary64) -> Binary64 {
    if Binary64::nothing().less(bid) && Binary64::nothing().less(ask) {
        bid.sum(ask).quotient(Binary64::of_nat(2))
    } else {
        Binary64::nothing()
    }
}

/// The gap between two prices, in basis points of the middle.
pub open spec fn spread(bid: Binary64, ask: Binary64) -> Binary64 {
    let mid = middle(bid, ask);
    if Binary64::nothing().less(mid) {
        ask.difference(bid).quotient(mid).product(Binary64::of_nat(10_000))
    } else {
        Binary64::nothing()
    }
}

/// The share of the bid in the sizes at the top; one half where they are not
/// positive together.
pub open spec fn top_ratio(bid: Binary64, ask: Binary64) -> Binary64 {
    let total = bid.sum(ask);
    if Binary64::nothing().less(total) {
        bid.quotient(total)
    } else {
        Binary64::of_ratio(1, 2)
    }
}

/// The state of a book, over its first `n` levels on each side.
pub open spec fn state_of(bids: Seq<PriceLevel>, asks: Seq<PriceLevel>, n: nat) -> ImbalanceState {
    let bid_depth = depth_of(top_levels(bids, n));
    let ask_depth = depth_of(top_levels(asks, n));
    ImbalanceState {
        imbalance: imbalance_of(bid_depth, ask_depth),
        bid_depth,
        ask_depth,
        tob_ratio: top_ratio(first_size(bids), first_size(asks)),
        best_bid: first_price(bids),
        best_ask: first_price(asks),
        mid_price: middle(first_price(bids), first_price(asks)),
        spread_bps: spread(first_price(bids), first_price(asks)),
    }
}

/// Whether an imbalance lies beyond a threshold on the side of a direction.
pub open spec fn aligned(
    imbalance: Binary64,
    bps_direction: Binary64,
    threshold: Binary64,
) -> bool {
    ||| Binary64::nothing().less(bps_direction) && threshold.less(imbalance)
    ||| bps_direction.less(Binary64::nothing()) && imbalance.less(threshold.negated())
}

fn sum_depth(levels: &Vec<PriceLevel>, n: usize) -> (r: Binary64)
    ensures
        r == depth_of(top_levels(levels@, n as nat)),
{
    let end: usize = if n < levels.len() { n } else { levels.len() };
    let ghost top = top_levels(levels@, n as nat);
    let mut total: Binary64 = Binary64::from_bits(SIGN_BIT);
    let mut i: usize = 0;
    assert(top.take(0) =~= Seq::<PriceLevel>::empty());
    while i < end
        invariant
            i <= end <= levels@.len(),
            top.len() == end,
            forall|j: int| 0 <= j < end ==> top[j] == levels@[j],
            total == depth_of(top.take(i as int)),
        decreases end - i,
    {
        assert(top.take(i + 1).drop_last() =~= top.take(i as int));
        total = total.plus(levels[i].price.times(levels[i].size));
        i = i + 1;
    }
    assert(top.take(i as int) =~= top);
    total
}

impl BookImbalanceTracker {
    /// How many levels count on each side.
    pub closed spec fn levels(&self) -> nat {
        self.depth_levels as nat
    }

    /// The latest states, by asset.
    pub closed spec fn latest(&self) -> Map<Seq<char>, ImbalanceState> {
        self.latest_imbalance@
    }

    pub fn new(depth_levels: usize) -> (r: Self)
        ensures
            r.levels() == depth_levels,
            r.latest() == Map::<Seq<char>, ImbalanceState>::empty(),
    {
        BookImbalanceTracker { depth_levels, latest_imbalance: NameMap::new() }
    }

    /// Process a new LOB snapshot and update the imbalance state.
    pub fn update(&mut self, snapshot: &HlBookSnapshot)
        ensures
            final(self).levels() == old(self).levels(),
            final(self).latest() == old(self).latest().insert(
                snapshot.asset@,
                state_of(snapshot.bids@, snapshot.asks@, old(self).levels()),
            ),
    {
        let zero: Binary64 = Binary64::zero();
        let bid_depth: Binary64 = sum_depth(&snapshot.bids, self.depth_levels);
        let ask_depth: Binary64 = sum_depth(&snapshot.asks, self.depth_levels);
        let total: Binary64 = bid_depth.plus(ask_depth);
        let imbalance: Binary64 = if total.is_above(zero) {
            bid_depth.minus(ask_depth).over(total)
        } else {
            zero
        };
        let (best_bid, tob_bid) = if snapshot.bids.len() > 0 {
            (snapshot.bids[0].price, snapshot.bids[0].size)
        } else {
            (zero, zero)
        };
        let (best_ask, tob_ask) = if snapshot.asks.len() > 0 {
            (snapshot.asks[0].price, snapshot.asks[0].size)
        } else {
            (zero, zero)
        };
        let mid_price: Binary64 = if best_bid.is_above(zero) && best_ask.is_above(zero) {
            best_bid.plus(best_ask).over(Binary64::from_u64(2))
        } else {
            zero
        };
        let spread_bps: Binary64 = if mid_price.is_above(zero) {
            best_ask.minus(best_bid).over(mid_price).times(Binary64::from_u64(10_000))
        } else {
            zero
        };
        let tob_total: Binary64 = tob_bid.plus(tob_ask);
        let tob_ratio: Binary64 = if tob_total.is_above(zero) {
            tob_bid.over(tob_total)
        } else {
            Binary64::ratio(1, 2)
        };
        let state = ImbalanceState {
            imbalance,
            bid_depth,
            ask_depth,
            tob_ratio,
            best_bid,
            best_ask,
            mid_price,
            spread_bps,
        };
        self.latest_imbalance.insert(snapshot.asset.clone(), state);
    }

    /// Get the latest imbalance state for an asset.
    pub fn get(&self, asset: &str) -> (r: Option<&ImbalanceState>)
        ensures
            r == if self.latest().contains_key(asset@) {
                Some(&self.latest()[asset@])
            } else {
                None
            },
    {
        self.latest_imbalance.get(asset)
    }

    /// Returns true if the imbalance is directionally aligned with the given sign.
    /// sign > 0 means bullish (price going up), sign < 0 means bearish.
    pub fn is_aligned(&self, asset: &str, bps_direction: Binary64, threshold: Binary64) -> (r: bool)
        ensures
            r == (self.latest().contains_key(asset@) && aligned(
                self.latest()[asset@].imbalance,
                bps_direction,
                threshold,
            )),
    {
        if let Some(state) = self.get(asset) {
            if bps_direction.is_above(Binary64::zero()) {
                state.imbalance.is_above(threshold)
            } else if bps_direction.is_below(Binary64::zero()) {
                state.imbalance.is_below(threshold.negate())
            } else {
                false
            }
        } else {
            false
        }
    }
}

/// A finite number that is not negative.
pub open spec fn countable(x: Binary64) -> bool {
    x.finite() && 0 <= x.units()
}

/// A level whose numbers make sense.
pub open spec fn sound(level: PriceLevel) -> bool {
    countable(level.price) && countable(level.size)
}

proof fn lemma_not_negative(x: Binary64)
    requires
        x.finite(),
        0 <= x.units(),
    ensures
        x.units() == rounding::magnitude(x.rank()),
        x.order() >= 0,
{
    if 0 < x.rank() {
        rounding::lemma_magnitude_increases(0, x.rank());
    }
}

/// Levels whose numbers make sense are not worth less than nothing.
pub proof fn lemma_depth_not_negative(levels: Seq<PriceLevel>)
    requires
        forall|i: int| 0 <= i < levels.len() ==> sound(#[trigger] levels[i]),
    ensures
        !depth_of(levels).undefined(),
        depth_of(levels).order() >= 0,
    decreases levels.len(),
{
    if levels.len() > 0 {
        let rest = levels.drop_last();
        assert forall|i: int| 0 <= i < rest.len() implies sound(#[trigger] rest[i]) by {
            assert(sound(levels[i]));
        }
        lemma_depth_not_negative(rest);
        assert(sound(levels[levels.len() - 1]));
        let a = depth_of(rest);
        let b = levels.last().price.product(levels.last().size);
        lemma_value_not_negative(levels.last().price, levels.last().size);
        lemma_sum_not_negative(a, b);
    }
}

proof fn lemma_value_not_negative(price: Binary64, size: Binary64)
    requires
        countable(price),
        countable(size),
    ensures
        !price.product(size).undefined(),
        price.product(size).order() >= 0,
{
    reveal(Binary64::product);
    lemma_not_negative(price);
    lemma_not_negative(size);
    let x = rounding::magnitude(price.rank());
    let y = rounding::magnitude(size.rank());
    vstd::arithmetic::power2::lemma_pow2_pos(rounding::UNIT_EXPONENT as nat);
    rounding::lemma_rounded(x * y, precision::one());
    let negative = price.negative() != size.negative();
    if negative {
        assert(x * y == 0) by (nonlinear_arith)
            requires
                x == 0 || y == 0,
        ;
        precision::lemma_rounding_exact(0, precision::one());
        assert(rounding::magnitude(0) * precision::one() == 0) by (nonlinear_arith)
            requires
                rounding::magnitude(0) == 0,
        ;
    }
    precision::lemma_signed(negative, rounding::rounded(x * y, precision::one()));
}

proof fn lemma_sum_not_negative(a: Binary64, b: Binary64)
    requires
        !a.undefined(),
        !b.undefined(),
        a.order() >= 0,
        b.order() >= 0,
    ensures
        !a.sum(b).undefined(),
        a.sum(b).order() >= 0,
{
    reveal(Binary64::sum);
    if a.finite() && b.finite() {
        let exact = a.units() + b.units();
        if exact == 0 {
            precision::lemma_signed(a.negative() && b.negative(), 0);
        } else {
            rounding::lemma_rounded(exact as nat, 1);
            precision::lemma_signed(false, rounding::rounded(exact as nat, 1));
        }
    }
}

/// The imbalance lies between minus one, all asks, and plus one, all bids.
pub proof fn lemma_imbalance_range(bid_depth: Binary64, ask_depth: Binary64)
    requires
        countable(bid_depth),
        countable(ask_depth),
    ensures
        imbalance_of(bid_depth, ask_depth).at_most(Binary64::of_nat(1)),
        Binary64::of_nat(1).negated().at_most(imbalance_of(bid_depth, ask_depth)),
{
    let one = Binary64::of_nat(1);
    let u = precision::one();
    vstd::arithmetic::power2::lemma_pow2_pos(rounding::UNIT_EXPONENT as nat);
    precision::lemma_one();
    precision::lemma_signed(false, 0);
    precision::lemma_order(Binary64::nothing(), one);
    precision::lemma_signed(!one.negative(), one.rank());
    lemma_not_negative(bid_depth);
    lemma_not_negative(ask_depth);
    let total = bid_depth.sum(ask_depth);
    let x = bid_depth.units();
    let y = ask_depth.units();
    if Binary64::nothing().less(total) {
        let gap = if x >= y { (x - y) as nat } else { (y - x) as nat };
        let near = rounding::rounded(gap, 1);
        let far = rounding::rounded((x + y) as nat, 1);
        let diff = bid_depth.difference(ask_depth);
        precision::lemma_signed(!ask_depth.negative(), ask_depth.rank());
        precision::lemma_rounding_keeps_order(gap, 1, (x + y) as nat, 1);
        // The gap is no larger than the larger side, which is finite.
        let larger = if x >= y { bid_depth.rank() } else { ask_depth.rank() };
        precision::lemma_rounding_exact(larger, 1);
        precision::lemma_rounding_keeps_order(gap, 1, rounding::magnitude(larger) * 1, 1);
        assert(diff.finite() && (diff.rank() == near || diff.rank() == 0) && total.rank() == far)
            by {
            reveal(Binary64::sum);
            rounding::lemma_rounded((x + y) as nat, 1);
            precision::lemma_signed(false, far);
            precision::lemma_signed(x < y, near);
            precision::lemma_signed(false, 0);
            precision::lemma_signed(true, 0);
        }
        reveal(Binary64::quotient);
        let negative = diff.negative() != total.negative();
        precision::lemma_signed(negative, 0);
        if total.finite() {
            let n = rounding::magnitude(diff.rank());
            let d = rounding::magnitude(total.rank());
            rounding::lemma_magnitude_increases(0, total.rank());
            if diff.rank() < total.rank() {
                rounding::lemma_magnitude_increases(diff.rank(), total.rank());
            }
            assert((n * u) * d <= (u * d) * d) by (nonlinear_arith)
                requires
                    n <= d,
                    u > 0,
            ;
            precision::lemma_rounding_keeps_order(n * u, d, u * d, d);
            lemma_not_negative(one);
            precision::lemma_rounding_exact(one.rank(), d);
            precision::lemma_signed(negative, rounding::rounded(n * u, d));
        }
    }
}

/// The share of the bid at the top of the book lies between zero and one.
#[verifier::spinoff_prover]
pub proof fn lemma_top_ratio_range(bid: Binary64, ask: Binary64)
    requires
        countable(bid),
        countable(ask),
    ensures
        Binary64::nothing().at_most(top_ratio(bid, ask)),
        top_ratio(bid, ask).at_most(Binary64::of_nat(1)),
{
    let total = bid.sum(ask);
    let x = bid.units();
    let y = ask.units();
    lemma_not_negative(bid);
    lemma_not_negative(ask);
    precision::lemma_one();
    precision::lemma_signed(false, 0);
    precision::lemma_order(Binary64::nothing(), Binary64::of_nat(1));
    if Binary64::nothing().less(total) {
        let far = rounding::rounded((x + y) as nat, 1);
        precision::lemma_rounding_exact(bid.rank(), 1);
        precision::lemma_rounding_keeps_order(
            rounding::magnitude(bid.rank()) * 1,
            1,
            (x + y) as nat,
            1,
        );
        assert(total == Binary64::signed(false, far)) by {
            reveal(Binary64::sum);
            precision::lemma_signed(false, 0);
            precision::lemma_signed(true, 0);
        }
        rounding::lemma_rounded((x + y) as nat, 1);
        precision::lemma_signed(false, far);
        if total.finite() && !bid.negative() {
            precision::lemma_share(bid, total);
        } else {
            reveal(Binary64::quotient);
            precision::lemma_signed(true, 0);
            if total.finite() {
                rounding::lemma_magnitude_increases(0, far);
                precision::lemma_rounding_exact(0, rounding::magnitude(far));
                assert(rounding::magnitude(0) * precision::one() == 0 && rounding::magnitude(0)
                    * rounding::magnitude(far) == 0) by (nonlinear_arith)
                    requires
                        rounding::magnitude(0) == 0,
                ;
            }
            let share = bid.quotient(total);
            assert(share.rank() == 0 && !share.undefined());
            precision::lemma_order(Binary64::nothing(), share);
            precision::lemma_order(share, Binary64::of_nat(1));
        }
    } else {
        precision::lemma_ratio_close(1, 2);
        let half = Binary64::of_ratio(1, 2);
        assert(top_ratio(bid, ask) == half);
        precision::lemma_order(half, Binary64::of_nat(1));
        precision::lemma_order(Binary64::nothing(), half);
    }
}

/// Whether two sides of a book hold the same levels as far as the first `n`.
pub open spec fn same_top(a: Seq<PriceLevel>, b: Seq<PriceLevel>, n: nat) -> bool {
    &&& a.len() == b.len() || (n <= a.len() && n <= b.len())
    &&& forall|i: int| 0 <= i < n && i < a.len() && i < b.len() ==> a[i] == b[i]
}

proof fn lemma_same_top(a: Seq<PriceLevel>, b: Seq<PriceLevel>, n: nat)
    requires
        same_top(a, b, n),
    ensures
        top_levels(a, n) == top_levels(b, n),
{
    assert(top_levels(a, n) =~= top_levels(b, n));
}

/// Only the first levels count: two books that hold the same levels as far as the
/// first `n` of either side have the same depths and the same imbalance, whatever
/// lies beyond on either side; if any level counts at all, the rest of their
/// state is the same too.
pub proof fn lemma_deep_levels_do_not_count(
    bids: Seq<PriceLevel>,
    asks: Seq<PriceLevel>,
    other_bids: Seq<PriceLevel>,
    other_asks: Seq<PriceLevel>,
    n: nat,
)
    requires
        same_top(bids, other_bids, n),
        same_top(asks, other_asks, n),
    ensures
        state_of(bids, asks, n).bid_depth == state_of(other_bids, other_asks, n).bid_depth,
        state_of(bids, asks, n).ask_depth == state_of(other_bids, other_asks, n).ask_depth,
        state_of(bids, asks, n).imbalance == state_of(other_bids, other_asks, n).imbalance,
        n > 0 ==> state_of(bids, asks, n) == state_of(other_bids, other_asks, n),
{
    lemma_same_top(bids, other_bids, n);
    lemma_same_top(asks, other_asks, n);
}

/// Levels behind the first `n` may come and go on either side.
pub proof fn lemma_more_levels_do_not_count(
    bids: Seq<PriceLevel>,
    asks: Seq<PriceLevel>,
    more_bids: Seq<PriceLevel>,
    more_asks: Seq<PriceLevel>,
    n: nat,
)
    requires
        n <= bids.len(),
        n <= asks.len(),
    ensures
        state_of(bids + more_bids, asks + more_asks, n).bid_depth == state_of(
            bids,
            asks,
            n,
        ).bid_depth,
        state_of(bids + more_bids, asks + more_asks, n).ask_depth == state_of(
            bids,
            asks,
            n,
        ).ask_depth,
        state_of(bids + more_bids, asks + more_asks, n).imbalance == state_of(
            bids,
            asks,
            n,
        ).imbalance,
{
    lemma_deep_levels_do_not_count(bids + more_bids, asks + more_asks, bids, asks, n);
}

/// Every one of the first levels counts, on either side: behind fewer than `n`
/// levels another one adds its price times its size to the depth of its side and
/// nothing to that of the other.
pub proof fn lemma_first_levels_count(
    bids: Seq<PriceLevel>,
    asks: Seq<PriceLevel>,
    level: PriceLevel,
    n: nat,
)
    ensures
        bids.len() < n ==> state_of(bids.push(level), asks, n).bid_depth == state_of(
            bids,
            asks,
            n,
        ).bid_depth.sum(level.price.product(level.size)),
        asks.len() < n ==> state_of(bids, asks.push(level), n).ask_depth == state_of(
            bids,
            asks,
            n,
        ).ask_depth.sum(level.price.product(level.size)),
        state_of(bids.push(level), asks, n).ask_depth == state_of(bids, asks, n).ask_depth,
        state_of(bids, asks.push(level), n).bid_depth == state_of(bids, asks, n).bid_depth,
        bids.len() == 0 || n == 0 ==> state_of(bids, asks, n).bid_depth.rank() == 0,
        asks.len() == 0 || n == 0 ==> state_of(bids, asks, n).ask_depth.rank() == 0,
{
    precision::lemma_signed(true, 0);
    if bids.len() < n {
        assert(top_levels(bids.push(level), n) =~= bids.push(level));
        assert(bids.push(level).drop_last() =~= bids);
        assert(top_levels(bids, n) == bids);
    }
    if asks.len() < n {
        assert(top_levels(asks.push(level), n) =~= asks.push(level));
        assert(asks.push(level).drop_last() =~= asks);
        assert(top_levels(asks, n) == asks);
    }
}

/// Whether one number is the other with the opposite sign; zero and what is not a
/// number are their own opposites.
pub open spec fn opposite(a: Binary64, b: Binary64) -> bool {
    ||| a == b.negated()
    ||| a.rank() == 0 && b.rank() == 0
    ||| a.undefined() && b.undefined()
}

/// The two sides are treated alike: swapping them swaps the depths and the best
/// prices, turns the imbalance and the spread round, and keeps the middle.
pub proof fn lemma_sides_mirror(bids: Seq<PriceLevel>, asks: Seq<PriceLevel>, n: nat)
    ensures
        ({
            let state = state_of(bids, asks, n);
            let swapped = state_of(asks, bids, n);
            &&& swapped.bid_depth == state.ask_depth
            &&& swapped.ask_depth == state.bid_depth
            &&& opposite(swapped.imbalance, state.imbalance)
            &&& swapped.best_bid == state.best_ask
            &&& swapped.best_ask == state.best_bid
            &&& swapped.mid_price == state.mid_price
            &&& opposite(swapped.spread_bps, state.spread_bps)
        }),
{
    let state = state_of(bids, asks, n);
    precision::lemma_signed(false, 0);
    lemma_difference_over_mirrors(
        state.bid_depth,
        state.ask_depth,
        state.bid_depth.sum(state.ask_depth),
    );
    algebra::lemma_sum_commutes(state.bid_depth, state.ask_depth);
    algebra::lemma_sum_commutes(state.best_bid, state.best_ask);
    let mid = state.mid_price;
    lemma_difference_over_mirrors(state.best_ask, state.best_bid, mid);
    let a = state.best_ask.difference(state.best_bid).quotient(mid);
    let b = state.best_bid.difference(state.best_ask).quotient(mid);
    if Binary64::nothing().less(mid) {
        lemma_opposite_scaled(b, a);
    }
}

/// Opposite numbers stay opposite when they are multiplied by ten thousand.
proof fn lemma_opposite_scaled(a: Binary64, b: Binary64)
    requires
        opposite(a, b),
    ensures
        opposite(a.product(Binary64::of_nat(10_000)), b.product(Binary64::of_nat(10_000))),
{
    let k = Binary64::of_nat(10_000);
    precision::lemma_ten_thousand();
    algebra::lemma_product_negated(b, k);
    if a.undefined() && b.undefined() {
        reveal(Binary64::product);
    } else if a.rank() == 0 && b.rank() == 0 {
        algebra::lemma_zero_times(a, k);
        algebra::lemma_zero_times(b, k);
    }
}

/// A difference over a positive number turns round with the difference.
proof fn lemma_difference_over_mirrors(a: Binary64, b: Binary64, total: Binary64)
    ensures
        Binary64::nothing().less(total) ==> opposite(
            b.difference(a).quotient(total),
            a.difference(b).quotient(total),
        ),
{
    let d = a.difference(b);
    let e = b.difference(a);
    precision::lemma_signed(false, 0);
    algebra::lemma_difference_mirrors(a, b);
    algebra::lemma_quotient_negated(d, total);
    if Binary64::nothing().less(total) {
        if d.undefined() && e.undefined() {
            reveal(Binary64::quotient);
        } else if d.rank() == 0 && e.rank() == 0 {
            algebra::lemma_zero_over(d, total);
            algebra::lemma_zero_over(e, total);
        }
    }
}

/// The imbalance leans to the heavier side, and says how much: it is nothing
/// where the depths are equal, one where all is on the side of the bids, minus
/// one where all is on the side of the asks; and where the sum and the difference
/// of the depths are exact, it is the double nearest to their ratio.
pub proof fn lemma_imbalance_leans(bid_depth: Binary64, ask_depth: Binary64)
    requires
        countable(bid_depth),
        countable(ask_depth),
        bid_depth.sum(ask_depth).finite(),
    ensures
        ({
            let r = imbalance_of(bid_depth, ask_depth);
            let x = bid_depth.units();
            let y = ask_depth.units();
            &&& !r.undefined()
            &&& x == y ==> r.rank() == 0
            &&& x > y ==> Binary64::nothing().less(r)
            &&& x < y ==> r.less(Binary64::nothing())
            &&& x > 0 && y == 0 ==> r == Binary64::of_nat(1)
            &&& x == 0 && y > 0 ==> r == Binary64::of_nat(1).negated()
            &&& x >= y && x > 0 && bid_depth.sum(ask_depth).units() == x + y
                && bid_depth.difference(ask_depth).units() == x - y ==> r == Binary64::of_ratio(
                (x - y) as nat,
                (x + y) as nat,
            )
            &&& x < y && bid_depth.sum(ask_depth).units() == x + y
                && bid_depth.difference(ask_depth).units() == x - y ==> r == Binary64::of_ratio(
                (y - x) as nat,
                (x + y) as nat,
            ).negated()
        }),
{
    let x = bid_depth.units();
    let y = ask_depth.units();
    let total = bid_depth.sum(ask_depth);
    let diff = bid_depth.difference(ask_depth);
    precision::lemma_signed(false, 0);
    algebra::lemma_negated(ask_depth);
    algebra::lemma_negated(bid_depth);
    algebra::lemma_sum_sign(bid_depth, ask_depth);
    algebra::lemma_difference_sign(bid_depth, ask_depth);
    algebra::lemma_difference_finite(bid_depth, ask_depth);
    algebra::lemma_difference_finite(ask_depth, bid_depth);
    precision::lemma_order(bid_depth, ask_depth);
    precision::lemma_order(ask_depth, bid_depth);
    if x + y > 0 {
        if x == y {
            algebra::lemma_zero_over(diff, total);
            reveal(Binary64::sum);
            algebra::lemma_quotient_is_ratio(diff, total);
        } else {
            algebra::lemma_gap_over_sum(bid_depth, ask_depth);
            if x > y {
                if y == 0 {
                    algebra::lemma_plus_zero(bid_depth, ask_depth);
                    algebra::lemma_plus_zero(bid_depth, ask_depth.negated());
                    algebra::lemma_self_quotient(bid_depth);
                }
                algebra::lemma_quotient_is_ratio(diff, total);
            } else {
                algebra::lemma_difference_mirrors(bid_depth, ask_depth);
                let back = ask_depth.difference(bid_depth);
                algebra::lemma_difference_sign(ask_depth, bid_depth);
                algebra::lemma_negated(diff);
                algebra::lemma_negated(back);
                algebra::lemma_quotient_negated(back, total);
                algebra::lemma_quotient_is_ratio(back, total);
                if x == 0 {
                    algebra::lemma_sum_commutes(bid_depth, ask_depth);
                    algebra::lemma_plus_zero(ask_depth, bid_depth);
                    algebra::lemma_plus_zero(ask_depth, bid_depth.negated());
                    algebra::lemma_self_quotient(ask_depth);
                }
            }
        }
    }
}

/// The middle does not care which price is the bid. Where both prices are
/// positive it lies between them, and is the double nearest to half their sum
/// where that is exact; else it is nothing.
pub proof fn lemma_middle_between(bid: Binary64, ask: Binary64)
    requires
        countable(bid),
        countable(ask),
        bid.sum(ask).finite(),
    ensures
        middle(bid, ask) == middle(ask, bid),
        bid.units() == 0 || ask.units() == 0 ==> middle(bid, ask) == Binary64::nothing(),
        bid.units() > 0 && ask.units() > 0 ==> middle(bid, ask) == Binary64::of_ratio(
            bid.sum(ask).units() as nat,
            (2 * precision::one()) as nat,
        ),
        0 < bid.units() <= ask.units() ==> bid.at_most(middle(bid, ask)) && middle(
            bid,
            ask,
        ).at_most(ask),
        0 < ask.units() <= bid.units() ==> ask.at_most(middle(bid, ask)) && middle(
            bid,
            ask,
        ).at_most(bid),
{
    precision::lemma_signed(false, 0);
    precision::lemma_order(Binary64::nothing(), bid);
    precision::lemma_order(Binary64::nothing(), ask);
    algebra::lemma_sum_commutes(bid, ask);
    if bid.units() > 0 && ask.units() > 0 {
        algebra::lemma_half_of_sum(bid, ask);
        algebra::lemma_half_of_sum(ask, bid);
    }
}

/// Nothing is spread between equal prices, and the spread has the sign of the ask
/// less the bid; a gap as wide as the middle is ten thousand basis points.
pub proof fn lemma_spread_sign(bid: Binary64, ask: Binary64)
    requires
        countable(bid),
        countable(ask),
        bid.sum(ask).finite(),
    ensures
        bid.units() == ask.units() ==> spread(bid, ask).rank() == 0,
        0 < bid.units() < ask.units() ==> Binary64::nothing().less(spread(bid, ask)),
        0 < ask.units() < bid.units() ==> spread(bid, ask).less(Binary64::nothing()),
        bid.units() > 0 && ask.units() > 0 && ask.difference(bid) == middle(bid, ask) ==> spread(
            bid,
            ask,
        ) == Binary64::of_nat(10_000),
{
    let mid = middle(bid, ask);
    let k = Binary64::of_nat(10_000);
    precision::lemma_signed(false, 0);
    precision::lemma_order(Binary64::nothing(), bid);
    precision::lemma_order(Binary64::nothing(), ask);
    precision::lemma_ten_thousand();
    if bid.units() > 0 && ask.units() > 0 {
        lemma_middle_between(bid, ask);
        precision::lemma_order(Binary64::nothing(), mid);
        precision::lemma_one();
        precision::lemma_order(Binary64::of_nat(1), k);
        assert(mid.finite() && mid.units() > 0 && (mid.units() <= bid.units() || mid.units()
            <= ask.units())) by {
            let small = if bid.units() <= ask.units() { bid } else { ask };
            let large = if bid.units() <= ask.units() { ask } else { bid };
            assert(small.at_most(mid) && mid.at_most(large));
            lemma_not_negative(small);
            lemma_not_negative(large);
            precision::lemma_order(small, mid);
            precision::lemma_order(mid, large);
        }
        algebra::lemma_difference_sign(ask, bid);
        precision::lemma_order(bid, ask);
        precision::lemma_order(ask, bid);
        let gap = ask.difference(bid);
        if bid.units() == ask.units() {
            algebra::lemma_zero_over(gap, mid);
            algebra::lemma_zero_times(gap.quotient(mid), k);
        } else {
            algebra::lemma_gap_over(ask, bid, mid);
            let relative = gap.quotient(mid);
            if relative.finite() {
                algebra::lemma_scaled_sign(relative, k);
            } else {
                algebra::lemma_scaled_infinity(relative, k);
            }
        }
        if gap == mid {
            algebra::lemma_self_quotient(mid);
            algebra::lemma_times_one(k);
        }
    }
}

/// The share of the bid at the top is one where there is no ask, nothing where
/// there is no bid, and one half where they are equal.
pub proof fn lemma_top_ratio_tells_bid(bid: Binary64, ask: Binary64)
    requires
        countable(bid),
        countable(ask),
        bid.sum(ask).finite(),
    ensures
        bid.units() > 0 && ask.units() == 0 ==> top_ratio(bid, ask) == Binary64::of_nat(1),
        bid.units() == 0 && ask.units() > 0 ==> top_ratio(bid, ask).rank() == 0,
        bid.units() > 0 && bid.sum(ask).units() == bid.units() + ask.units() ==> top_ratio(bid, ask)
            == Binary64::of_ratio(bid.units() as nat, (bid.units() + ask.units()) as nat),
        bid.units() == ask.units() && bid.sum(ask).units() == 2 * bid.units() ==> top_ratio(
            bid,
            ask,
        ) == Binary64::of_ratio(1, 2),
{
    let total = bid.sum(ask);
    precision::lemma_signed(false, 0);
    algebra::lemma_sum_sign(bid, ask);
    if bid.units() > 0 {
        lemma_not_negative(bid);
        algebra::lemma_quotient_is_ratio(bid, total);
        if ask.units() == 0 {
            algebra::lemma_plus_zero(bid, ask);
            algebra::lemma_self_quotient(bid);
        }
        if bid.units() == ask.units() {
            algebra::lemma_ratio_cancels(1, 2, bid.units() as nat);
        }
    } else if ask.units() > 0 {
        if bid.rank() > 0 {
            rounding::lemma_magnitude_increases(0, bid.rank());
        }
        algebra::lemma_zero_over(bid, total);
    }
}

/// A rise is aligned with an imbalance above the threshold and a fall with one
/// below minus the threshold; without a direction nothing is. The two directions
/// are treated alike, and a higher threshold aligns nothing more.
pub proof fn lemma_alignment(
    imbalance: Binary64,
    direction: Binary64,
    threshold: Binary64,
    higher: Binary64,
)
    ensures
        Binary64::nothing().less(direction) ==> (aligned(imbalance, direction, threshold)
            <==> threshold.less(imbalance)),
        direction.less(Binary64::nothing()) ==> (aligned(imbalance, direction, threshold)
            <==> imbalance.less(threshold.negated())),
        direction.rank() == 0 || direction.undefined() ==> !aligned(
            imbalance,
            direction,
            threshold,
        ),
        aligned(imbalance.negated(), direction.negated(), threshold) <==> aligned(
            imbalance,
            direction,
            threshold,
        ),
        threshold.at_most(higher) && aligned(imbalance, direction, higher) ==> aligned(
            imbalance,
            direction,
            threshold,
        ),
{
    precision::lemma_signed(false, 0);
    algebra::lemma_negated(imbalance);
    algebra::lemma_negated(direction);
    algebra::lemma_negated(threshold);
    algebra::lemma_negated(higher);
}

/// An empty side has no best price, and a side with levels has that of its first
/// one.
pub proof fn lemma_best_is_first(
    bids: Seq<PriceLevel>,
    asks: Seq<PriceLevel>,
    n: nat,
)
    ensures
        state_of(bids, asks, n).best_bid == if bids.len() > 0 {
            bids[0].price
        } else {
            Binary64::nothing()
        },
        state_of(bids, asks, n).best_ask == if asks.len() > 0 {
            asks[0].price
        } else {
            Binary64::nothing()
        },
        state_of(bids, asks, n).mid_price == middle(
            state_of(bids, asks, n).best_bid,
            state_of(bids, asks, n).best_ask,
        ),
        state_of(bids, asks, n).spread_bps == spread(
            state_of(bids, asks, n).best_bid,
            state_of(bids, asks, n).best_ask,
        ),
        state_of(bids, asks, n).imbalance == imbalance_of(
            state_of(bids, asks, n).bid_depth,
            state_of(bids, asks, n).ask_depth,
        ),
        state_of(bids, asks, n).tob_ratio == top_ratio(
            if bids.len() > 0 {
                bids[0].size
            } else {
                Binary64::nothing()
            },
            if asks.len() > 0 {
                asks[0].size
            } else {
                Binary64::nothing()
            },
        ),
{
}

/// Where the depths are not positive together the imbalance is nothing; where the
/// sizes at the top are not, the share is one half; and without two positive
/// prices there is neither a middle nor a spread.
pub proof fn lemma_nothing_to_weigh(bid: Binary64, ask: Binary64)
    ensures
        !Binary64::nothing().less(bid.sum(ask)) ==> imbalance_of(bid, ask) == Binary64::nothing()
            && top_ratio(bid, ask) == Binary64::of_ratio(1, 2),
        !(Binary64::nothing().less(bid) && Binary64::nothing().less(ask)) ==> middle(bid, ask)
            == Binary64::nothing() && spread(bid, ask) == Binary64::nothing(),
{
    precision::lemma_signed(false, 0);
}

} // verus!
