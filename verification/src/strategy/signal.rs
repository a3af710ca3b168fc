//! When to enter a position.

use crate::indicators::book_imbalance::ImbalanceState;
use crate::indicators::price_aggregator::PriceState;
use crate::number::algebra;
use crate::number::binary64::Binary64;
use crate::number::precision;
use crate::strategy::params::StrategyParams;
use vstd::prelude::*;
use vstd::string::*;

verus! {

/// Represents the direction of a trade signal.
#[derive(Debug, Clone, Copy, PartialEq, Eq, Structural)]
pub enum Direction {
    Up,
    Down,
}

/// An entry signal generated when conditions are met.
#[derive(Debug, PartialEq)]
pub struct EntrySignal {
    pub asset: String,
    pub direction: Direction,
    pub bps_move: Binary64,
    pub book_imbalance: Binary64,
    /// Which token to buy for Leg1 (YES if Up, NO if Down).
    pub leg1_side: Leg1Side,
}

#[derive(Debug, Clone, Copy, PartialEq, Eq, Structural)]
pub enum Leg1Side {
    Yes,
    No,
}

impl Clone for EntrySignal {
    fn clone(&self) -> (r: Self)
        ensures
            r == *self,
    {
        EntrySignal {
            asset: self.asset.clone(),
            direction: self.direction,
            bps_move: self.bps_move,
            book_imbalance: self.book_imbalance,
            leg1_side: self.leg1_side,
        }
    }
}

/// The direction of a move: up if it is positive.
pub open spec fn direction_of(bps_move: Binary64) -> Direction {
    if Binary64::nothing().less(bps_move) {
        Direction::Up
    } else {
        Direction::Down
    }
}

/// The token that gains from a direction.
pub open spec fn side_of(direction: Direction) -> Leg1Side {
    match direction {
        Direction::Up => Leg1Side::Yes,
        Direction::Down => Leg1Side::No,
    }
}

/// Whether the market is in the window for entries.
pub open spec fn in_entry_window(secs_since_open: u64, params: StrategyParams) -> bool {
    params.min_entry_time_secs <= secs_since_open <= params.max_entry_time_secs
}

/// Whether the book leans to the side of a direction by more than a threshold.
pub open spec fn leans(direction: Direction, imbalance: Binary64, threshold: Binary64) -> bool {
    match direction {
        Direction::Up => threshold.less(imbalance),
        Direction::Down => imbalance.less(threshold.negated()),
    }
}

/// Whether all conditions for an entry hold. A comparison with something that is
/// not a number does not stop an entry.
pub open spec fn entry_due(
    bps_move: Binary64,
    imbalance: Binary64,
    token_yes_price: Binary64,
    token_no_price: Binary64,
    secs_since_open: u64,
    params: StrategyParams,
) -> bool {
    let direction = direction_of(bps_move);
    let entry_price = match direction {
        Direction::Up => token_yes_price,
        Direction::Down => token_no_price,
    };
    &&& in_entry_window(secs_since_open, params)
    &&& !bps_move.absolute().less(params.entry_bps_threshold)
    &&& leans(direction, imbalance, params.book_imb_threshold)
    &&& !entry_price.less(params.min_entry_price)
    &&& !params.max_entry_price.less(entry_price)
}

/// The signal of an entry.
pub open spec fn entry_signal(asset: String, bps_move: Binary64, imbalance: Binary64) -> EntrySignal {
    EntrySignal {
        asset,
        direction: direction_of(bps_move),
        bps_move,
        book_imbalance: imbalance,
        leg1_side: side_of(direction_of(bps_move)),
    }
}

/// The signal that the conditions give, if any.
pub open spec fn entry_of(
    asset: String,
    bps_move: Binary64,
    imbalance: Binary64,
    token_yes_price: Binary64,
    token_no_price: Binary64,
    secs_since_open: u64,
    params: StrategyParams,
) -> Option<EntrySignal> {
    if entry_due(
        bps_move,
        imbalance,
        token_yes_price,
        token_no_price,
        secs_since_open,
        params,
    ) {
        Some(entry_signal(asset, bps_move, imbalance))
    } else {
        None
    }
}

/// What a signal tells of the market: it comes inside the time window and carries
/// the asset, the move and the imbalance that it was given for. Up means that the
/// move is positive and not below its threshold, that the imbalance is above its
/// threshold and that the YES token, which is bought, has a price in the range.
/// Down means that the move is not positive and not above minus its threshold,
/// that the imbalance is below minus its threshold and that the NO token, which
/// is bought, has a price in the range.
pub proof fn lemma_signal_meets_conditions(
    asset: String,
    bps_move: Binary64,
    imbalance: Binary64,
    yes: Binary64,
    no: Binary64,
    secs: u64,
    params: StrategyParams,
    signal: EntrySignal,
)
    requires
        entry_of(asset, bps_move, imbalance, yes, no, secs, params) == Some(signal),
    ensures
        signal.asset == asset,
        signal.bps_move == bps_move,
        signal.book_imbalance == imbalance,
        params.min_entry_time_secs <= secs,
        secs <= params.max_entry_time_secs,
        signal.direction is Up ==> {
            &&& signal.leg1_side is Yes
            &&& Binary64::nothing().less(bps_move)
            &&& !bps_move.less(params.entry_bps_threshold)
            &&& params.book_imb_threshold.less(imbalance)
            &&& !yes.less(params.min_entry_price)
            &&& !params.max_entry_price.less(yes)
        },
        signal.direction is Down ==> {
            &&& signal.leg1_side is No
            &&& !Binary64::nothing().less(bps_move)
            &&& !params.entry_bps_threshold.negated().less(bps_move)
            &&& imbalance.less(params.book_imb_threshold.negated())
            &&& !no.less(params.min_entry_price)
            &&& !params.max_entry_price.less(no)
        },
{
    let t = params.entry_bps_threshold;
    algebra::lemma_negated(bps_move);
    algebra::lemma_negated(t);
    precision::lemma_signed(false, 0);
}

/// A rise that is not below the threshold, with a book that leans to the bids by
/// more than its threshold and a YES price in the range, gives a signal in the
/// window, whatever the NO price is.
pub proof fn lemma_rise_gives_signal(
    asset: String,
    bps_move: Binary64,
    imbalance: Binary64,
    yes: Binary64,
    no: Binary64,
    secs: u64,
    params: StrategyParams,
)
    requires
        params.min_entry_time_secs <= secs <= params.max_entry_time_secs,
        Binary64::nothing().less(bps_move),
        params.entry_bps_threshold.at_most(bps_move),
        params.book_imb_threshold.less(imbalance),
        params.min_entry_price.at_most(yes),
        yes.at_most(params.max_entry_price),
    ensures
        entry_of(asset, bps_move, imbalance, yes, no, secs, params) is Some,
        entry_of(asset, bps_move, imbalance, yes, no, secs, params)->0.direction is Up,
        entry_of(asset, bps_move, imbalance, yes, no, secs, params)->0.leg1_side is Yes,
{
    algebra::lemma_negated(bps_move);
    precision::lemma_signed(false, 0);
}

/// A fall that is not above minus the threshold, with a book that leans to the
/// asks by more than its threshold and a NO price in the range, gives a signal in
/// the window, whatever the YES price is.
pub proof fn lemma_fall_gives_signal(
    asset: String,
    bps_move: Binary64,
    imbalance: Binary64,
    yes: Binary64,
    no: Binary64,
    secs: u64,
    params: StrategyParams,
)
    requires
        params.min_entry_time_secs <= secs <= params.max_entry_time_secs,
        bps_move.less(Binary64::nothing()),
        bps_move.at_most(params.entry_bps_threshold.negated()),
        imbalance.less(params.book_imb_threshold.negated()),
        params.min_entry_price.at_most(no),
        no.at_most(params.max_entry_price),
    ensures
        entry_of(asset, bps_move, imbalance, yes, no, secs, params) is Some,
        entry_of(asset, bps_move, imbalance, yes, no, secs, params)->0.direction is Down,
        entry_of(asset, bps_move, imbalance, yes, no, secs, params)->0.leg1_side is No,
{
    algebra::lemma_negated(bps_move);
    algebra::lemma_negated(params.entry_bps_threshold);
    precision::lemma_signed(false, 0);
}

/// The same signal, seen in the mirror.
pub open spec fn mirrored(signal: EntrySignal) -> EntrySignal {
    EntrySignal {
        asset: signal.asset,
        direction: match signal.direction {
            Direction::Up => Direction::Down,
            Direction::Down => Direction::Up,
        },
        bps_move: signal.bps_move.negated(),
        book_imbalance: signal.book_imbalance.negated(),
        leg1_side: match signal.leg1_side {
            Leg1Side::Yes => Leg1Side::No,
            Leg1Side::No => Leg1Side::Yes,
        },
    }
}

/// Up and Down are treated alike: with the move and the imbalance the other way
/// round and the two token prices swapped, the signal comes exactly when it came,
/// the other way round. Only a move that is zero or not a number has no mirror
/// image: it counts as Down.
pub proof fn lemma_signals_mirror(
    asset: String,
    bps_move: Binary64,
    imbalance: Binary64,
    yes: Binary64,
    no: Binary64,
    secs: u64,
    params: StrategyParams,
)
    requires
        !bps_move.undefined(),
        bps_move.rank() != 0,
    ensures
        match entry_of(asset, bps_move, imbalance, yes, no, secs, params) {
            Some(signal) => entry_of(
                asset,
                bps_move.negated(),
                imbalance.negated(),
                no,
                yes,
                secs,
                params,
            ) == Some(mirrored(signal)),
            None => entry_of(
                asset,
                bps_move.negated(),
                imbalance.negated(),
                no,
                yes,
                secs,
                params,
            ) is None,
        },
{
    algebra::lemma_negated(bps_move);
    algebra::lemma_negated(imbalance);
    algebra::lemma_negated(params.book_imb_threshold);
    precision::lemma_signed(false, 0);
    assert(bps_move.negated().absolute() == bps_move.absolute());
}

/// Whether the conditions of some parameters are at least as strict as those of
/// others.
pub open spec fn stricter(strict: StrategyParams, loose: StrategyParams) -> bool {
    &&& loose.entry_bps_threshold.at_most(strict.entry_bps_threshold)
    &&& loose.book_imb_threshold.at_most(strict.book_imb_threshold)
    &&& loose.min_entry_price.at_most(strict.min_entry_price)
    &&& strict.max_entry_price.at_most(loose.max_entry_price)
    &&& loose.min_entry_time_secs <= strict.min_entry_time_secs
    &&& strict.max_entry_time_secs <= loose.max_entry_time_secs
}

/// Raising a threshold, or narrowing a range, never adds a signal and never
/// changes one, in either direction.
pub proof fn lemma_stricter_adds_no_signal(
    asset: String,
    bps_move: Binary64,
    imbalance: Binary64,
    yes: Binary64,
    no: Binary64,
    secs: u64,
    strict: StrategyParams,
    loose: StrategyParams,
)
    requires
        stricter(strict, loose),
        entry_of(asset, bps_move, imbalance, yes, no, secs, strict) is Some,
    ensures
        entry_of(asset, bps_move, imbalance, yes, no, secs, loose) == entry_of(
            asset,
            bps_move,
            imbalance,
            yes,
            no,
            secs,
            strict,
        ),
{
    algebra::lemma_negated(strict.book_imb_threshold);
    algebra::lemma_negated(loose.book_imb_threshold);
}

/// A stronger move the same way, and a book that leans further the same way, keep
/// the signal.
pub proof fn lemma_stronger_move_keeps_signal(
    asset: String,
    bps_move: Binary64,
    stronger_move: Binary64,
    imbalance: Binary64,
    stronger_imbalance: Binary64,
    yes: Binary64,
    no: Binary64,
    secs: u64,
    params: StrategyParams,
)
    requires
        entry_of(asset, bps_move, imbalance, yes, no, secs, params) is Some,
        ({
            ||| Binary64::nothing().less(bps_move) && bps_move.at_most(stronger_move)
                && imbalance.at_most(stronger_imbalance)
            ||| bps_move.less(Binary64::nothing()) && stronger_move.at_most(bps_move)
                && stronger_imbalance.at_most(imbalance)
        }),
    ensures
        entry_of(asset, stronger_move, stronger_imbalance, yes, no, secs, params) is Some,
        entry_of(
            asset,
            stronger_move,
            stronger_imbalance,
            yes,
            no,
            secs,
            params,
        )->0.direction == entry_of(asset, bps_move, imbalance, yes, no, secs, params)->0.direction,
{
    algebra::lemma_negated(bps_move);
    algebra::lemma_negated(stronger_move);
    precision::lemma_signed(false, 0);
}

/// Evaluates whether entry conditions are met for a given asset.
/// Returns Some(EntrySignal) if all conditions pass, None otherwise.
pub fn evaluate_entry(
    price_state: &PriceState,
    imbalance: &ImbalanceState,
    token_yes_price: Binary64,
    token_no_price: Binary64,
    secs_since_open: u64,
    params: &StrategyParams,
) -> (r: Option<EntrySignal>)
    ensures
        r == entry_of(
            price_state.asset,
            price_state.bps_from_open,
            imbalance.imbalance,
            token_yes_price,
            token_no_price,
            secs_since_open,
            *params,
        ),
{
    // Time window check
    if secs_since_open < params.min_entry_time_secs || secs_since_open
        > params.max_entry_time_secs {
        return None;
    }
    let bps_move: Binary64 = price_state.bps_from_open;
    // BPS threshold check
    if bps_move.abs().is_below(params.entry_bps_threshold) {
        return None;
    }
    let direction: Direction = if bps_move.is_above(Binary64::zero()) {
        Direction::Up
    } else {
        Direction::Down
    };
    // Book imbalance alignment check
    let imb_aligned: bool = match direction {
        Direction::Up => imbalance.imbalance.is_above(params.book_imb_threshold),
        Direction::Down => imbalance.imbalance.is_below(params.book_imb_threshold.negate()),
    };
    if !imb_aligned {
        return None;
    }
    let (leg1_side, entry_price) = match direction {
        Direction::Up => (Leg1Side::Yes, token_yes_price),
        Direction::Down => (Leg1Side::No, token_no_price),
    };
    // Token price range check
    if entry_price.is_below(params.min_entry_price) || entry_price.is_above(
        params.max_entry_price,
    ) {
        return None;
    }
    Some(
        EntrySignal {
            asset: price_state.asset.clone(),
            direction,
            bps_move,
            book_imbalance: imbalance.imbalance,
            leg1_side,
        },
    )
}

} // verus!
