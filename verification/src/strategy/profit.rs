//! Why a lock pays.

use crate::config::Config;
use crate::number::binary64::Binary64;
use crate::number::precision;
use crate::number::rounding;
use crate::strategy::leg_manager;
use crate::strategy::leg_manager::{LegAction, LegManager, LegState};
use crate::strategy::params::StrategyParams;
use crate::utils::clock::Timestamp;
use vstd::prelude::*;

verus! {

/// A number from zero to one.
pub open spec fn fraction(x: Binary64) -> bool {
    x.finite() && 0 <= x.units() <= precision::one()
}

/// Whether the profit asked for covers what the price limit of the second leg
/// leaves out, the fee on the slippage, by more than the arithmetic can lose:
/// one part in two to the power 44.
pub open spec fn covers_costs(params: StrategyParams) -> bool {
    let u = precision::one();
    &&& fraction(params.slippage_cents)
    &&& fraction(params.taker_fee_rate)
    &&& fraction(params.min_profit_per_share)
    &&& params.maker_fee_rate == Binary64::nothing()
    &&& (params.min_profit_per_share.units() * u - params.slippage_cents.units()
        * params.taker_fee_rate.units()) * precision::grain() > 16 * (u * u)
}

proof fn lemma_unit()
    ensures
        precision::one() > 0,
{
    vstd::arithmetic::power2::lemma_pow2_pos(rounding::UNIT_EXPONENT as nat);
}

/// From a bound on a multiple of a positive number to a bound on the number.
proof fn lemma_divide(x: int, bound: int, u: int)
    requires
        u > 0,
        8 * (x * u) <= bound * (u * u),
    ensures
        8 * x <= bound * u,
{
    assert(8 * x <= bound * u) by (nonlinear_arith)
        requires
            u > 0,
            8 * (x * u) <= bound * (u * u),
    ;
}

proof fn lemma_products(a: int, b: int, u: int)
    requires
        0 <= a,
        0 <= b <= u,
    ensures
        0 <= a * b <= a * u,
{
    assert(0 <= a * b <= a * u) by (nonlinear_arith)
        requires
            0 <= a,
            0 <= b <= u,
    ;
}

/// The whole account: what the second leg may cost at most, and what both legs
/// cost together.
proof fn lemma_account(
    u: int,
    f: int,
    s: int,
    t: int,
    m: int,
    b: int,
    l: int,
    fee1: int,
    total: int,
)
    requires
        u > 0,
        0 <= t <= u,
        (f * t - b * u) * precision::grain() <= u * u,
        (fee1 * u - l * t) * precision::grain() <= u * u,
        (l - (f + s)) * precision::grain() <= u,
        total * precision::grain() <= (u - m + (fee1 - b)) * precision::grain() + 8 * u,
        (m * u - s * t) * precision::grain() > 16 * (u * u),
    ensures
        total < u,
{
    let g = precision::grain() as int;
    assert((l * t) * g <= (f * t + s * t) * g + u * u) by (nonlinear_arith)
        requires
            (l - (f + s)) * g <= u,
            0 <= t <= u,
            u > 0,
    ;
    if total >= u {
        assert(0 <= (fee1 - b - m) * g + 8 * u);
        assert(0 <= ((fee1 * u - b * u) - m * u) * g + 8 * (u * u)) by (nonlinear_arith)
            requires
                0 <= (fee1 - b - m) * g + 8 * u,
                u > 0,
        ;
    }
}

/// A second leg at its price limit, or below it, leaves a profit on every
/// share, whatever the first leg was filled at.
pub proof fn lemma_limit_leaves_profit(
    fill_price: Binary64,
    leg2_price: Binary64,
    params: StrategyParams,
)
    requires
        fraction(fill_price),
        covers_costs(params),
        Binary64::nothing().at_most(leg2_price),
        leg2_price.at_most(leg_manager::max_leg2_price(fill_price, params)),
    ensures
        leg_manager::lock_profit(fill_price, leg2_price, params).finite(),
        Binary64::nothing().less(leg_manager::lock_profit(fill_price, leg2_price, params)),
{
    let u = precision::one() as int;
    let g = precision::grain() as int;
    let one = Binary64::of_nat(1);
    lemma_unit();
    precision::lemma_one();
    assert(u * u > 0) by (nonlinear_arith)
        requires
            u > 0,
    ;
    let f = fill_price.units();
    let s = params.slippage_cents.units();
    let t = params.taker_fee_rate.units();
    let m = params.min_profit_per_share.units();
    // The limit.
    let a1 = one.difference(fill_price);
    precision::lemma_difference_close(one, fill_price);
    let a2 = a1.difference(params.slippage_cents);
    precision::lemma_difference_close(a1, params.slippage_cents);
    lemma_products(f, t, u);
    assert(f * u <= u * u) by (nonlinear_arith)
        requires
            0 <= f <= u,
    ;
    precision::lemma_product_close(fill_price, params.taker_fee_rate);
    let b = fill_price.product(params.taker_fee_rate);
    lemma_divide(b.units(), 9, u);
    let a3 = a2.difference(b);
    precision::lemma_difference_close(a2, b);
    let target = a3.difference(params.min_profit_per_share);
    precision::lemma_difference_close(a3, params.min_profit_per_share);
    // The second leg.
    assert(target == leg_manager::max_leg2_price(fill_price, params));
    assert(leg2_price.finite()) by {
        assert(leg2_price.order() <= target.order());
    }
    precision::lemma_order(leg2_price, target);
    precision::lemma_signed(false, 0);
    precision::lemma_order(Binary64::nothing(), leg2_price);
    let p = leg2_price.units();
    assert(8 * p <= 9 * u);
    // The costs.
    let l = fill_price.sum(params.slippage_cents);
    precision::lemma_sum_close(fill_price, params.slippage_cents);
    assert(l.units() >= 0) by {
        if f + s == 0 {
            reveal(Binary64::sum);
        }
    }
    assert(8 * l.units() <= 17 * u);
    lemma_products(l.units(), t, u);
    assert(8 * (l.units() * u) <= 17 * (u * u)) by (nonlinear_arith)
        requires
            8 * l.units() <= 17 * u,
            u > 0,
    ;
    precision::lemma_product_close(l, params.taker_fee_rate);
    let fee1 = l.product(params.taker_fee_rate);
    lemma_divide(fee1.units(), 18, u);
    let fee2 = leg2_price.product(params.maker_fee_rate);
    precision::lemma_product_nothing(leg2_price);
    let fee = fee1.sum(fee2);
    precision::lemma_sum_close(fee1, fee2);
    let c1 = l.sum(leg2_price);
    precision::lemma_sum_close(l, leg2_price);
    let total = c1.sum(fee);
    precision::lemma_sum_close(c1, fee);
    lemma_account(
        u,
        f,
        s,
        t,
        m,
        b.units(),
        l.units(),
        fee1.units(),
        total.units(),
    );
    precision::lemma_difference_close(one, total);
    let profit = one.difference(total);
    assert(profit == leg_manager::lock_profit(fill_price, leg2_price, params));
    precision::lemma_order(Binary64::nothing(), profit);
}

/// A lock pays: once the first leg is filled, a second leg that is filled at the
/// price of its order, or below it, locks a position whose profit is positive on
/// every share, and whose expected profit is positive on all of them together,
/// unless the shares are so few that their profit rounds to zero. With one share
/// or more it never does.
pub proof fn lemma_lock_pays(
    manager: LegManager,
    fill_price: Binary64,
    shares: Binary64,
    leg2_price: Binary64,
    now: Timestamp,
)
    requires
        manager.state is Leg1Pending,
        fraction(fill_price),
        covers_costs(manager.params),
        shares.finite(),
        Binary64::nothing().less(shares),
        Binary64::nothing().at_most(leg2_price),
        manager.after_leg1_fill(fill_price, shares, now).1 matches LegAction::PlaceLeg2 {
            price,
            ..
        } && leg2_price.at_most(price),
    ensures
        manager.with_state(manager.after_leg1_fill(fill_price, shares, now).0).after_leg2_fill(
            leg2_price,
        ) matches LegState::Locked { expected_pnl, .. } && {
            let profit = leg_manager::lock_profit(fill_price, leg2_price, manager.params);
            &&& expected_pnl == profit.product(shares)
            &&& Binary64::nothing().less(profit)
            &&& expected_pnl != Binary64::nothing() ==> Binary64::nothing().less(expected_pnl)
            &&& Binary64::of_nat(1).at_most(shares) ==> Binary64::nothing().less(expected_pnl)
        },
{
    lemma_limit_leaves_profit(fill_price, leg2_price, manager.params);
    let profit = leg_manager::lock_profit(fill_price, leg2_price, manager.params);
    precision::lemma_signed(false, 0);
    precision::lemma_order(Binary64::nothing(), profit);
    precision::lemma_one();
    precision::lemma_order(Binary64::nothing(), shares);
    precision::lemma_order(Binary64::of_nat(1), shares);
    assert(!profit.negative() && profit.rank() > 0);
    precision::lemma_product_not_negative(profit, shares);
    if Binary64::of_nat(1).at_most(shares) {
        precision::lemma_product_grows(profit, shares);
    }
}

/// The profit that the parameters ask for covers the costs, both in the standard
/// ones and in those that any settings give.
pub proof fn lemma_parameters_cover_costs(cfg: Config, asset: Seq<char>)
    ensures
        covers_costs(StrategyParams::standard()),
        covers_costs(StrategyParams::configured(cfg, asset)),
{
    lemma_unit();
    let u = precision::one() as int;
    precision::lemma_ratio_close(1, 100);
    precision::lemma_ratio_close(2, 100);
    precision::lemma_ratio_close(5, 100);
    let s = Binary64::of_ratio(1, 100).units();
    let t = Binary64::of_ratio(2, 100).units();
    let m = Binary64::of_ratio(5, 100).units();
    assert(1 * u == u && 2 * u == u + u && 5 * u == u + u + u + u + u);
    assert(50 * s <= u && 25 * t <= u && 200 * s >= u && 200 * m >= u);
    assert(100 * m <= 50 * u);
    assert(1250 * (s * t) <= u * u) by (nonlinear_arith)
        requires
            50 * s <= u,
            25 * t <= u,
            0 <= s,
            0 <= t,
    ;
    assert(200 * (s * u) >= u * u && 200 * (m * u) >= u * u) by (nonlinear_arith)
        requires
            200 * s >= u,
            200 * m >= u,
            u > 0,
    ;
    assert(u * u > 0) by (nonlinear_arith)
        requires
            u > 0,
    ;
}

/// Whether a number differs from an exact one by no more than some grains. The
/// exact one counts in squares of the unit.
pub open spec fn within(x: Binary64, exact: int, grains: int) -> bool {
    let u = precision::one();
    let g = precision::grain();
    &&& x.finite()
    &&& (x.units() * u - exact) * g <= grains * (u * u)
    &&& (exact - x.units() * u) * g <= grains * (u * u)
}

proof fn lemma_within_difference(a: Binary64, b: Binary64, x: int, y: int, m: int, n: int)
    requires
        within(a, x, m),
        within(b, y, n),
        -8 * precision::one() <= a.units() - b.units() <= 8 * precision::one(),
    ensures
        within(a.difference(b), x - y, m + n + 1),
{
    lemma_unit();
    precision::lemma_difference_close(a, b);
    let u = precision::one() as int;
    let g = precision::grain() as int;
    let d = a.difference(b).units();
    let p = a.units();
    let q = b.units();
    assert((d * u - (p * u - q * u)) * g <= u * u && ((p * u - q * u) - d * u) * g <= u * u)
        by (nonlinear_arith)
        requires
            (d - (p - q)) * g <= u,
            ((p - q) - d) * g <= u,
            u > 0,
    ;
    let w = u * u;
    assert((m + n + 1) * w == m * w + n * w + w) by (nonlinear_arith);
    assert((d * u - (x - y)) * g == (d * u - (p * u - q * u)) * g + (p * u - x) * g + (y - q * u)
        * g) by (nonlinear_arith);
    assert(((x - y) - d * u) * g == ((p * u - q * u) - d * u) * g + (x - p * u) * g + (q * u - y)
        * g) by (nonlinear_arith);
}

proof fn lemma_within_sum(a: Binary64, b: Binary64, x: int, y: int, m: int, n: int)
    requires
        within(a, x, m),
        within(b, y, n),
        -8 * precision::one() <= a.units() + b.units() <= 8 * precision::one(),
    ensures
        within(a.sum(b), x + y, m + n + 1),
{
    lemma_unit();
    precision::lemma_sum_close(a, b);
    let u = precision::one() as int;
    let g = precision::grain() as int;
    let d = a.sum(b).units();
    let p = a.units();
    let q = b.units();
    assert((d * u - (p * u + q * u)) * g <= u * u && ((p * u + q * u) - d * u) * g <= u * u)
        by (nonlinear_arith)
        requires
            (d - (p + q)) * g <= u,
            ((p + q) - d) * g <= u,
            u > 0,
    ;
    let w = u * u;
    assert((m + n + 1) * w == m * w + n * w + w) by (nonlinear_arith);
    assert((d * u - (x + y)) * g == (d * u - (p * u + q * u)) * g + (p * u - x) * g + (q * u - y)
        * g) by (nonlinear_arith);
    assert(((x + y) - d * u) * g == ((p * u + q * u) - d * u) * g + (x - p * u) * g + (y - q * u)
        * g) by (nonlinear_arith);
}

proof fn lemma_within_itself(a: Binary64)
    requires
        a.finite(),
    ensures
        within(a, a.units() * precision::one(), 0),
{
}

/// The price limit of the second leg is one dollar less the price of the first
/// leg, the slippage, the fee on that price and the profit asked for, but for the
/// rounding: no more than one part in two to the power 44.
pub proof fn lemma_limit_formula(fill_price: Binary64, params: StrategyParams)
    requires
        fraction(fill_price),
        fraction(params.slippage_cents),
        fraction(params.taker_fee_rate),
        fraction(params.min_profit_per_share),
    ensures
        ({
            let u = precision::one();
            let f = fill_price.units();
            within(
                leg_manager::max_leg2_price(fill_price, params),
                u * u - f * u - params.slippage_cents.units() * u - f
                    * params.taker_fee_rate.units() - params.min_profit_per_share.units() * u,
                16,
            )
        }),
{
    let u = precision::one() as int;
    let one = Binary64::of_nat(1);
    lemma_unit();
    precision::lemma_one();
    let f = fill_price.units();
    let s = params.slippage_cents.units();
    let t = params.taker_fee_rate.units();
    let m = params.min_profit_per_share.units();
    lemma_within_itself(one);
    lemma_within_itself(fill_price);
    lemma_within_itself(params.slippage_cents);
    lemma_within_itself(params.min_profit_per_share);
    let a1 = one.difference(fill_price);
    precision::lemma_difference_close(one, fill_price);
    lemma_within_difference(one, fill_price, u * u, f * u, 0, 0);
    let a2 = a1.difference(params.slippage_cents);
    precision::lemma_difference_close(a1, params.slippage_cents);
    lemma_within_difference(a1, params.slippage_cents, u * u - f * u, s * u, 1, 0);
    lemma_products(f, t, u);
    assert(f * u <= u * u) by (nonlinear_arith)
        requires
            0 <= f <= u,
    ;
    precision::lemma_product_close(fill_price, params.taker_fee_rate);
    let b = fill_price.product(params.taker_fee_rate);
    lemma_divide(b.units(), 9, u);
    assert(within(b, f * t, 1));
    let a3 = a2.difference(b);
    precision::lemma_difference_close(a2, b);
    lemma_within_difference(a2, b, u * u - f * u - s * u, f * t, 2, 1);
    precision::lemma_difference_close(a3, params.min_profit_per_share);
    lemma_within_difference(
        a3,
        params.min_profit_per_share,
        u * u - f * u - s * u - f * t,
        m * u,
        4,
        0,
    );
    lemma_widen(
        leg_manager::max_leg2_price(fill_price, params),
        u * u - f * u - s * u - f * t - m * u,
        5,
        16,
    );
}

proof fn lemma_widen(x: Binary64, exact: int, few: int, more: int)
    requires
        within(x, exact, few),
        few <= more,
    ensures
        within(x, exact, more),
{
    lemma_unit();
    let u = precision::one() as int;
    assert(few * (u * u) <= more * (u * u)) by (nonlinear_arith)
        requires
            few <= more,
            u > 0,
    ;
}

proof fn lemma_within_product(a: Binary64, x: int, n: int, t: Binary64)
    requires
        within(a, x * precision::one(), n),
        fraction(t),
        0 <= a.units(),
        8 * a.units() <= 17 * precision::one(),
        n >= 0,
    ensures
        within(a.product(t), x * t.units(), n + 1),
        0 <= a.product(t).units(),
        8 * a.product(t).units() <= 18 * precision::one(),
{
    lemma_unit();
    let u = precision::one() as int;
    let g = precision::grain() as int;
    let p = a.units();
    let r = t.units();
    lemma_products(p, r, u);
    assert(8 * (p * u) <= 17 * (u * u)) by (nonlinear_arith)
        requires
            8 * p <= 17 * u,
            u > 0,
    ;
    precision::lemma_product_close(a, t);
    let d = a.product(t).units();
    assert(u * u > 0) by (nonlinear_arith)
        requires
            u > 0,
    ;
    lemma_divide(d, 18, u);
    let w = u * u;
    // The factor differs by n grains, and so the product by no more.
    assert((p - x) * g <= n * u && (x - p) * g <= n * u) by (nonlinear_arith)
        requires
            (p * u - x * u) * g <= n * (u * u),
            (x * u - p * u) * g <= n * (u * u),
            u > 0,
    ;
    assert((p * r - x * r) * g <= n * w && (x * r - p * r) * g <= n * w) by (nonlinear_arith)
        requires
            (p - x) * g <= n * u,
            (x - p) * g <= n * u,
            0 <= r <= u,
            w == u * u,
            n >= 0,
            u > 0,
    ;
    assert((n + 1) * w == n * w + w) by (nonlinear_arith);
    assert((d * u - x * r) * g == (d * u - p * r) * g + (p * r - x * r) * g) by (nonlinear_arith);
    assert((x * r - d * u) * g == (p * r - d * u) * g + (x * r - p * r) * g) by (nonlinear_arith);
}

/// What a lock pays per share is one dollar less the price and the slippage of
/// the first leg, the price of the second leg, the taker's fee on the first sum
/// and the maker's fee on the second price, but for the rounding: no more than
/// one part in two to the power 44.
pub proof fn lemma_profit_formula(
    fill_price: Binary64,
    leg2_price: Binary64,
    params: StrategyParams,
)
    requires
        fraction(fill_price),
        fraction(leg2_price),
        fraction(params.slippage_cents),
        fraction(params.taker_fee_rate),
        fraction(params.maker_fee_rate),
    ensures
        ({
            let u = precision::one();
            let cost = fill_price.units() + params.slippage_cents.units();
            let p = leg2_price.units();
            within(
                leg_manager::lock_profit(fill_price, leg2_price, params),
                u * u - cost * u - p * u - cost * params.taker_fee_rate.units() - p
                    * params.maker_fee_rate.units(),
                16,
            )
        }),
{
    let u = precision::one() as int;
    let one = Binary64::of_nat(1);
    lemma_unit();
    precision::lemma_one();
    let f = fill_price.units();
    let s = params.slippage_cents.units();
    let t = params.taker_fee_rate.units();
    let k = params.maker_fee_rate.units();
    let p = leg2_price.units();
    let cost = f + s;
    lemma_within_itself(one);
    lemma_within_itself(fill_price);
    lemma_within_itself(params.slippage_cents);
    lemma_within_itself(leg2_price);
    let l = fill_price.sum(params.slippage_cents);
    precision::lemma_sum_close(fill_price, params.slippage_cents);
    assert(l.units() >= 0) by {
        if cost == 0 {
            reveal(Binary64::sum);
            precision::lemma_signed(
                fill_price.negative() && params.slippage_cents.negative(),
                0,
            );
        }
    }
    lemma_within_sum(fill_price, params.slippage_cents, f * u, s * u, 0, 0);
    assert(f * u + s * u == cost * u) by (nonlinear_arith)
        requires
            cost == f + s,
    ;
    let fee1 = l.product(params.taker_fee_rate);
    lemma_within_product(l, cost, 1, params.taker_fee_rate);
    let fee2 = leg2_price.product(params.maker_fee_rate);
    lemma_within_product(leg2_price, p, 0, params.maker_fee_rate);
    let fee = fee1.sum(fee2);
    precision::lemma_sum_close(fee1, fee2);
    lemma_within_sum(fee1, fee2, cost * t, p * k, 2, 1);
    let c1 = l.sum(leg2_price);
    precision::lemma_sum_close(l, leg2_price);
    lemma_within_sum(l, leg2_price, cost * u, p * u, 1, 0);
    let total = c1.sum(fee);
    precision::lemma_sum_close(c1, fee);
    lemma_within_sum(c1, fee, cost * u + p * u, cost * t + p * k, 2, 4);
    precision::lemma_difference_close(one, total);
    lemma_within_difference(one, total, u * u, cost * u + p * u + (cost * t + p * k), 0, 7);
    lemma_widen(
        leg_manager::lock_profit(fill_price, leg2_price, params),
        u * u - (cost * u + p * u + (cost * t + p * k)),
        8,
        16,
    );
}

} // verus!
