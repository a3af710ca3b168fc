use polymarket_bot::execution::decimal::{to_cents, DecimalParts};
use polymarket_bot::execution::order_builder::{
    is_auth_error, to_order_result, OrderError, OrderFlow, OrderPlan, OrderReply, OrderSide, OrderStage,
    OrderStatus, OrderStep, OrderTerms, StepOutcome,
};
use polymarket_bot::execution::redeemer::{classify_redeem, RedeemOutcome, RedeemPlan};
use polymarket_bot::execution::risk::RiskVeto;
use polymarket_bot::execution::tracker::{TradeOutcome, TradeRecord};
use polymarket_bot::execution::{
    OrderExecutor, OrderRequest, OrderRequestKind, OrderResult, OrderTracker, RedeemCommand, Redeemer, RiskManager,
};
use polymarket_bot::number::binary64::Binary64;
use polymarket_bot::utils::clock::Timestamp;

const KEY: &str = "0x6f142508b4eea641e33cb2a0161221105086a84584c74245ca463a49effea30b";

fn double(x: f64) -> Binary64 {
    Binary64::from_bits(x.to_bits())
}

fn at(secs: i64) -> Timestamp {
    Timestamp::from_parts(secs, 0).unwrap()
}

fn risk() -> RiskManager {
    RiskManager::new(2, double(200.0), 3, 300)
}

#[test]
fn trades_are_allowed_within_the_limits() {
    assert_eq!(risk().check_entry_at("BTC", double(0.0), 0, at(0)), Ok(()));
    assert_eq!(risk().check_entry("BTC", double(-199.99), 2), Ok(()));
}

#[test]
fn each_limit_has_its_veto() {
    let mut r = risk();
    assert_eq!(r.check_entry_at("BTC", double(-200.0), 0, at(0)), Err(RiskVeto::DailyLossLimitReached));
    r.on_position_opened("BTC");
    assert_eq!(r.check_entry_at("BTC", double(0.0), 0, at(0)), Ok(()));
    r.on_position_opened("BTC");
    assert_eq!(
        r.check_entry_at("BTC", double(0.0), 0, at(0)),
        Err(RiskVeto::MaxPositionsReached { asset: "BTC".to_string(), current: 2 })
    );
    assert_eq!(r.check_entry_at("ETH", double(0.0), 0, at(0)), Ok(()));
    assert_eq!(
        r.check_entry_at("ETH", double(0.0), 3, at(0)),
        Err(RiskVeto::CooldownActive { expires_in_secs: 300 })
    );
    r.activate_cooldown_at(at(1000));
    assert_eq!(
        r.check_entry_at("ETH", double(0.0), 0, at(1100)),
        Err(RiskVeto::CooldownActive { expires_in_secs: 200 })
    );
    assert!(r.cooldown_active_at(at(1299)));
    assert!(!r.cooldown_active_at(at(1300)));
    assert_eq!(r.check_entry_at("ETH", double(0.0), 0, at(1300)), Ok(()));
    // Three losses in a row have led to this cooldown, and it is over.
    assert_eq!(r.check_entry_at("ETH", double(0.0), 3, at(1300)), Ok(()));
    r.check_daily_halt(double(-250.0));
    assert_eq!(r.check_entry_at("ETH", double(0.0), 0, at(1300)), Err(RiskVeto::TradingHalted));
    assert!(r.is_halted());
    r.reset_daily();
    assert_eq!(r.check_entry_at("ETH", double(0.0), 0, at(1100)), Ok(()));
}

#[test]
fn a_halt_can_be_lifted_without_ending_a_cooldown() {
    let mut r = risk();
    assert!(r.can_cool_down(at(1000)));
    assert!(!r.is_cooldown_due(2) && r.is_cooldown_due(3));
    r.activate_cooldown_at(at(1000));
    r.check_daily_halt(double(-200.0));
    r.lift_halt();
    assert!(!r.is_halted());
    assert!(r.cooldown_active_at(at(1100)));
    assert!(!RiskManager::new(2, double(200.0), 3, i64::MAX as u64).can_cool_down(at(1000)));
}

#[test]
fn positions_are_counted_per_asset() {
    let mut r = risk();
    r.on_position_closed("BTC");
    assert_eq!(r.open_positions("BTC"), 0);
    r.on_position_opened("BTC");
    r.on_position_opened("ETH");
    r.on_position_opened("BTC");
    r.on_position_closed("BTC");
    assert_eq!(r.open_position_count("BTC"), 1);
    r.on_position_closed("BTC");
    r.on_position_closed("BTC");
    assert_eq!(r.open_positions("BTC"), 0);
    assert_eq!(r.open_positions("ETH"), 1);
}

#[test]
fn a_small_loss_does_not_halt() {
    let mut r = risk();
    r.check_daily_halt(double(-199.0));
    assert!(!r.is_halted());
    assert!(!r.cooldown_active());
    assert!(r.activate_cooldown());
    assert!(r.cooldown_active());
    let mut forever = RiskManager::new(2, double(200.0), 3, i64::MAX as u64);
    assert!(!forever.activate_cooldown());
    assert!(!forever.cooldown_active());
}

fn record(pnl: f64) -> TradeRecord {
    TradeRecord {
        asset: "BTC".to_string(),
        leg1_price: double(0.6),
        leg2_price: Some(double(0.3)),
        shares: double(10.0),
        pnl: double(pnl),
        outcome: TradeOutcome::Locked,
        timestamp: at(0),
    }
}

#[test]
fn trades_add_up() {
    let mut t = OrderTracker::default();
    assert_eq!(t.win_rate(), double(0.0));
    t.record_trade(record(1.5));
    t.record_trade(record(-0.25));
    t.record_trade(record(0.0));
    assert_eq!(t.daily_pnl(), double(0.0 + 1.5 + -0.25 + 0.0));
    assert_eq!(t.total_pnl(), double(1.25));
    assert_eq!(t.total_realised_pnl(), double(1.25));
    assert_eq!((t.total_trades(), t.winning_trades(), t.losing_trades()), (3, 1, 2));
    assert_eq!(t.consecutive_losses(), 2);
    assert_eq!(t.win_rate(), double(1.0 / 3.0));
    t.record_trade(record(0.5));
    assert_eq!(t.consecutive_losses(), 0);
    t.reset_daily();
    assert_eq!(t.daily_pnl(), double(0.0));
    assert_eq!(t.total_pnl(), double(1.75));
}

#[test]
fn a_long_history_still_counts_everything() {
    let mut t = OrderTracker::new();
    for _ in 0..1500 {
        t.record_trade(record(0.5));
    }
    assert_eq!(t.total_trades(), 1500);
    assert_eq!(t.total_pnl(), double(750.0));
}

fn executor(dry_run: bool) -> OrderExecutor {
    OrderExecutor::new("https://clob".to_string(), KEY.to_string(), None, dry_run).unwrap()
}

fn dec(mantissa: i128, scale: u32) -> DecimalParts {
    DecimalParts { mantissa, scale }
}

#[test]
fn only_private_keys_are_accepted() {
    let make = |key: &str| OrderExecutor::new("u".to_string(), key.to_string(), None, true);
    assert!(make(KEY).is_ok());
    assert!(make(&KEY[2..]).is_ok());
    let order = "FFFFFFFFFFFFFFFFFFFFFFFFFFFFFFFEBAAEDCE6AF48A03BBFD25E8CD0364141";
    let below = "fffffffffffffffffffffffffffffffebaaedce6af48a03bbfd25e8cd0364140";
    assert!(make(below).is_ok());
    for bad in ["", "0x", &KEY[3..], &"0".repeat(64), order, &"g".repeat(64)] {
        assert_eq!(make(bad).unwrap_err(), OrderError::InvalidPrivateKey);
    }
}

#[test]
fn funders_are_read_as_addresses() {
    let plan = executor(true).auth_plan().unwrap();
    assert!(plan.funder.is_none());
    let address = "0x2791Bca1f2de4661ED88A30C99A7a9449Aa84174";
    let make = |funder: &str| {
        OrderExecutor::new("u".to_string(), KEY.to_string(), Some(funder.to_string()), true).unwrap().auth_plan()
    };
    let bytes = make(address).unwrap().funder.unwrap();
    assert_eq!(bytes.len(), 20);
    assert_eq!(bytes[0], 0x27);
    assert_eq!(bytes[19], 0x74);
    assert_eq!(make("0x1234").unwrap_err(), OrderError::InvalidFunderAddress);
}

#[test]
fn dry_runs_fill_at_once() {
    let e = executor(true);
    assert!(matches!(
        e.plan_leg1(double(25.0), None, None),
        OrderPlan::Simulated(OrderResult::Filled { fill_price, shares })
            if fill_price == double(0.50) && shares == double(25.0 / 0.50)
    ));
    assert!(matches!(
        e.plan_leg2(double(0.3), double(50.0), None, None),
        Ok(OrderPlan::Simulated(OrderResult::Filled { fill_price, shares }))
            if fill_price == double(0.3) && shares == double(50.0)
    ));
    assert!(matches!(
        e.plan_force_close(double(50.0), None),
        Ok(OrderPlan::Simulated(OrderResult::Filled { fill_price, shares }))
            if fill_price == double(0.50) && shares == double(50.0)
    ));
}

#[test]
fn live_orders_have_terms() {
    let e = executor(false);
    assert!(matches!(
        e.plan_leg1(double(25.0), Some(dec(125, 1)), Some(dec(61, 2))),
        OrderPlan::Submit(OrderTerms::Market { side: OrderSide::Buy, amount, hint_price })
            if amount == dec(125, 1) && hint_price == Some(dec(61, 2))
    ));
    match e.plan_leg1(double(25.0), None, None) {
        OrderPlan::Submit(terms) => assert_eq!(terms.amount(), dec(250, 1)),
        other => panic!("{:?}", other),
    }
    assert!(matches!(
        e.plan_leg2(double(0.3), double(50.0), Some(dec(3, 1)), Some(dec(50, 0))),
        Ok(OrderPlan::Submit(OrderTerms::Limit { side: OrderSide::Buy, price, size }))
            if price == dec(3, 1) && size == dec(50, 0)
    ));
    assert_eq!(
        e.plan_leg2(double(0.3), double(50.0), None, None).unwrap_err(),
        OrderError::InvalidLeg2Price
    );
    assert_eq!(
        e.plan_leg2(double(0.3), double(50.0), Some(dec(3, 1)), None).unwrap_err(),
        OrderError::InvalidLeg2Shares
    );
    assert_eq!(e.plan_force_close(double(50.0), None).unwrap_err(), OrderError::InvalidCloseShares);
    assert!(matches!(
        e.plan_force_close(double(1.2399), Some(dec(12399, 4))),
        Ok(OrderPlan::Submit(OrderTerms::Market { side: OrderSide::Sell, amount, hint_price }))
            if amount == dec(123, 2) && hint_price == Some(dec(1, 2))
    ));
}

#[test]
fn amounts_are_cut_to_cents() {
    assert_eq!(to_cents(dec(-198765, 5)), dec(-198, 2));
    assert_eq!(to_cents(dec(314, 2)), dec(314, 2));
    assert_eq!(to_cents(dec(9, 28)), dec(0, 2));
    let same = to_cents(dec(7, 0));
    assert_eq!(same.mantissa, 7 * 10i128.pow(same.scale));
    assert!(same.scale <= 2);
    let most = 0xFFFF_FFFF_FFFF_FFFF_FFFF_FFFFi128;
    let large = to_cents(dec(most, 1));
    assert_eq!(large.mantissa, most * 10i128.pow(large.scale - 1));
    assert!(dec(most, 28).is_valid());
    assert!(!dec(most + 1, 0).is_valid());
    assert!(!dec(0, 29).is_valid());
}

#[test]
fn requests_have_a_kind() {
    let leg1 = OrderRequest::Leg1Market {
        token_id: "1".to_string(),
        size_usd: double(1.0),
        asset_key: "BTC".to_string(),
        hint_price: None,
    };
    let leg2 = OrderRequest::Leg2Limit {
        token_id: "1".to_string(),
        price: double(1.0),
        shares: double(1.0),
        asset_key: "BTC".to_string(),
    };
    let close =
        OrderRequest::ForceClose { token_id: "1".to_string(), shares: double(1.0), asset_key: "BTC".to_string() };
    assert_eq!(leg1.kind(), OrderRequestKind::Leg1);
    assert_eq!(leg2.kind(), OrderRequestKind::Leg2);
    assert_eq!(close.kind(), OrderRequestKind::ForceClose);
}

fn reply(success: bool, status: OrderStatus, name: &str) -> OrderReply {
    OrderReply {
        success,
        error_msg: None,
        status,
        status_name: name.to_string(),
        making_amount: Some(double(6.0)),
        taking_amount: Some(double(10.0)),
        requested_amount: Some(double(25.0)),
    }
}

fn reason(result: OrderResult) -> String {
    match result {
        OrderResult::Rejected { reason } => reason,
        other => panic!("{:?}", other),
    }
}

#[test]
fn answers_become_outcomes() {
    assert!(matches!(
        to_order_result(&reply(true, OrderStatus::Matched, "Matched")),
        OrderResult::Filled { fill_price, shares } if fill_price == double(6.0 / 10.0) && shares == double(10.0)
    ));
    let mut none = reply(true, OrderStatus::Matched, "Matched");
    none.taking_amount = None;
    assert!(matches!(
        to_order_result(&none),
        OrderResult::Filled { fill_price, shares } if fill_price == double(0.0) && shares == double(0.0)
    ));
    for status in [OrderStatus::Delayed, OrderStatus::Live] {
        assert!(matches!(
            to_order_result(&reply(true, status, "x")),
            OrderResult::Filled { fill_price, shares } if fill_price == double(0.0) && shares == double(25.0)
        ));
    }
    assert_eq!(reason(to_order_result(&reply(true, OrderStatus::Canceled, "Canceled"))), "Order status: Canceled");
    assert_eq!(reason(to_order_result(&reply(true, OrderStatus::Unmatched, "U"))), "Order status: U");
    assert_eq!(reason(to_order_result(&reply(true, OrderStatus::Other, "Odd"))), "Unexpected order status: Odd");
    assert_eq!(reason(to_order_result(&reply(false, OrderStatus::Matched, "Matched"))), "Matched");
    let mut refused = reply(false, OrderStatus::Matched, "Matched");
    refused.error_msg = Some("no funds".to_string());
    assert_eq!(reason(to_order_result(&refused)), "no funds");
}

#[test]
fn auth_errors_are_told_by_their_words() {
    assert!(is_auth_error("status 401"));
    assert!(is_auth_error("403 Forbidden"));
    assert!(is_auth_error("code: UNAUTHENTICATED"));
    assert!(!is_auth_error("status 404: unauthenticated"));
    assert!(!is_auth_error(""));
}

fn failed(error: &str) -> StepOutcome {
    StepOutcome::Failed { error: error.to_string() }
}

#[test]
fn a_submission_signs_in_builds_signs_and_posts() {
    let (mut flow, step) = OrderFlow::start("258".to_string(), false);
    assert!(matches!(step, OrderStep::Authenticate));
    match flow.advance(&StepOutcome::Done) {
        OrderStep::Build { token } => {
            assert_eq!(token.len(), 32);
            assert_eq!(&token[30..], &[1, 2]);
            assert!(token[..30].iter().all(|b| *b == 0));
        }
        other => panic!("{:?}", other),
    }
    assert!(matches!(flow.advance(&StepOutcome::Done), OrderStep::Sign));
    assert!(matches!(flow.advance(&StepOutcome::Done), OrderStep::Post));
    let answer = StepOutcome::Answered { reply: reply(true, OrderStatus::Live, "Live") };
    assert!(matches!(flow.advance(&answer), OrderStep::Finish(Ok(OrderResult::Filled { .. }))));
    assert_eq!(flow.stage, OrderStage::Finished);
}

#[test]
fn a_refused_post_is_retried_once_after_signing_in() {
    let (mut flow, step) = OrderFlow::start("7".to_string(), true);
    assert!(matches!(step, OrderStep::Build { .. }));
    flow.advance(&StepOutcome::Done);
    flow.advance(&StepOutcome::Done);
    assert!(matches!(flow.advance(&failed("401 Unauthorized")), OrderStep::Authenticate));
    assert!(matches!(flow.advance(&StepOutcome::Done), OrderStep::Build { .. }));
    assert!(matches!(flow.advance(&StepOutcome::Done), OrderStep::Sign));
    assert!(matches!(flow.advance(&StepOutcome::Done), OrderStep::Post));
    assert!(matches!(
        flow.advance(&failed("401 Unauthorized")),
        OrderStep::Finish(Err(OrderError::RetryPostFailed))
    ));
}

fn failure_after(done: usize, outcome: StepOutcome) -> OrderError {
    let (mut flow, _) = OrderFlow::start("7".to_string(), false);
    for _ in 0..done {
        flow.advance(&StepOutcome::Done);
    }
    match flow.advance(&outcome) {
        OrderStep::Finish(Err(e)) => e,
        other => panic!("{:?}", other),
    }
}

fn failure_after_retry(done: usize, outcome: StepOutcome) -> OrderError {
    let (mut flow, _) = OrderFlow::start("7".to_string(), true);
    flow.advance(&StepOutcome::Done);
    flow.advance(&StepOutcome::Done);
    flow.advance(&failed("403"));
    for _ in 0..done {
        flow.advance(&StepOutcome::Done);
    }
    match flow.advance(&outcome) {
        OrderStep::Finish(Err(e)) => e,
        other => panic!("{:?}", other),
    }
}

#[test]
fn a_failed_sign_in_is_tried_once_more() {
    let (mut flow, step) = OrderFlow::start("7".to_string(), false);
    assert!(matches!(step, OrderStep::Authenticate));
    assert!(matches!(flow.advance(&failed("timeout")), OrderStep::Authenticate));
    assert_eq!(flow.stage, OrderStage::ClientRetry);
    assert!(matches!(flow.advance(&StepOutcome::Done), OrderStep::Build { .. }));
    let (mut flow, _) = OrderFlow::start("7".to_string(), false);
    flow.advance(&failed("timeout"));
    assert!(matches!(
        flow.advance(&failed("timeout")),
        OrderStep::Finish(Err(OrderError::AuthenticationFailed))
    ));
}

#[test]
fn a_client_is_kept_until_it_is_refused() {
    let mut e = executor(false);
    assert!(matches!(e.submit("7".to_string()).1, OrderStep::Authenticate));
    e.note_sign_in(&StepOutcome::Done);
    assert!(e.signed_in);
    assert!(matches!(e.submit("7".to_string()).1, OrderStep::Build { .. }));
    e.note_sign_in(&failed("401"));
    assert!(!e.signed_in);
    assert!(matches!(e.submit("7".to_string()).1, OrderStep::Authenticate));
}

#[test]
fn failures_are_named_after_their_stage() {
    assert_eq!(failure_after(1, failed("x")), OrderError::BuildFailed);
    assert_eq!(failure_after(1, StepOutcome::AmountRefused), OrderError::InvalidAmount);
    assert_eq!(failure_after(2, failed("x")), OrderError::SignFailed);
    assert_eq!(failure_after(3, failed("x")), OrderError::PostFailed);
    assert_eq!(failure_after_retry(0, failed("x")), OrderError::RefreshFailed);
    assert_eq!(failure_after_retry(1, failed("x")), OrderError::RebuildFailed);
    assert_eq!(failure_after_retry(1, StepOutcome::AmountRefused), OrderError::InvalidAmount);
    assert_eq!(failure_after_retry(2, failed("x")), OrderError::ResignFailed);
}

#[test]
fn tokens_must_be_numbers() {
    let largest = "115792089237316195423570985008687907853269984665640564039457584007913129639935";
    let beyond = "115792089237316195423570985008687907853269984665640564039457584007913129639936";
    let (_, step) = OrderFlow::start(largest.to_string(), true);
    assert!(matches!(step, OrderStep::Build { ref token } if token.iter().all(|b| *b == 255)));
    let (_, step) = OrderFlow::start("0x0a".to_string(), true);
    assert!(matches!(step, OrderStep::Build { ref token } if token[31] == 10));
    for bad in [beyond, "12a", "-1", "not a token"] {
        let (flow, step) = OrderFlow::start(bad.to_string(), true);
        assert!(matches!(step, OrderStep::Finish(Err(OrderError::InvalidTokenId))), "{}", bad);
        assert_eq!(flow.stage, OrderStage::Finished);
    }
}

fn redeemer(dry_run: bool) -> Redeemer {
    Redeemer::new("https://rpc".to_string(), KEY.to_string(), dry_run)
}

fn condition(digit: &str) -> String {
    format!("0x{}", digit.repeat(64))
}

#[test]
fn a_market_is_scheduled_once() {
    let mut r = redeemer(true);
    assert_eq!(r.rpc_url(), "https://rpc");
    r.schedule_redemption("c1".to_string(), "s1".to_string(), at(1000));
    r.schedule_redemption("c1".to_string(), "other".to_string(), at(9000));
    r.handle(RedeemCommand::Schedule {
        condition_id: "c2".to_string(),
        slug: "s2".to_string(),
        market_end_ts: at(2000),
    });
    assert_eq!(r.pending_count(), 2);
    assert_eq!(r.pending_at(0).slug, "s1");
    assert_eq!(r.pending_at(0).redeem_after, at(1120));
    assert_eq!(r.pending_at(1).condition_id, "c2");
    assert!(!r.is_due(0, at(1119)));
    assert!(r.is_due(0, at(1120)));
}

#[test]
fn a_round_settles_what_is_due() {
    let mut r = redeemer(true);
    for i in 0..4 {
        r.schedule_redemption(format!("c{}", i), format!("s{}", i), at(1000));
    }
    r.schedule_redemption("late".to_string(), "late".to_string(), at(5000));
    let outcomes = vec![
        RedeemOutcome::Redeemed,
        RedeemOutcome::NotResolved,
        RedeemOutcome::Failed,
        RedeemOutcome::Redeemed,
    ];
    assert_eq!(r.tick(&outcomes, at(2000)), 2);
    assert_eq!(r.pending_count(), 3);
    assert_eq!(r.pending_at(0).condition_id, "c1");
    assert_eq!(r.pending_at(0).attempts, 1);
    assert_eq!(r.pending_at(0).redeem_after, at(2030));
    assert_eq!(r.pending_at(1).condition_id, "c2");
    assert_eq!(r.pending_at(2).condition_id, "late");
    assert_eq!(r.pending_at(2).attempts, 0);
}

#[test]
fn redemptions_are_given_up_after_ten_attempts() {
    let mut r = redeemer(true);
    r.schedule_redemption("c".to_string(), "s".to_string(), at(0));
    for attempt in 1..10 {
        assert_eq!(r.tick(&vec![RedeemOutcome::Failed], at(1000 * attempt)), 0);
        assert_eq!(r.pending_at(0).attempts, attempt as u32);
    }
    assert_eq!(r.tick(&vec![RedeemOutcome::NotResolved], at(20_000)), 0);
    assert_eq!(r.pending_count(), 0);
    assert_eq!(r.tick(&vec![], at(20_000)), 0);
}

#[test]
fn redemptions_are_planned() {
    let mut r = redeemer(false);
    r.schedule_redemption(condition("a"), "s".to_string(), at(0));
    r.schedule_redemption("0x12".to_string(), "s".to_string(), at(0));
    match r.plan_redeem(r.pending_at(0)) {
        RedeemPlan::Submit { condition } => assert_eq!(condition, vec![0xaa; 32]),
        other => panic!("{:?}", other),
    }
    assert!(matches!(r.plan_redeem(r.pending_at(1)), RedeemPlan::InvalidCondition));
    let dry = redeemer(true);
    assert!(matches!(dry.plan_redeem(r.pending_at(1)), RedeemPlan::Simulated));
    let keyless = Redeemer::new("u".to_string(), "none".to_string(), false);
    assert!(matches!(keyless.plan_redeem(r.pending_at(0)), RedeemPlan::InvalidKey));
}

#[test]
fn failed_redemptions_are_told_apart() {
    assert_eq!(classify_redeem(None), RedeemOutcome::Redeemed);
    assert_eq!(classify_redeem(Some("revert: condition not resolved")), RedeemOutcome::NotResolved);
    assert_eq!(classify_redeem(Some("payout denominator is not set yet")), RedeemOutcome::NotResolved);
    assert_eq!(classify_redeem(Some("timeout")), RedeemOutcome::Failed);
}
