//! Orders: what is asked for, how it is submitted, and what came of it.

use crate::execution::decimal::{to_cents, DecimalParts};
use crate::execution::identifiers;
use crate::execution::identifiers::{accepts_private_key, parse_address, parse_token};
use crate::number::algebra;
use crate::number::binary64::Binary64;
use crate::number::precision;
use crate::utils::text;
use crate::utils::text::contains_text;
use vstd::prelude::*;
use vstd::string::*;

verus! {

/// Outcome of an order submission.
#[derive(Debug, Clone)]
pub enum OrderResult {
    Filled { fill_price: Binary64, shares: Binary64 },
    PartialFill { fill_price: Binary64, filled_shares: Binary64, remaining_shares: Binary64 },
    Rejected { reason: String },
}

/// A request sent to the executor task.
#[derive(Debug)]
pub enum OrderRequest {
    Leg1Market {
        token_id: String,
        size_usd: Binary64,
        asset_key: String,
        /// Hint price from the local book, which saves fetching the order book.
        hint_price: Option<Binary64>,
    },
    Leg2Limit { token_id: String, price: Binary64, shares: Binary64, asset_key: String },
    ForceClose { token_id: String, shares: Binary64, asset_key: String },
}

#[derive(Debug, Clone, Copy, PartialEq, Eq, Structural)]
pub enum OrderRequestKind {
    Leg1,
    Leg2,
    ForceClose,
}

impl OrderRequest {
    /// Which order is asked for.
    pub open spec fn asked(self) -> OrderRequestKind {
        match self {
            OrderRequest::Leg1Market { .. } => OrderRequestKind::Leg1,
            OrderRequest::Leg2Limit { .. } => OrderRequestKind::Leg2,
            OrderRequest::ForceClose { .. } => OrderRequestKind::ForceClose,
        }
    }

    /// Which order is asked for.
    pub fn kind(&self) -> (r: OrderRequestKind)
        ensures
            r == self.asked(),
    {
        match self {
            OrderRequest::Leg1Market { .. } => OrderRequestKind::Leg1,
            OrderRequest::Leg2Limit { .. } => OrderRequestKind::Leg2,
            OrderRequest::ForceClose { .. } => OrderRequestKind::ForceClose,
        }
    }
}

#[derive(Debug, Clone, Copy, PartialEq, Eq, Structural)]
pub enum OrderSide {
    Buy,
    Sell,
}

/// What can go wrong before an order has an outcome.
#[derive(Debug, Clone, Copy, PartialEq, Eq, Structural)]
pub enum OrderError {
    InvalidPrivateKey,
    InvalidFunderAddress,
    InvalidLeg2Price,
    InvalidLeg2Shares,
    InvalidCloseShares,
    AuthenticationFailed,
    InvalidTokenId,
    InvalidAmount,
    BuildFailed,
    SignFailed,
    PostFailed,
    RefreshFailed,
    RebuildFailed,
    ResignFailed,
    RetryPostFailed,
}

/// How an order is made.
#[derive(Debug, Clone, Copy, PartialEq, Eq, Structural)]
pub enum OrderTerms {
    /// Fill or kill. A buyer's amount is money to spend, a seller's is shares.
    Market { side: OrderSide, amount: DecimalParts, hint_price: Option<DecimalParts> },
    /// Rests in the book.
    Limit { side: OrderSide, price: DecimalParts, size: DecimalParts },
}

impl OrderTerms {
    /// The amount that was asked for.
    pub open spec fn requested(self) -> DecimalParts {
        match self {
            OrderTerms::Market { amount, .. } => amount,
            OrderTerms::Limit { size, .. } => size,
        }
    }

    /// The amount that was asked for.
    pub fn amount(&self) -> (r: DecimalParts)
        ensures
            r == self.requested(),
    {
        match self {
            OrderTerms::Market { amount, .. } => *amount,
            OrderTerms::Limit { size, .. } => *size,
        }
    }
}

/// What to do about a request.
#[derive(Debug)]
pub enum OrderPlan {
    /// Nothing is sent; this counts as the outcome.
    Simulated(OrderResult),
    Submit(OrderTerms),
}

/// The dollars to spend where the size of a trade has no decimal form: 25.0.
pub open spec fn default_amount() -> DecimalParts {
    DecimalParts { mantissa: 250, scale: 1 }
}

/// A price that every buyer meets: 0.01.
pub open spec fn aggressive_price() -> DecimalParts {
    DecimalParts { mantissa: 1, scale: 2 }
}

/// What to do about the first leg.
pub open spec fn leg1_plan(
    dry_run: bool,
    size_usd: Binary64,
    amount: Option<DecimalParts>,
    hint_price: Option<DecimalParts>,
) -> OrderPlan {
    if dry_run {
        OrderPlan::Simulated(
            OrderResult::Filled {
                fill_price: Binary64::of_ratio(50, 100),
                shares: size_usd.quotient(Binary64::of_ratio(50, 100)),
            },
        )
    } else {
        OrderPlan::Submit(
            OrderTerms::Market {
                side: OrderSide::Buy,
                amount: match amount {
                    Some(amount) => amount,
                    None => default_amount(),
                },
                hint_price,
            },
        )
    }
}

/// What to do about the second leg.
pub open spec fn leg2_plan(
    dry_run: bool,
    price: Binary64,
    shares: Binary64,
    price_dec: Option<DecimalParts>,
    size_dec: Option<DecimalParts>,
) -> Result<OrderPlan, OrderError> {
    if dry_run {
        Ok(OrderPlan::Simulated(OrderResult::Filled { fill_price: price, shares }))
    } else {
        match (price_dec, size_dec) {
            (None, _) => Err(OrderError::InvalidLeg2Price),
            (Some(_), None) => Err(OrderError::InvalidLeg2Shares),
            (Some(price), Some(size)) => Ok(
                OrderPlan::Submit(OrderTerms::Limit { side: OrderSide::Buy, price, size }),
            ),
        }
    }
}

/// Whether `r` is what to do about a force close.
pub open spec fn close_plan(
    r: Result<OrderPlan, OrderError>,
    dry_run: bool,
    shares: Binary64,
    size_dec: Option<DecimalParts>,
) -> bool {
    if dry_run {
        r == Ok::<OrderPlan, OrderError>(
            OrderPlan::Simulated(
                OrderResult::Filled { fill_price: Binary64::of_ratio(50, 100), shares },
            ),
        )
    } else {
        match size_dec {
            None => r == Err::<OrderPlan, OrderError>(OrderError::InvalidCloseShares),
            Some(size) => r matches Ok(
                OrderPlan::Submit(OrderTerms::Market { side, amount, hint_price }),
            ) && side == OrderSide::Sell && size.cut_to(amount, 2) && hint_price == Some(
                aggressive_price(),
            ),
        }
    }
}

/// Whether `r` is how to sign in with a funder, if there is one.
pub open spec fn signs_in_as(
    r: Result<AuthPlan, OrderError>,
    funder_address: Option<String>,
) -> bool {
    match funder_address {
        None => r matches Ok(plan) && plan.funder is None,
        Some(funder) => match identifiers::hex_bytes(funder@, 20) {
            Some(bytes) => r matches Ok(plan) && identifiers::seen(plan.funder) == Some(bytes),
            None => r == Err::<AuthPlan, OrderError>(OrderError::InvalidFunderAddress),
        },
    }
}

/// Builds orders, and decides how they are submitted.
#[derive(Debug)]
pub struct OrderExecutor {
    pub clob_url: String,
    pub funder_address: Option<String>,
    pub dry_run: bool,
    /// Whether a client that is signed in is at hand.
    pub signed_in: bool,
}

/// The executor for a private key, if that can be read. No client is at hand yet.
pub open spec fn executor_of(
    clob_url: String,
    private_key: Seq<char>,
    funder_address: Option<String>,
    dry_run: bool,
) -> Result<OrderExecutor, OrderError> {
    if identifiers::is_private_key(private_key) {
        Ok(OrderExecutor { clob_url, funder_address, dry_run, signed_in: false })
    } else {
        Err(OrderError::InvalidPrivateKey)
    }
}

/// The executor after an attempt to sign in.
pub open spec fn after_sign_in(executor: OrderExecutor, outcome: StepOutcome) -> OrderExecutor {
    OrderExecutor { signed_in: outcome is Done, ..executor }
}

/// How to sign in.
#[derive(Debug)]
pub struct AuthPlan {
    /// The 20 bytes of the wallet that pays, if another one does.
    pub funder: Option<Vec<u8>>,
}

impl OrderExecutor {
    pub fn new(
        clob_url: String,
        private_key: String,
        funder_address: Option<String>,
        dry_run: bool,
    ) -> (r: Result<Self, OrderError>)
        ensures
            r == executor_of(clob_url, private_key@, funder_address, dry_run),
    {
        if accepts_private_key(private_key.as_str()) {
            Ok(OrderExecutor { clob_url, funder_address, dry_run, signed_in: false })
        } else {
            Err(OrderError::InvalidPrivateKey)
        }
    }

    /// How to sign in: for the funder, if there is one.
    pub fn auth_plan(&self) -> (r: Result<AuthPlan, OrderError>)
        ensures
            signs_in_as(r, self.funder_address),
    {
        match &self.funder_address {
            None => Ok(AuthPlan { funder: None }),
            Some(funder) => match parse_address(funder.as_str()) {
                Some(bytes) => Ok(AuthPlan { funder: Some(bytes) }),
                None => Err(OrderError::InvalidFunderAddress),
            },
        }
    }

    /// Starts a submission with the client at hand, if there is one.
    pub fn submit(&self, token_id: String) -> (r: (OrderFlow, OrderStep))
        ensures
            OrderFlow::starts(r.0, r.1, token_id, self.signed_in),
    {
        OrderFlow::start(token_id, self.signed_in)
    }

    /// Takes note of an attempt to sign in. The client of before is gone in any
    /// case; there is a new one where the attempt succeeded.
    pub fn note_sign_in(&mut self, outcome: &StepOutcome)
        ensures
            *final(self) == after_sign_in(*old(self), *outcome),
    {
        self.signed_in = match outcome {
            StepOutcome::Done => true,
            _ => false,
        };
    }

    /// What to do about the first leg, given the decimal forms of its size and of
    /// its hint price. A simulated one fills at 0.50.
    pub fn plan_leg1(
        &self,
        size_usd: Binary64,
        amount: Option<DecimalParts>,
        hint_price: Option<DecimalParts>,
    ) -> (r: OrderPlan)
        ensures
            r == leg1_plan(self.dry_run, size_usd, amount, hint_price),
    {
        if self.dry_run {
            let fill_price: Binary64 = Binary64::ratio(50, 100);
            return OrderPlan::Simulated(
                OrderResult::Filled { fill_price, shares: size_usd.over(fill_price) },
            );
        }
        let amount: DecimalParts = match amount {
            Some(amount) => amount,
            None => DecimalParts { mantissa: 250, scale: 1 },
        };
        OrderPlan::Submit(OrderTerms::Market { side: OrderSide::Buy, amount, hint_price })
    }

    /// What to do about the second leg, given the decimal forms of its price and
    /// of its shares. A simulated one fills at its price.
    pub fn plan_leg2(
        &self,
        price: Binary64,
        shares: Binary64,
        price_dec: Option<DecimalParts>,
        size_dec: Option<DecimalParts>,
    ) -> (r: Result<OrderPlan, OrderError>)
        ensures
            r == leg2_plan(self.dry_run, price, shares, price_dec, size_dec),
    {
        if self.dry_run {
            return Ok(OrderPlan::Simulated(OrderResult::Filled { fill_price: price, shares }));
        }
        match price_dec {
            None => Err(OrderError::InvalidLeg2Price),
            Some(price) => match size_dec {
                None => Err(OrderError::InvalidLeg2Shares),
                Some(size) => Ok(
                    OrderPlan::Submit(OrderTerms::Limit { side: OrderSide::Buy, price, size }),
                ),
            },
        }
    }

    /// What to do about a force close, given the decimal form of its shares: they
    /// are sold at any price, cut off after two digits. A simulated one fills at
    /// 0.50.
    pub fn plan_force_close(&self, shares: Binary64, size_dec: Option<DecimalParts>) -> (r: Result<
        OrderPlan,
        OrderError,
    >)
        requires
            size_dec matches Some(size) ==> size.fits(),
        ensures
            close_plan(r, self.dry_run, shares, size_dec),
    {
        if self.dry_run {
            return Ok(
                OrderPlan::Simulated(
                    OrderResult::Filled { fill_price: Binary64::ratio(50, 100), shares },
                ),
            );
        }
        match size_dec {
            None => Err(OrderError::InvalidCloseShares),
            Some(size) => Ok(
                OrderPlan::Submit(
                    OrderTerms::Market {
                        side: OrderSide::Sell,
                        amount: to_cents(size),
                        hint_price: Some(DecimalParts { mantissa: 1, scale: 2 }),
                    },
                ),
            ),
        }
    }
}

/// The stages of a submission. Each one waits for one piece of outside work.
#[derive(Debug, Clone, Copy, PartialEq, Eq, Structural)]
pub enum OrderStage {
    /// Signing in.
    Client,
    /// Signing in once more, after the first attempt failed.
    ClientRetry,
    Build,
    Sign,
    Post,
    /// Signing in again, after the order was refused for want of it.
    Refresh,
    Rebuild,
    Resign,
    Repost,
    Finished,
}

/// The next piece of outside work.
#[derive(Debug)]
pub enum OrderStep {
    /// Forget the client, sign in afresh and keep the new one.
    Authenticate,
    /// Build the order for a token, whose number these 32 bytes hold.
    Build { token: Vec<u8> },
    Sign,
    Post,
    Finish(Result<OrderResult, OrderError>),
}

/// How a piece of outside work went.
#[derive(Debug)]
pub enum StepOutcome {
    Done,
    /// The amount was refused when the order was built.
    AmountRefused,
    /// It failed, with these words.
    Failed { error: String },
    /// The answer to a posted order.
    Answered { reply: OrderReply },
}

#[derive(Debug, Clone, Copy, PartialEq, Eq, Structural)]
pub enum OrderStatus {
    Matched,
    Delayed,
    Live,
    Canceled,
    Unmatched,
    Other,
}

/// The answer to a posted order.
#[derive(Debug)]
pub struct OrderReply {
    pub success: bool,
    pub error_msg: Option<String>,
    pub status: OrderStatus,
    /// The name of the status.
    pub status_name: String,
    pub making_amount: Option<Binary64>,
    pub taking_amount: Option<Binary64>,
    /// The amount that was asked for.
    pub requested_amount: Option<Binary64>,
}

/// A number, or zero where there is none.
pub open spec fn or_zero(x: Option<Binary64>) -> Binary64 {
    match x {
        Some(x) => x,
        None => Binary64::nothing(),
    }
}

fn number_or_zero(x: Option<Binary64>) -> (r: Binary64)
    ensures
        r == or_zero(x),
{
    match x {
        Some(x) => x,
        None => Binary64::zero(),
    }
}

/// Whether an outcome is what the answer to an order says.
pub open spec fn outcome_of(r: OrderResult, reply: OrderReply) -> bool {
    if !reply.success {
        r matches OrderResult::Rejected { reason } && reason == match reply.error_msg {
            Some(message) => message,
            None => reply.status_name,
        }
    } else {
        match reply.status {
            OrderStatus::Matched => {
                let making = or_zero(reply.making_amount);
                let taking = or_zero(reply.taking_amount);
                r == (OrderResult::Filled {
                    fill_price: if Binary64::nothing().less(taking) {
                        making.quotient(taking)
                    } else {
                        Binary64::nothing()
                    },
                    shares: taking,
                })
            },
            OrderStatus::Delayed | OrderStatus::Live => r == (OrderResult::Filled {
                fill_price: Binary64::nothing(),
                shares: or_zero(reply.requested_amount),
            }),
            OrderStatus::Canceled | OrderStatus::Unmatched => r matches OrderResult::Rejected {
                reason,
            } && reason@ == "Order status: "@ + reply.status_name@,
            OrderStatus::Other => r matches OrderResult::Rejected { reason } && reason@
                == "Unexpected order status: "@ + reply.status_name@,
        }
    }
}

/// The outcome that the answer to an order stands for.
pub fn to_order_result(reply: &OrderReply) -> (r: OrderResult)
    ensures
        outcome_of(r, *reply),
{
    if !reply.success {
        let reason: String = match &reply.error_msg {
            Some(message) => message.clone(),
            None => reply.status_name.clone(),
        };
        return OrderResult::Rejected { reason };
    }
    match reply.status {
        OrderStatus::Matched => {
            let making: Binary64 = number_or_zero(reply.making_amount);
            let taking: Binary64 = number_or_zero(reply.taking_amount);
            let fill_price: Binary64 = if taking.is_above(Binary64::zero()) {
                making.over(taking)
            } else {
                Binary64::zero()
            };
            OrderResult::Filled { fill_price, shares: taking }
        },
        OrderStatus::Delayed | OrderStatus::Live => OrderResult::Filled {
            fill_price: Binary64::zero(),
            shares: number_or_zero(reply.requested_amount),
        },
        OrderStatus::Canceled | OrderStatus::Unmatched => OrderResult::Rejected {
            reason: "Order status: ".to_owned().concat(reply.status_name.as_str()),
        },
        OrderStatus::Other => OrderResult::Rejected {
            reason: "Unexpected order status: ".to_owned().concat(reply.status_name.as_str()),
        },
    }
}

/// Whether the words of a failure say that the client is not signed in.
pub open spec fn wants_sign_in(error: Seq<char>) -> bool {
    text::occurs_in(error, "401"@) || text::occurs_in(error, "403"@) || text::occurs_in(
        error,
        "UNAUTHENTICATED"@,
    )
}

/// Whether the words of a failure say that the client is not signed in.
pub fn is_auth_error(error: &str) -> (r: bool)
    ensures
        r == wants_sign_in(error@),
{
    contains_text(error, "401") || contains_text(error, "403") || contains_text(
        error,
        "UNAUTHENTICATED",
    )
}

/// The submission of one order.
#[derive(Debug)]
pub struct OrderFlow {
    pub token_id: String,
    pub stage: OrderStage,
}

impl OrderFlow {
    /// Whether a step ends the submission with an error.
    pub open spec fn fails(step: OrderStep, error: OrderError) -> bool {
        step matches OrderStep::Finish(result) && result == Err::<OrderResult, OrderError>(error)
    }

    /// The stage in which the order is built; the last one where its token is not
    /// a number.
    pub open spec fn build_stage(stage: OrderStage, token_id: Seq<char>) -> OrderStage {
        match identifiers::token_bytes(token_id) {
            Some(_) => stage,
            None => OrderStage::Finished,
        }
    }

    /// Whether a step builds the order for its token, or ends the submission
    /// where the token is not a number.
    pub open spec fn is_build(step: OrderStep, token_id: Seq<char>) -> bool {
        match identifiers::token_bytes(token_id) {
            Some(bytes) => step matches OrderStep::Build { token } && token@ == bytes,
            None => OrderFlow::fails(step, OrderError::InvalidTokenId),
        }
    }

    /// The error that a failure means at a stage.
    pub open spec fn failure(stage: OrderStage) -> OrderError {
        match stage {
            OrderStage::Client | OrderStage::ClientRetry => OrderError::AuthenticationFailed,
            OrderStage::Build => OrderError::BuildFailed,
            OrderStage::Sign => OrderError::SignFailed,
            OrderStage::Post => OrderError::PostFailed,
            OrderStage::Refresh => OrderError::RefreshFailed,
            OrderStage::Rebuild => OrderError::RebuildFailed,
            OrderStage::Resign => OrderError::ResignFailed,
            OrderStage::Repost | OrderStage::Finished => OrderError::RetryPostFailed,
        }
    }

    /// Whether `stage` and `step` are what follows an outcome: the next stage
    /// after work that is done; the order's outcome after an answer; one more
    /// attempt to sign in where the first one failed; one new attempt, signed in
    /// afresh, where posting failed for want of that; and the error of the stage
    /// after any other failure.
    pub open spec fn follows(
        from: OrderStage,
        token_id: Seq<char>,
        outcome: StepOutcome,
        stage: OrderStage,
        step: OrderStep,
    ) -> bool {
        match (from, outcome) {
            (
                OrderStage::Client | OrderStage::ClientRetry,
                StepOutcome::Done,
            ) => stage == OrderFlow::build_stage(OrderStage::Build, token_id)
                && OrderFlow::is_build(step, token_id),
            (OrderStage::Client, StepOutcome::Failed { .. }) => stage is ClientRetry
                && step is Authenticate,
            (OrderStage::Refresh, StepOutcome::Done) => stage == OrderFlow::build_stage(
                OrderStage::Rebuild,
                token_id,
            ) && OrderFlow::is_build(step, token_id),
            (OrderStage::Build, StepOutcome::Done) => stage is Sign && step is Sign,
            (OrderStage::Rebuild, StepOutcome::Done) => stage is Resign && step is Sign,
            (OrderStage::Sign, StepOutcome::Done) => stage is Post && step is Post,
            (OrderStage::Resign, StepOutcome::Done) => stage is Repost && step is Post,
            (
                OrderStage::Build | OrderStage::Rebuild,
                StepOutcome::AmountRefused,
            ) => stage is Finished && OrderFlow::fails(step, OrderError::InvalidAmount),
            (
                OrderStage::Post | OrderStage::Repost,
                StepOutcome::Answered { reply },
            ) => stage is Finished && (step matches OrderStep::Finish(result) && (
            result matches Ok(r) && outcome_of(r, reply))),
            (OrderStage::Post, StepOutcome::Failed { error }) => if wants_sign_in(error@) {
                stage is Refresh && step is Authenticate
            } else {
                stage is Finished && OrderFlow::fails(step, OrderError::PostFailed)
            },
            _ => stage is Finished && OrderFlow::fails(step, OrderFlow::failure(from)),
        }
    }

    /// Whether a submission starts with a step: signed in first, unless a client
    /// is at hand.
    pub open spec fn starts(
        flow: OrderFlow,
        step: OrderStep,
        token_id: String,
        signed_in: bool,
    ) -> bool {
        &&& flow.token_id == token_id
        &&& if signed_in {
            flow.stage == OrderFlow::build_stage(OrderStage::Build, token_id@)
                && OrderFlow::is_build(step, token_id@)
        } else {
            flow.stage is Client && step is Authenticate
        }
    }

    /// Starts a submission: signed in first, unless a client is at hand.
    pub fn start(token_id: String, signed_in: bool) -> (r: (OrderFlow, OrderStep))
        ensures
            OrderFlow::starts(r.0, r.1, token_id, signed_in),
    {
        if signed_in {
            let (stage, step) = OrderFlow::build_step(token_id.as_str(), OrderStage::Build);
            (OrderFlow { token_id, stage }, step)
        } else {
            (OrderFlow { token_id, stage: OrderStage::Client }, OrderStep::Authenticate)
        }
    }

    fn build_step(token_id: &str, stage: OrderStage) -> (r: (OrderStage, OrderStep))
        ensures
            r.0 == OrderFlow::build_stage(stage, token_id@),
            OrderFlow::is_build(r.1, token_id@),
    {
        match parse_token(token_id) {
            Some(token) => (stage, OrderStep::Build { token }),
            None => (OrderStage::Finished, OrderStep::Finish(Err(OrderError::InvalidTokenId))),
        }
    }

    fn failure_at(stage: OrderStage) -> (r: OrderError)
        ensures
            r == OrderFlow::failure(stage),
    {
        match stage {
            OrderStage::Client | OrderStage::ClientRetry => OrderError::AuthenticationFailed,
            OrderStage::Build => OrderError::BuildFailed,
            OrderStage::Sign => OrderError::SignFailed,
            OrderStage::Post => OrderError::PostFailed,
            OrderStage::Refresh => OrderError::RefreshFailed,
            OrderStage::Rebuild => OrderError::RebuildFailed,
            OrderStage::Resign => OrderError::ResignFailed,
            OrderStage::Repost | OrderStage::Finished => OrderError::RetryPostFailed,
        }
    }

    /// Takes note of how the last piece of work went and says what comes next.
    pub fn advance(&mut self, outcome: &StepOutcome) -> (r: OrderStep)
        ensures
            final(self).token_id == old(self).token_id,
            OrderFlow::follows(
                old(self).stage,
                old(self).token_id@,
                *outcome,
                final(self).stage,
                r,
            ),
    {
        let from: OrderStage = self.stage;
        let (stage, step) = match outcome {
            StepOutcome::Done => match from {
                OrderStage::Client | OrderStage::ClientRetry => OrderFlow::build_step(
                    self.token_id.as_str(),
                    OrderStage::Build,
                ),
                OrderStage::Refresh => OrderFlow::build_step(
                    self.token_id.as_str(),
                    OrderStage::Rebuild,
                ),
                OrderStage::Build => (OrderStage::Sign, OrderStep::Sign),
                OrderStage::Rebuild => (OrderStage::Resign, OrderStep::Sign),
                OrderStage::Sign => (OrderStage::Post, OrderStep::Post),
                OrderStage::Resign => (OrderStage::Repost, OrderStep::Post),
                _ => (
                    OrderStage::Finished,
                    OrderStep::Finish(Err(OrderFlow::failure_at(from))),
                ),
            },
            StepOutcome::AmountRefused => match from {
                OrderStage::Build | OrderStage::Rebuild => (
                    OrderStage::Finished,
                    OrderStep::Finish(Err(OrderError::InvalidAmount)),
                ),
                _ => (
                    OrderStage::Finished,
                    OrderStep::Finish(Err(OrderFlow::failure_at(from))),
                ),
            },
            StepOutcome::Answered { reply } => match from {
                OrderStage::Post | OrderStage::Repost => (
                    OrderStage::Finished,
                    OrderStep::Finish(Ok(to_order_result(reply))),
                ),
                _ => (
                    OrderStage::Finished,
                    OrderStep::Finish(Err(OrderFlow::failure_at(from))),
                ),
            },
            StepOutcome::Failed { error } => match from {
                OrderStage::Client => (OrderStage::ClientRetry, OrderStep::Authenticate),
                OrderStage::Post => if is_auth_error(error.as_str()) {
                    (OrderStage::Refresh, OrderStep::Authenticate)
                } else {
                    (OrderStage::Finished, OrderStep::Finish(Err(OrderError::PostFailed)))
                },
                _ => (
                    OrderStage::Finished,
                    OrderStep::Finish(Err(OrderFlow::failure_at(from))),
                ),
            },
        };
        self.stage = stage;
        step
    }

    /// How far a stage is from the start.
    pub open spec fn progress(stage: OrderStage) -> nat {
        match stage {
            OrderStage::Client => 0,
            OrderStage::ClientRetry => 1,
            OrderStage::Build => 2,
            OrderStage::Sign => 3,
            OrderStage::Post => 4,
            OrderStage::Refresh => 5,
            OrderStage::Rebuild => 6,
            OrderStage::Resign => 7,
            OrderStage::Repost => 8,
            OrderStage::Finished => 9,
        }
    }
}

/// A first sign-in that fails is not the end: where the second one succeeds, the
/// submission goes on as if the first one had.
pub proof fn lemma_sign_in_is_retried(
    token_id: Seq<char>,
    error: String,
    retry: (OrderStage, OrderStep),
    after_retry: (OrderStage, OrderStep),
    at_once: (OrderStage, OrderStep),
)
    requires
        OrderFlow::follows(
            OrderStage::Client,
            token_id,
            (StepOutcome::Failed { error }),
            retry.0,
            retry.1,
        ),
        OrderFlow::follows(retry.0, token_id, StepOutcome::Done, after_retry.0, after_retry.1),
        OrderFlow::follows(
            OrderStage::Client,
            token_id,
            StepOutcome::Done,
            at_once.0,
            at_once.1,
        ),
    ensures
        retry.1 is Authenticate,
        after_retry.0 == at_once.0,
        OrderFlow::is_build(after_retry.1, token_id) && OrderFlow::is_build(at_once.1, token_id),
{
}

/// A submission always moves on, so that it ends after at most nine pieces of
/// work; a failed sign-in is tried once more; and an order is posted a second
/// time at most, and that only after the first posting failed for want of
/// signing in.
pub proof fn lemma_one_retry(
    from: OrderStage,
    token_id: Seq<char>,
    outcome: StepOutcome,
    stage: OrderStage,
    step: OrderStep,
)
    requires
        !(from is Finished),
        OrderFlow::follows(from, token_id, outcome, stage, step),
    ensures
        OrderFlow::progress(from) < OrderFlow::progress(stage),
        step is Post <==> stage is Post || stage is Repost,
        step is Finish <==> stage is Finished,
        stage is ClientRetry <==> from is Client && outcome is Failed,
        step is Authenticate <==> stage is ClientRetry || stage is Refresh,
        stage is Refresh ==> from is Post && (outcome matches StepOutcome::Failed { error }
            && wants_sign_in(error@)),
{
}

/// The side of an order.
pub open spec fn side_of(terms: OrderTerms) -> OrderSide {
    match terms {
        OrderTerms::Market { side, .. } => side,
        OrderTerms::Limit { side, .. } => side,
    }
}

/// A dry run never sends an order, and a live one never makes up an outcome.
pub proof fn lemma_dry_run_sends_nothing(
    dry_run: bool,
    size_usd: Binary64,
    amount: Option<DecimalParts>,
    hint_price: Option<DecimalParts>,
    price: Binary64,
    shares: Binary64,
    price_dec: Option<DecimalParts>,
    size_dec: Option<DecimalParts>,
    close: Result<OrderPlan, OrderError>,
)
    requires
        close_plan(close, dry_run, shares, size_dec),
    ensures
        dry_run <==> leg1_plan(dry_run, size_usd, amount, hint_price) is Simulated,
        dry_run ==> leg2_plan(dry_run, price, shares, price_dec, size_dec) is Ok && leg2_plan(
            dry_run,
            price,
            shares,
            price_dec,
            size_dec,
        )->Ok_0 is Simulated,
        dry_run ==> close is Ok && close->Ok_0 is Simulated,
        !dry_run && leg2_plan(dry_run, price, shares, price_dec, size_dec) is Ok ==> leg2_plan(
            dry_run,
            price,
            shares,
            price_dec,
            size_dec,
        )->Ok_0 is Submit,
        !dry_run && close is Ok ==> close->Ok_0 is Submit,
{
}

/// Both legs buy and a force close sells: the first leg spends its amount at
/// market, the second rests in the book at its price in its size, and the close
/// sells its shares, cut off after two digits, at market for a cent or more.
pub proof fn lemma_legs_buy_and_close_sells(
    size_usd: Binary64,
    amount: DecimalParts,
    hint_price: Option<DecimalParts>,
    price: Binary64,
    shares: Binary64,
    price_dec: DecimalParts,
    size_dec: DecimalParts,
    close: Result<OrderPlan, OrderError>,
)
    requires
        close_plan(close, false, shares, Some(size_dec)),
    ensures
        ({
            let first = leg1_plan(false, size_usd, Some(amount), hint_price)->Submit_0;
            let second = leg2_plan(
                false,
                price,
                shares,
                Some(price_dec),
                Some(size_dec),
            )->Ok_0->Submit_0;
            let last = close->Ok_0->Submit_0;
            &&& close is Ok
            &&& first is Market && second is Limit && last is Market
            &&& side_of(first) is Buy && side_of(second) is Buy && side_of(last) is Sell
            &&& first.requested() == amount && second.requested() == size_dec
            &&& first->Market_hint_price == hint_price
            &&& second->Limit_price == price_dec
            &&& size_dec.cut_to(last.requested(), 2)
            &&& last->Market_hint_price is Some && last->Market_hint_price->0.mantissa == 1
                && last->Market_hint_price->0.scale == 2
        }),
{
}

/// Without a decimal form of the size 25 dollars are spent; without one of the
/// price or of the shares a live second leg, or a live close, is not placed.
pub proof fn lemma_missing_amounts(
    size_usd: Binary64,
    hint_price: Option<DecimalParts>,
    price: Binary64,
    shares: Binary64,
    price_dec: Option<DecimalParts>,
    size_dec: Option<DecimalParts>,
    close: Result<OrderPlan, OrderError>,
)
    requires
        close_plan(close, false, shares, size_dec),
    ensures
        leg1_plan(false, size_usd, None, hint_price)->Submit_0.requested().mantissa == 250,
        leg1_plan(false, size_usd, None, hint_price)->Submit_0.requested().scale == 1,
        leg2_plan(false, price, shares, price_dec, size_dec) is Ok <==> price_dec is Some
            && size_dec is Some,
        price_dec is None ==> leg2_plan(false, price, shares, price_dec, size_dec) == Err::<
            OrderPlan,
            OrderError,
        >(OrderError::InvalidLeg2Price),
        price_dec is Some && size_dec is None ==> leg2_plan(
            false,
            price,
            shares,
            price_dec,
            size_dec,
        ) == Err::<OrderPlan, OrderError>(OrderError::InvalidLeg2Shares),
        close is Ok <==> size_dec is Some,
        size_dec is None ==> close == Err::<OrderPlan, OrderError>(OrderError::InvalidCloseShares),
{
}

/// A simulated first leg fills at half a dollar: twice as many shares as dollars.
/// A simulated second leg fills at its price, and a simulated close at half a
/// dollar, both in all their shares.
pub proof fn lemma_simulated_fills(
    size_usd: Binary64,
    amount: Option<DecimalParts>,
    hint_price: Option<DecimalParts>,
    price: Binary64,
    shares: Binary64,
    price_dec: Option<DecimalParts>,
    size_dec: Option<DecimalParts>,
    close: Result<OrderPlan, OrderError>,
)
    requires
        close_plan(close, true, shares, size_dec),
        size_usd.finite(),
        0 <= size_usd.units(),
        !size_usd.negative(),
    ensures
        ({
            let first = leg1_plan(true, size_usd, amount, hint_price)->Simulated_0;
            &&& first is Filled
            &&& 2 * first->Filled_fill_price.units() == precision::one()
            &&& first->Filled_shares.finite() ==> first->Filled_shares.units() == 2
                * size_usd.units()
        }),
        leg2_plan(true, price, shares, price_dec, size_dec) == Ok::<OrderPlan, OrderError>(
            OrderPlan::Simulated(OrderResult::Filled { fill_price: price, shares }),
        ),
        close->Ok_0->Simulated_0 is Filled,
        close->Ok_0->Simulated_0->Filled_shares == shares,
        2 * close->Ok_0->Simulated_0->Filled_fill_price.units() == precision::one(),
{
    algebra::lemma_ratio_cancels(1, 2, 50);
    algebra::lemma_half();
    algebra::lemma_over_half(size_usd);
}

/// An order is filled exactly where the answer is a success and its status says
/// matched, delayed or live; every other answer is a rejection.
pub proof fn lemma_filled_answers(r: OrderResult, reply: OrderReply)
    requires
        outcome_of(r, reply),
    ensures
        r is Filled <==> reply.success && (reply.status is Matched || reply.status is Delayed
            || reply.status is Live),
        r is Rejected <==> !(r is Filled),
        !reply.success && reply.error_msg is Some ==> r->Rejected_reason
            == reply.error_msg->0,
        !reply.success && reply.error_msg is None ==> r->Rejected_reason == reply.status_name,
{
}

/// A matched order brings in the shares that were taken, at the price at which
/// what was made pays for them: the double nearest to the ratio of the two
/// amounts. The same amounts make a price of one, and nothing made a price of
/// nothing. An order that rests in the book counts as filled in full, at a price
/// that is not known.
pub proof fn lemma_fill_price_pays(r: OrderResult, reply: OrderReply)
    requires
        outcome_of(r, reply),
        reply.success,
    ensures
        reply.status is Matched && reply.taking_amount is Some ==> r->Filled_shares
            == reply.taking_amount->0,
        reply.status is Matched && reply.making_amount is Some && reply.taking_amount is Some ==> {
            let making = reply.making_amount->0;
            let taking = reply.taking_amount->0;
            making.finite() && !making.negative() && taking.finite() && taking.units() > 0 ==> {
                &&& r->Filled_fill_price == Binary64::of_ratio(
                    making.units() as nat,
                    taking.units() as nat,
                )
                &&& making == taking ==> r->Filled_fill_price == Binary64::of_nat(1)
            }
        },
        reply.status is Delayed || reply.status is Live ==> r->Filled_fill_price
            == Binary64::nothing() && (reply.requested_amount is Some ==> r->Filled_shares
            == reply.requested_amount->0),
{
    if reply.status is Matched && reply.making_amount is Some && reply.taking_amount is Some {
        let making = reply.making_amount->0;
        let taking = reply.taking_amount->0;
        if making.finite() && !making.negative() && taking.finite() && taking.units() > 0 {
            precision::lemma_signed(false, 0);
            precision::lemma_order(Binary64::nothing(), taking);
            algebra::lemma_quotient_is_ratio(making, taking);
            if making == taking {
                algebra::lemma_self_quotient(making);
            }
        }
    }
}

/// The pieces of work come in their order: an order is built by a client that has
/// just signed in, for its own token, signed once it is built, and posted once it
/// is signed; and work that is done is followed by the next piece.
pub proof fn lemma_work_in_order(
    from: OrderStage,
    token_id: Seq<char>,
    outcome: StepOutcome,
    stage: OrderStage,
    step: OrderStep,
)
    requires
        OrderFlow::follows(from, token_id, outcome, stage, step),
        identifiers::token_bytes(token_id) is Some,
    ensures
        step is Build <==> outcome is Done && (from is Client || from is ClientRetry
            || from is Refresh),
        step is Build ==> Some(step->token@) == identifiers::token_bytes(token_id),
        step is Sign <==> outcome is Done && (from is Build || from is Rebuild),
        step is Post <==> outcome is Done && (from is Sign || from is Resign),
        step is Build ==> stage is Build || stage is Rebuild,
        step is Sign ==> stage is Sign || stage is Resign,
        step is Build && from is Refresh ==> stage is Rebuild,
        step is Sign && from is Rebuild ==> stage is Resign,
        step is Post && from is Resign ==> stage is Repost,
        step is Finish && step->Finish_0 is Ok <==> outcome is Answered && (from is Post
            || from is Repost),
        step is Finish && step->Finish_0 is Ok ==> outcome_of(
            step->Finish_0->Ok_0,
            outcome->reply,
        ),
{
}

/// Each failure is told by the piece of work that failed.
pub proof fn lemma_failures_are_told(
    from: OrderStage,
    token_id: Seq<char>,
    error: String,
    stage: OrderStage,
    step: OrderStep,
)
    requires
        OrderFlow::follows(from, token_id, (StepOutcome::Failed { error }), stage, step),
        step is Finish,
    ensures
        step->Finish_0 is Err,
        from is ClientRetry ==> step->Finish_0->Err_0 is AuthenticationFailed,
        from is Build ==> step->Finish_0->Err_0 is BuildFailed,
        from is Sign ==> step->Finish_0->Err_0 is SignFailed,
        from is Post ==> step->Finish_0->Err_0 is PostFailed && !wants_sign_in(error@),
        from is Refresh ==> step->Finish_0->Err_0 is RefreshFailed,
        from is Rebuild ==> step->Finish_0->Err_0 is RebuildFailed,
        from is Resign ==> step->Finish_0->Err_0 is ResignFailed,
        from is Repost ==> step->Finish_0->Err_0 is RetryPostFailed,
        !(from is Client),
{
}

/// Only the two codes and the word for it mean that the client is not signed in.
pub proof fn lemma_sign_in_words(error: Seq<char>)
    ensures
        wants_sign_in(error) <==> text::occurs_in(error, "401"@) || text::occurs_in(error, "403"@)
            || text::occurs_in(error, "UNAUTHENTICATED"@),
{
}

/// A client signs in for the funder where there is one, by all its 20 bytes, and
/// for itself where there is none; a funder that cannot be read is an error.
pub proof fn lemma_signs_in_for_funder(
    r: Result<AuthPlan, OrderError>,
    funder_address: Option<String>,
)
    requires
        signs_in_as(r, funder_address),
    ensures
        funder_address is None ==> r is Ok && r->Ok_0.funder is None,
        funder_address is Some ==> (r is Ok <==> identifiers::hex_bytes(
            funder_address->0@,
            20,
        ) is Some),
        funder_address is Some && r is Ok ==> r->Ok_0.funder is Some && Some(
            r->Ok_0.funder->0@,
        ) == identifiers::hex_bytes(funder_address->0@, 20),
        r is Err ==> r->Err_0 is InvalidFunderAddress,
{
}

/// A request says which order it asks for.
pub proof fn lemma_request_kinds(request: OrderRequest)
    ensures
        request is Leg1Market <==> request.asked() is Leg1,
        request is Leg2Limit <==> request.asked() is Leg2,
        request is ForceClose <==> request.asked() is ForceClose,
{
}

/// An executor is made for every private key that can be read, and for no other;
/// it trades for real only if it is told to, and starts without a client.
pub proof fn lemma_executor(
    clob_url: String,
    private_key: Seq<char>,
    funder_address: Option<String>,
    dry_run: bool,
)
    ensures
        ({
            let r = executor_of(clob_url, private_key, funder_address, dry_run);
            &&& r is Ok <==> identifiers::is_private_key(private_key)
            &&& r is Err ==> r->Err_0 is InvalidPrivateKey
            &&& r is Ok ==> r->Ok_0.dry_run == dry_run && !r->Ok_0.signed_in
                && r->Ok_0.funder_address == funder_address && r->Ok_0.clob_url == clob_url
        }),
{
}

/// There is a client exactly after an attempt to sign in that succeeded; a failed
/// one leaves none, so that the next order signs in first.
pub proof fn lemma_client_after_sign_in(
    executor: OrderExecutor,
    outcome: StepOutcome,
    flow: OrderFlow,
    step: OrderStep,
    token_id: String,
)
    requires
        OrderFlow::starts(flow, step, token_id, after_sign_in(executor, outcome).signed_in),
        identifiers::token_bytes(token_id@) is Some,
    ensures
        outcome is Done <==> step is Build,
        !(outcome is Done) <==> step is Authenticate,
        flow.token_id == token_id,
        step is Build ==> flow.stage is Build,
        step is Authenticate ==> flow.stage is Client,
        after_sign_in(executor, outcome).dry_run == executor.dry_run,
{
}

} // verus!
