//! Redemption of what resolved markets owe.

use crate::execution::identifiers;
use crate::execution::identifiers::{accepts_private_key, parse_condition};
use crate::utils::clock;
use crate::utils::clock::Timestamp;
use crate::utils::text;
use crate::utils::text::{contains_text, same_text};
use std::collections::VecDeque;
use vstd::prelude::*;
use vstd::string::*;

verus! {

/// Delay after market end before attempting redemption (seconds).
pub const REDEEM_DELAY_SECS: u64 = 120;

/// Delay before a redemption is attempted again (seconds).
pub const RETRY_DELAY_SECS: u64 = 30;

/// How often a redemption is attempted.
pub const MAX_ATTEMPTS: u32 = 10;

/// A resolved market waiting for redemption.
#[derive(Debug, Clone)]
pub struct PendingRedemption {
    pub condition_id: String,
    pub slug: String,
    pub market_end_ts: Timestamp,
    pub redeem_after: Timestamp,
    pub attempts: u32,
}

/// Command sent to the background redeemer task.
#[derive(Debug)]
pub enum RedeemCommand {
    Schedule { condition_id: String, slug: String, market_end_ts: Timestamp },
}

/// How an attempt at a redemption ended.
#[derive(Debug, Clone, Copy, PartialEq, Eq, Structural)]
pub enum RedeemOutcome {
    Redeemed,
    NotResolved,
    Failed,
}

/// What to do about a redemption that is due.
#[derive(Debug)]
pub enum RedeemPlan {
    /// Nothing is sent; it counts as redeemed.
    Simulated,
    /// The condition cannot be read.
    InvalidCondition,
    /// The private key cannot be read.
    InvalidKey,
    /// Redeem the condition with these 32 bytes.
    Submit { condition: Vec<u8> },
}

/// Manages auto-redemption of winning tokens after market resolution.
#[derive(Debug)]
pub struct Redeemer {
    pending: VecDeque<PendingRedemption>,
    rpc_url: String,
    private_key: String,
    dry_run: bool,
}

impl PendingRedemption {
    /// Whether the time for the redemption has come.
    pub open spec fn due(self, now: Timestamp) -> bool {
        self.redeem_after.nanos() <= now.nanos()
    }

    /// Whether `later` is this redemption after one more attempt, to be repeated
    /// half a minute after `now`.
    pub open spec fn put_off(self, later: PendingRedemption, now: Timestamp) -> bool {
        &&& later.condition_id == self.condition_id
        &&& later.slug == self.slug
        &&& later.market_end_ts == self.market_end_ts
        &&& later.redeem_after.nanos() == now.nanos() + RETRY_DELAY_SECS * clock::NANOS_PER_SEC
        &&& later.attempts == self.attempts + 1
    }
}

/// How many redemptions are due.
pub open spec fn due_count(queue: Seq<PendingRedemption>, now: Timestamp) -> nat
    decreases queue.len(),
{
    if queue.len() == 0 {
        0
    } else {
        due_count(queue.drop_last(), now) + (if queue.last().due(now) {
            1nat
        } else {
            0
        })
    }
}

/// How many of some outcomes are redemptions.
pub open spec fn redeemed_count(outcomes: Seq<RedeemOutcome>) -> nat
    decreases outcomes.len(),
{
    if outcomes.len() == 0 {
        0
    } else {
        redeemed_count(outcomes.drop_last()) + (if outcomes.last() == RedeemOutcome::Redeemed {
            1nat
        } else {
            0
        })
    }
}

/// Whether `after` is what is left of a queue once the due redemptions ended
/// with these outcomes, in order: those not yet due stay, the redeemed ones
/// leave, and the others are put off or, after the last attempt, given up.
pub open spec fn settled(
    queue: Seq<PendingRedemption>,
    outcomes: Seq<RedeemOutcome>,
    after: Seq<PendingRedemption>,
    now: Timestamp,
) -> bool
    decreases queue.len(),
{
    if queue.len() == 0 {
        after.len() == 0
    } else {
        let p = queue.last();
        let before = queue.drop_last();
        if !p.due(now) {
            &&& after.len() > 0
            &&& after.last() == p
            &&& settled(before, outcomes, after.drop_last(), now)
        } else if outcomes.last() == RedeemOutcome::Redeemed || p.attempts + 1 >= MAX_ATTEMPTS {
            settled(before, outcomes.drop_last(), after, now)
        } else {
            &&& after.len() > 0
            &&& p.put_off(after.last(), now)
            &&& settled(before, outcomes.drop_last(), after.drop_last(), now)
        }
    }
}

/// Whether a round ends with so many redemptions and this queue.
pub open spec fn ends_round(
    redeemed: nat,
    queue: Seq<PendingRedemption>,
    outcomes: Seq<RedeemOutcome>,
    after: Seq<PendingRedemption>,
    now: Timestamp,
) -> bool {
    redeemed == redeemed_count(outcomes) && settled(queue, outcomes, after, now)
}

/// Whether a condition is waiting for redemption.
pub open spec fn waiting(queue: Seq<PendingRedemption>, condition_id: Seq<char>) -> bool {
    exists|i: int| 0 <= i < queue.len() && (#[trigger] queue[i]).condition_id@ == condition_id
}

/// Whether no condition is waiting twice.
pub open spec fn waiting_once(queue: Seq<PendingRedemption>) -> bool {
    forall|i: int, j: int|
        0 <= i < j < queue.len() ==> (#[trigger] queue[i]).condition_id@ != (
        #[trigger] queue[j]).condition_id@
}

/// Whether every redemption that is waiting has attempts left.
pub open spec fn attempts_left(queue: Seq<PendingRedemption>) -> bool {
    forall|i: int| 0 <= i < queue.len() ==> (#[trigger] queue[i]).attempts < MAX_ATTEMPTS
}

/// A queue grows by nothing when it is settled: each redemption that is left
/// stood in it before, under the same condition.
pub proof fn lemma_settled_keeps(
    queue: Seq<PendingRedemption>,
    outcomes: Seq<RedeemOutcome>,
    after: Seq<PendingRedemption>,
    now: Timestamp,
    i: int,
)
    requires
        settled(queue, outcomes, after, now),
        0 <= i < after.len(),
    ensures
        waiting(queue, after[i].condition_id@),
        after.len() <= queue.len(),
    decreases queue.len(),
{
    let p = queue.last();
    let before = queue.drop_last();
    if !p.due(now) {
        if i < after.len() - 1 {
            lemma_settled_keeps(before, outcomes, after.drop_last(), now, i);
            lemma_waiting_longer(queue, after[i].condition_id@);
        } else {
            lemma_settled_short(before, outcomes, after.drop_last(), now);
            assert(queue[queue.len() - 1].condition_id@ == after[i].condition_id@);
        }
    } else if outcomes.last() == RedeemOutcome::Redeemed || p.attempts + 1 >= MAX_ATTEMPTS {
        lemma_settled_keeps(before, outcomes.drop_last(), after, now, i);
        lemma_waiting_longer(queue, after[i].condition_id@);
    } else {
        if i < after.len() - 1 {
            lemma_settled_keeps(before, outcomes.drop_last(), after.drop_last(), now, i);
            lemma_waiting_longer(queue, after[i].condition_id@);
        } else {
            lemma_settled_short(before, outcomes.drop_last(), after.drop_last(), now);
            assert(queue[queue.len() - 1].condition_id@ == after[i].condition_id@);
        }
    }
}

proof fn lemma_waiting_longer(queue: Seq<PendingRedemption>, condition_id: Seq<char>)
    requires
        queue.len() > 0,
        waiting(queue.drop_last(), condition_id),
    ensures
        waiting(queue, condition_id),
{
    let j = choose|j: int|
        0 <= j < queue.drop_last().len() && (#[trigger] queue.drop_last()[j]).condition_id@
            == condition_id;
    assert(queue[j].condition_id@ == condition_id);
}

proof fn lemma_settled_short(
    queue: Seq<PendingRedemption>,
    outcomes: Seq<RedeemOutcome>,
    after: Seq<PendingRedemption>,
    now: Timestamp,
)
    requires
        settled(queue, outcomes, after, now),
    ensures
        after.len() <= queue.len(),
    decreases queue.len(),
{
    if queue.len() > 0 {
        let p = queue.last();
        let before = queue.drop_last();
        if !p.due(now) {
            lemma_settled_short(before, outcomes, after.drop_last(), now);
        } else if outcomes.last() == RedeemOutcome::Redeemed || p.attempts + 1 >= MAX_ATTEMPTS {
            lemma_settled_short(before, outcomes.drop_last(), after, now);
        } else {
            lemma_settled_short(before, outcomes.drop_last(), after.drop_last(), now);
        }
    }
}

/// Whether a queue is what it was with a market at its end, to be redeemed two
/// minutes after the market's end; or just what it was, where the market's
/// condition is waiting already.
pub open spec fn scheduled(
    queue: Seq<PendingRedemption>,
    before: Seq<PendingRedemption>,
    condition_id: String,
    slug: String,
    market_end_ts: Timestamp,
) -> bool {
    if waiting(before, condition_id@) {
        queue == before
    } else {
        let last = queue.last();
        &&& queue == before.push(last)
        &&& last.condition_id == condition_id
        &&& last.slug == slug
        &&& last.market_end_ts == market_end_ts
        &&& last.redeem_after.nanos() == market_end_ts.nanos() + REDEEM_DELAY_SECS
            * clock::NANOS_PER_SEC
        &&& last.attempts == 0
    }
}

/// Nothing leaves the queue before its time: a redemption that is not due is
/// still waiting after a round.
pub proof fn lemma_settled_waits(
    queue: Seq<PendingRedemption>,
    outcomes: Seq<RedeemOutcome>,
    after: Seq<PendingRedemption>,
    now: Timestamp,
    i: int,
)
    requires
        settled(queue, outcomes, after, now),
        0 <= i < queue.len(),
        !queue[i].due(now),
    ensures
        waiting(after, queue[i].condition_id@),
    decreases queue.len(),
{
    let p = queue.last();
    let before = queue.drop_last();
    if !p.due(now) {
        if i < queue.len() - 1 {
            lemma_settled_waits(before, outcomes, after.drop_last(), now, i);
            lemma_waiting_longer(after, queue[i].condition_id@);
        } else {
            assert(after[after.len() - 1].condition_id@ == queue[i].condition_id@);
        }
    } else if outcomes.last() == RedeemOutcome::Redeemed || p.attempts + 1 >= MAX_ATTEMPTS {
        lemma_settled_waits(before, outcomes.drop_last(), after, now, i);
    } else {
        lemma_settled_waits(before, outcomes.drop_last(), after.drop_last(), now, i);
        lemma_waiting_longer(after, queue[i].condition_id@);
    }
}

/// Settling keeps every condition waiting at most once.
pub proof fn lemma_settled_once(
    queue: Seq<PendingRedemption>,
    outcomes: Seq<RedeemOutcome>,
    after: Seq<PendingRedemption>,
    now: Timestamp,
)
    requires
        settled(queue, outcomes, after, now),
        waiting_once(queue),
    ensures
        waiting_once(after),
    decreases queue.len(),
{
    if queue.len() > 0 {
        let p = queue.last();
        let before = queue.drop_last();
        assert(waiting_once(before)) by {
            assert forall|i: int, j: int| 0 <= i < j < before.len() implies (
            #[trigger] before[i]).condition_id@ != (#[trigger] before[j]).condition_id@ by {
                assert(queue[i].condition_id@ != queue[j].condition_id@);
            }
        }
        if p.due(now) && (outcomes.last() == RedeemOutcome::Redeemed || p.attempts + 1
            >= MAX_ATTEMPTS) {
            lemma_settled_once(before, outcomes.drop_last(), after, now);
        } else {
            let rest = if p.due(now) { outcomes.drop_last() } else { outcomes };
            let kept = after.drop_last();
            lemma_settled_once(before, rest, kept, now);
            assert forall|i: int, j: int| 0 <= i < j < after.len() implies (
            #[trigger] after[i]).condition_id@ != (#[trigger] after[j]).condition_id@ by {
                if j == after.len() - 1 {
                    assert(kept[i] == after[i]);
                    lemma_settled_keeps(before, rest, kept, now, i);
                    let k = choose|k: int|
                        0 <= k < before.len() && (#[trigger] before[k]).condition_id@
                            == kept[i].condition_id@;
                    assert(queue[k].condition_id@ != queue[queue.len() - 1].condition_id@);
                } else {
                    assert(kept[i].condition_id@ != kept[j].condition_id@);
                }
            }
        }
    }
}

/// Settling leaves nothing in the queue that has used up its attempts.
pub proof fn lemma_settled_attempts(
    queue: Seq<PendingRedemption>,
    outcomes: Seq<RedeemOutcome>,
    after: Seq<PendingRedemption>,
    now: Timestamp,
)
    requires
        settled(queue, outcomes, after, now),
        attempts_left(queue),
    ensures
        attempts_left(after),
    decreases queue.len(),
{
    if queue.len() > 0 {
        let p = queue.last();
        let before = queue.drop_last();
        assert(attempts_left(before));
        if p.due(now) && (outcomes.last() == RedeemOutcome::Redeemed || p.attempts + 1
            >= MAX_ATTEMPTS) {
            lemma_settled_attempts(before, outcomes.drop_last(), after, now);
        } else {
            let rest = if p.due(now) { outcomes.drop_last() } else { outcomes };
            let kept = after.drop_last();
            lemma_settled_attempts(before, rest, kept, now);
            assert(queue[queue.len() - 1].attempts < MAX_ATTEMPTS);
            assert forall|i: int| 0 <= i < after.len() implies (#[trigger] after[i]).attempts
                < MAX_ATTEMPTS by {
                if i < kept.len() {
                    assert(kept[i].attempts < MAX_ATTEMPTS);
                }
            }
        }
    }
}

/// Whether `r` is what to do about a condition: nothing where redemptions are
/// only simulated, and else to redeem it if it and the key can be read.
pub open spec fn plan_of(
    r: RedeemPlan,
    simulates: bool,
    key: Seq<char>,
    condition_id: Seq<char>,
) -> bool {
    if simulates {
        r is Simulated
    } else {
        match identifiers::hex_bytes(condition_id, 32) {
            None => r is InvalidCondition,
            Some(bytes) => if identifiers::is_private_key(key) {
                r matches RedeemPlan::Submit { condition } && condition@ == bytes
            } else {
                r is InvalidKey
            },
        }
    }
}

impl Redeemer {
    #[verifier::type_invariant]
    spec fn inv(self) -> bool {
        attempts_left(self.pending@) && waiting_once(self.pending@)
    }

    /// The redemptions that are waiting, in order.
    pub closed spec fn queue(&self) -> Seq<PendingRedemption> {
        self.pending@
    }

    pub closed spec fn key(&self) -> Seq<char> {
        self.private_key@
    }

    pub closed spec fn simulates(&self) -> bool {
        self.dry_run
    }

    pub closed spec fn endpoint(&self) -> String {
        self.rpc_url
    }

    pub fn new(rpc_url: String, private_key: String, dry_run: bool) -> (r: Self)
        ensures
            r.queue() == Seq::<PendingRedemption>::empty(),
            r.endpoint() == rpc_url,
            r.key() == private_key@,
            r.simulates() == dry_run,
    {
        Redeemer { pending: VecDeque::new(), rpc_url, private_key, dry_run }
    }

    /// Where redemptions are submitted.
    pub fn rpc_url(&self) -> (r: &String)
        ensures
            *r == self.endpoint(),
    {
        &self.rpc_url
    }

    fn is_waiting(&self, condition_id: &str) -> (r: bool)
        ensures
            r == waiting(self.pending@, condition_id@),
    {
        let mut i: usize = 0;
        while i < self.pending.len()
            invariant
                i <= self.pending@.len(),
                forall|j: int|
                    0 <= j < i ==> (#[trigger] self.pending@[j]).condition_id@ != condition_id@,
            decreases self.pending@.len() - i,
        {
            if same_text(self.pending[i].condition_id.as_str(), condition_id) {
                assert(self.pending@[i as int].condition_id@ == condition_id@);
                return true;
            }
            i = i + 1;
        }
        false
    }

    /// Puts a market in the queue, to be redeemed two minutes after its end,
    /// unless its condition is waiting already.
    pub fn schedule_redemption(
        &mut self,
        condition_id: String,
        slug: String,
        market_end_ts: Timestamp,
    )
        requires
            clock::in_calendar(market_end_ts.seconds() + REDEEM_DELAY_SECS),
        ensures
            waiting_once(final(self).queue()),
            final(self).endpoint() == old(self).endpoint(),
            final(self).key() == old(self).key(),
            final(self).simulates() == old(self).simulates(),
            scheduled(
                final(self).queue(),
                old(self).queue(),
                condition_id,
                slug,
                market_end_ts,
            ),
    {
        proof {
            use_type_invariant(&*self);
        }
        let redeem_after: Timestamp = market_end_ts.plus_secs(REDEEM_DELAY_SECS as i64);
        if self.is_waiting(condition_id.as_str()) {
            return ;
        }
        let ghost before = self.pending@;
        let mut pending: VecDeque<PendingRedemption> = VecDeque::new();
        std::mem::swap(&mut self.pending, &mut pending);
        let last = PendingRedemption {
            condition_id,
            slug,
            market_end_ts,
            redeem_after,
            attempts: 0,
        };
        pending.push_back(last);
        proof {
            let after = pending@;
            assert(after =~= before.push(last));
            assert forall|i: int, j: int| 0 <= i < j < after.len() implies (
            #[trigger] after[i]).condition_id@ != (#[trigger] after[j]).condition_id@ by {
                if j == before.len() {
                    assert(before[i].condition_id@ != condition_id@);
                }
            }
        }
        self.pending = pending;
    }

    /// Handles a command.
    pub fn handle(&mut self, command: RedeemCommand)
        requires
            command matches RedeemCommand::Schedule { market_end_ts, .. }
                ==> clock::in_calendar(market_end_ts.seconds() + REDEEM_DELAY_SECS),
        ensures
            waiting_once(final(self).queue()),
            final(self).endpoint() == old(self).endpoint(),
            final(self).key() == old(self).key(),
            final(self).simulates() == old(self).simulates(),
            command matches RedeemCommand::Schedule { condition_id, slug, market_end_ts }
                ==> scheduled(
                final(self).queue(),
                old(self).queue(),
                condition_id,
                slug,
                market_end_ts,
            ),
    {
        match command {
            RedeemCommand::Schedule { condition_id, slug, market_end_ts } => {
                self.schedule_redemption(condition_id, slug, market_end_ts);
            },
        }
    }

    pub fn pending_count(&self) -> (r: usize)
        ensures
            r == self.queue().len(),
    {
        self.pending.len()
    }

    /// The redemption at a position of the queue.
    pub fn pending_at(&self, i: usize) -> (r: &PendingRedemption)
        requires
            i < self.queue().len(),
        ensures
            *r == self.queue()[i as int],
    {
        &self.pending[i]
    }

    /// Whether the redemption at a position of the queue is due.
    pub fn is_due(&self, i: usize, now: Timestamp) -> (r: bool)
        requires
            i < self.queue().len(),
        ensures
            r == self.queue()[i as int].due(now),
    {
        !now.is_before(self.pending[i].redeem_after)
    }

    /// What to do about a redemption that is due.
    pub fn plan_redeem(&self, pending: &PendingRedemption) -> (r: RedeemPlan)
        ensures
            plan_of(r, self.simulates(), self.key(), pending.condition_id@),
    {
        if self.dry_run {
            return RedeemPlan::Simulated;
        }
        match parse_condition(pending.condition_id.as_str()) {
            None => RedeemPlan::InvalidCondition,
            Some(condition) => if accepts_private_key(self.private_key.as_str()) {
                RedeemPlan::Submit { condition }
            } else {
                RedeemPlan::InvalidKey
            },
        }
    }

    /// Ends a round: takes note of how the due redemptions went, in the order of
    /// the queue, and returns how many were redeemed.
    pub fn tick(&mut self, outcomes: &Vec<RedeemOutcome>, now: Timestamp) -> (r: u32)
        requires
            outcomes@.len() == due_count(old(self).queue(), now),
            outcomes@.len() <= u32::MAX,
            clock::in_calendar(now.seconds() + RETRY_DELAY_SECS),
        ensures
            ends_round(r as nat, old(self).queue(), outcomes@, final(self).queue(), now),
            waiting_once(final(self).queue()),
            attempts_left(final(self).queue()),
            final(self).endpoint() == old(self).endpoint(),
            final(self).key() == old(self).key(),
            final(self).simulates() == old(self).simulates(),
    {
        proof {
            use_type_invariant(&*self);
        }
        let ghost queue = self.pending@;
        let mut rest: VecDeque<PendingRedemption> = VecDeque::new();
        std::mem::swap(&mut self.pending, &mut rest);
        let retry_at: Timestamp = now.plus_secs(RETRY_DELAY_SECS as i64);
        let mut later: VecDeque<PendingRedemption> = VecDeque::new();
        let mut successes: u32 = 0;
        let mut used: usize = 0;
        let ghost mut done: int = 0;
        assert(queue.take(0) =~= Seq::<PendingRedemption>::empty());
        assert(outcomes@.take(0) =~= Seq::<RedeemOutcome>::empty());
        assert(rest@ =~= queue.skip(0));
        while rest.len() > 0
            invariant
                0 <= done <= queue.len(),
                rest@ == queue.skip(done),
                attempts_left(queue),
                outcomes@.len() == due_count(queue, now) <= u32::MAX,
                used == due_count(queue.take(done), now),
                used <= outcomes@.len(),
                successes == redeemed_count(outcomes@.take(used as int)),
                successes <= used,
                settled(queue.take(done), outcomes@.take(used as int), later@, now),
                retry_at.nanos() == now.nanos() + RETRY_DELAY_SECS * clock::NANOS_PER_SEC,
            decreases queue.len() - done,
        {
            if let Some(p) = rest.pop_front() {
                let ghost upto = queue.take(done);
                let ghost next = queue.take(done + 1);
                let ghost before = later@;
                proof {
                    assert(p == queue[done]);
                    assert(rest@ =~= queue.skip(done + 1));
                    assert(next.drop_last() =~= upto);
                    assert(next.last() == p);
                    assert(p.attempts < MAX_ATTEMPTS);
                    lemma_due_count_grows(queue, done + 1, now);
                    done = done + 1;
                }
                if now.is_before(p.redeem_after) {
                    later.push_back(p);
                    assert(later@.drop_last() =~= before);
                } else {
                    let outcome: RedeemOutcome = outcomes[used];
                    let ghost seen = outcomes@.take(used + 1);
                    proof {
                        assert(seen.drop_last() =~= outcomes@.take(used as int));
                    }
                    used = used + 1;
                    if outcome == RedeemOutcome::Redeemed {
                        successes = successes + 1;
                    } else {
                        let attempts: u32 = p.attempts + 1;
                        if attempts < MAX_ATTEMPTS {
                            later.push_back(
                                PendingRedemption {
                                    condition_id: p.condition_id,
                                    slug: p.slug,
                                    market_end_ts: p.market_end_ts,
                                    redeem_after: retry_at,
                                    attempts,
                                },
                            );
                            assert(later@.drop_last() =~= before);
                        }
                    }
                }
            }
        }
        proof {
            assert(queue.take(done) =~= queue);
            assert(outcomes@.take(used as int) =~= outcomes@);
            lemma_settled_attempts(queue, outcomes@, later@, now);
            lemma_settled_once(queue, outcomes@, later@, now);
        }
        self.pending = later;
        successes
    }
}

proof fn lemma_due_count_grows(queue: Seq<PendingRedemption>, i: int, now: Timestamp)
    requires
        0 <= i <= queue.len(),
    ensures
        due_count(queue.take(i), now) <= due_count(queue, now),
    decreases queue.len() - i,
{
    if i == queue.len() {
        assert(queue.take(i) =~= queue);
    } else {
        lemma_due_count_grows(queue, i + 1, now);
        assert(queue.take(i + 1).drop_last() =~= queue.take(i));
    }
}

/// Whether the words of a failure say that the market is not resolved yet.
pub open spec fn says_unresolved(error: Seq<char>) -> bool {
    text::occurs_in(error, "not resolved"@) || text::occurs_in(
        error,
        "payout denominator is not set"@,
    )
}

/// How a redemption ended that was submitted, given the words of its failure.
pub open spec fn outcome_of(failure: Option<Seq<char>>) -> RedeemOutcome {
    match failure {
        None => RedeemOutcome::Redeemed,
        Some(error) => if says_unresolved(error) {
            RedeemOutcome::NotResolved
        } else {
            RedeemOutcome::Failed
        },
    }
}

/// How a redemption ended that was submitted, given the words of its failure.
pub fn classify_redeem(failure: Option<&str>) -> (r: RedeemOutcome)
    ensures
        r == match failure {
            None => outcome_of(None),
            Some(error) => outcome_of(Some(error@)),
        },
{
    match failure {
        None => RedeemOutcome::Redeemed,
        Some(error) => if contains_text(error, "not resolved") || contains_text(
            error,
            "payout denominator is not set",
        ) {
            RedeemOutcome::NotResolved
        } else {
            RedeemOutcome::Failed
        },
    }
}

/// How many redemptions of a queue have reached their time.
pub open spec fn ripe(queue: Seq<PendingRedemption>, now: Timestamp) -> nat
    decreases queue.len(),
{
    if queue.len() == 0 {
        0
    } else {
        ripe(queue.drop_last(), now) + (if queue.last().redeem_after.nanos() <= now.nanos() {
            1nat
        } else {
            0
        })
    }
}

proof fn lemma_ripe_are_due(queue: Seq<PendingRedemption>, now: Timestamp)
    ensures
        ripe(queue, now) == due_count(queue, now),
    decreases queue.len(),
{
    if queue.len() > 0 {
        lemma_ripe_are_due(queue.drop_last(), now);
    }
}

/// A round asks for one outcome for each redemption whose time has come.
pub proof fn lemma_one_outcome_each(queue: Seq<PendingRedemption>, now: Timestamp, i: int)
    requires
        0 <= i < queue.len(),
    ensures
        queue[i].due(now) <==> queue[i].redeem_after.nanos() <= now.nanos(),
        due_count(queue, now) == ripe(queue, now),
        queue[i].redeem_after.nanos() <= now.nanos() ==> ripe(queue.take(i), now) < ripe(
            queue,
            now,
        ),
    decreases queue.len(),
{
    lemma_ripe_are_due(queue, now);
    if i == queue.len() - 1 {
        assert(queue.take(i) =~= queue.drop_last());
    } else {
        lemma_one_outcome_each(queue.drop_last(), now, i);
        assert(queue.drop_last().take(i) =~= queue.take(i));
    }
}

/// Whether a queue holds a redemption as it was.
pub open spec fn holds_unchanged(queue: Seq<PendingRedemption>, p: PendingRedemption) -> bool {
    exists|j: int| 0 <= j < queue.len() && #[trigger] queue[j] == p
}

/// Whether a redemption is another one that waits half a minute more after one
/// more attempt, and is else the same.
pub open spec fn waits_more(
    later: PendingRedemption,
    p: PendingRedemption,
    now: Timestamp,
) -> bool {
    &&& later.condition_id == p.condition_id
    &&& later.slug == p.slug
    &&& later.market_end_ts == p.market_end_ts
    &&& later.redeem_after.nanos() == now.nanos() + 30_000_000_000
    &&& later.attempts == p.attempts + 1
}

pub open spec fn holds_later(
    queue: Seq<PendingRedemption>,
    p: PendingRedemption,
    now: Timestamp,
) -> bool {
    exists|j: int| 0 <= j < queue.len() && waits_more(#[trigger] queue[j], p, now)
}

/// What becomes of each redemption in a round. Before its time it stays as it is.
/// Once its time has come it takes the outcome at its place among those whose time
/// has come: redeemed, it leaves; else it waits half a minute for the next of its
/// ten attempts, and leaves after the last.
pub proof fn lemma_each_takes_its_outcome(
    queue: Seq<PendingRedemption>,
    outcomes: Seq<RedeemOutcome>,
    after: Seq<PendingRedemption>,
    now: Timestamp,
    i: int,
)
    requires
        settled(queue, outcomes, after, now),
        outcomes.len() == ripe(queue, now),
        waiting_once(queue),
        0 <= i < queue.len(),
    ensures
        ({
            let p = queue[i];
            let outcome = outcomes[ripe(queue.take(i), now) as int];
            if p.redeem_after.nanos() > now.nanos() {
                holds_unchanged(after, p)
            } else if outcome is Redeemed || p.attempts >= 9 {
                !waiting(after, p.condition_id@)
            } else {
                holds_later(after, p, now)
            }
        }),
    decreases queue.len(),
{
    let last = queue.last();
    let before = queue.drop_last();
    let ripens = last.redeem_after.nanos() <= now.nanos();
    let rest = if ripens { outcomes.drop_last() } else { outcomes };
    let leaves = ripens && (outcomes.last() == RedeemOutcome::Redeemed || last.attempts + 1
        >= MAX_ATTEMPTS);
    let kept = if leaves { after } else { after.drop_last() };
    lemma_waiting_once_shorter(queue);
    assert(settled(before, rest, kept, now));
    if i < queue.len() - 1 {
        lemma_each_takes_its_outcome(before, rest, kept, now, i);
        assert(before.take(i) =~= queue.take(i));
        let p = queue[i];
        assert(before[i] == p);
        if p.redeem_after.nanos() <= now.nanos() {
            lemma_one_outcome_each(before, now, i);
            let k = ripe(queue.take(i), now) as int;
            assert(rest[k] == outcomes[k]);
        }
        if p.redeem_after.nanos() > now.nanos() {
            let j = choose|j: int| 0 <= j < kept.len() && #[trigger] kept[j] == p;
            assert(after[j] == p);
        } else if outcomes[ripe(queue.take(i), now) as int] is Redeemed || p.attempts >= 9 {
            if waiting(after, p.condition_id@) {
                let j = choose|j: int|
                    0 <= j < after.len() && (#[trigger] after[j]).condition_id@ == p.condition_id@;
                if j < kept.len() {
                    assert(kept[j].condition_id@ == p.condition_id@);
                } else {
                    assert(queue[i].condition_id@ != queue[queue.len() - 1].condition_id@);
                }
            }
        } else {
            let j = choose|j: int| 0 <= j < kept.len() && waits_more(#[trigger] kept[j], p, now);
            assert(waits_more(after[j], p, now));
        }
    } else {
        assert(queue.take(i) =~= before);
        if !ripens {
            assert(after[after.len() - 1] == last);
        } else if leaves {
            if waiting(after, last.condition_id@) {
                let j = choose|j: int|
                    0 <= j < after.len() && (#[trigger] after[j]).condition_id@
                        == last.condition_id@;
                lemma_settled_keeps(before, rest, after, now, j);
                let k = choose|k: int|
                    0 <= k < before.len() && (#[trigger] before[k]).condition_id@
                        == after[j].condition_id@;
                assert(queue[k].condition_id@ != queue[queue.len() - 1].condition_id@);
            }
        } else {
            assert(waits_more(after[after.len() - 1], last, now));
        }
    }
}

proof fn lemma_waiting_once_shorter(queue: Seq<PendingRedemption>)
    requires
        queue.len() > 0,
        waiting_once(queue),
    ensures
        waiting_once(queue.drop_last()),
{
    let before = queue.drop_last();
    assert forall|i: int, j: int| 0 <= i < j < before.len() implies (
    #[trigger] before[i]).condition_id@ != (#[trigger] before[j]).condition_id@ by {
        assert(queue[i].condition_id@ != queue[j].condition_id@);
    }
}

/// A round keeps the queue in order: what stood before another redemption still
/// does.
pub proof fn lemma_settled_keeps_order(
    queue: Seq<PendingRedemption>,
    outcomes: Seq<RedeemOutcome>,
    after: Seq<PendingRedemption>,
    now: Timestamp,
    i1: int,
    i2: int,
    j1: int,
    j2: int,
)
    requires
        settled(queue, outcomes, after, now),
        waiting_once(queue),
        0 <= i1 < queue.len(),
        0 <= i2 < queue.len(),
        0 <= j1 < j2 < after.len(),
        after[j1].condition_id@ == queue[i1].condition_id@,
        after[j2].condition_id@ == queue[i2].condition_id@,
    ensures
        i1 < i2,
    decreases queue.len(),
{
    let last = queue.last();
    let n = queue.len() - 1;
    let before = queue.drop_last();
    let rest = if last.due(now) { outcomes.drop_last() } else { outcomes };
    let leaves = last.due(now) && (outcomes.last() == RedeemOutcome::Redeemed || last.attempts + 1
        >= MAX_ATTEMPTS);
    let kept = if leaves { after } else { after.drop_last() };
    lemma_waiting_once_shorter(queue);
    assert(settled(before, rest, kept, now));
    lemma_settled_keeps(before, rest, kept, now, j1);
    let k1 = choose|k: int|
        0 <= k < before.len() && (#[trigger] before[k]).condition_id@ == kept[j1].condition_id@;
    assert(queue[k1].condition_id@ == queue[i1].condition_id@);
    assert(i1 == k1);
    if j2 < kept.len() {
        lemma_settled_keeps(before, rest, kept, now, j2);
        let k2 = choose|k: int|
            0 <= k < before.len() && (#[trigger] before[k]).condition_id@
                == kept[j2].condition_id@;
        assert(queue[k2].condition_id@ == queue[i2].condition_id@);
        assert(i2 == k2);
        lemma_settled_keeps_order(before, rest, kept, now, i1, i2, j1, j2);
    } else {
        assert(queue[i2].condition_id@ == queue[n].condition_id@);
        assert(i2 == n);
    }
}

/// A market is redeemed two minutes after its end and not before, once: the
/// queue grows by it at its end, and scheduling it again changes nothing.
pub proof fn lemma_scheduled_once(
    queue: Seq<PendingRedemption>,
    before: Seq<PendingRedemption>,
    condition_id: String,
    slug: String,
    market_end_ts: Timestamp,
    again: Seq<PendingRedemption>,
    other_slug: String,
    other_end: Timestamp,
    now: Timestamp,
)
    requires
        scheduled(queue, before, condition_id, slug, market_end_ts),
        scheduled(again, queue, condition_id, other_slug, other_end),
    ensures
        again == queue,
        waiting(queue, condition_id@),
        forall|i: int| 0 <= i < before.len() ==> #[trigger] queue[i] == before[i],
        waiting(before, condition_id@) ==> queue.len() == before.len(),
        !waiting(before, condition_id@) ==> {
            let p = queue[before.len() as int];
            &&& queue.len() == before.len() + 1
            &&& p.condition_id == condition_id && p.slug == slug && p.market_end_ts == market_end_ts
            &&& p.attempts == 0
            &&& p.due(now) <==> market_end_ts.nanos() + 120_000_000_000 <= now.nanos()
        },
{
    if !waiting(before, condition_id@) {
        assert(queue[queue.len() - 1].condition_id@ == condition_id@);
    }
}

/// The redemptions of a round are counted as they were told.
pub proof fn lemma_redeemed_are_counted(outcomes: Seq<RedeemOutcome>, outcome: RedeemOutcome)
    ensures
        redeemed_count(outcomes.push(outcome)) == redeemed_count(outcomes) + (
        if outcome is Redeemed {
            1nat
        } else {
            0
        }),
        redeemed_count(Seq::empty()) == 0,
        redeemed_count(outcomes) <= outcomes.len(),
    decreases outcomes.len(),
{
    assert(outcomes.push(outcome).drop_last() =~= outcomes);
    if outcomes.len() > 0 {
        lemma_redeemed_are_counted(outcomes.drop_last(), outcomes.last());
    }
}

/// Nothing is submitted where redemptions are only simulated, and nothing without
/// a condition of 32 bytes and a private key that can be read.
pub proof fn lemma_submits_only_live(
    r: RedeemPlan,
    simulates: bool,
    key: Seq<char>,
    condition_id: Seq<char>,
)
    requires
        plan_of(r, simulates, key, condition_id),
    ensures
        simulates <==> r is Simulated,
        r is Submit <==> !simulates && identifiers::hex_bytes(condition_id, 32) is Some
            && identifiers::is_private_key(key),
        r is Submit ==> identifiers::hex_bytes(condition_id, 32) == Some(r->condition@),
        r is InvalidCondition <==> !simulates && identifiers::hex_bytes(condition_id, 32) is None,
{
}

/// Only a submission without a failure is a redemption, and only the two phrases
/// for it mean that the market is not resolved.
pub proof fn lemma_outcome_follows_failure(failure: Option<Seq<char>>)
    ensures
        outcome_of(failure) is Redeemed <==> failure is None,
        outcome_of(failure) is NotResolved <==> failure is Some && (text::occurs_in(
            failure->0,
            "not resolved"@,
        ) || text::occurs_in(failure->0, "payout denominator is not set"@)),
{
}

/// How many of some outcomes are those of a redemption.
pub open spec fn successes(outcomes: Seq<RedeemOutcome>) -> nat {
    outcomes.filter(|outcome: RedeemOutcome| outcome is Redeemed).len()
}

/// A round redeems as many as were told to be redeemed.
pub proof fn lemma_round_counts_successes(
    redeemed: nat,
    queue: Seq<PendingRedemption>,
    outcomes: Seq<RedeemOutcome>,
    after: Seq<PendingRedemption>,
    now: Timestamp,
)
    requires
        ends_round(redeemed, queue, outcomes, after, now),
    ensures
        redeemed == successes(outcomes),
{
    lemma_successes(outcomes);
}

proof fn lemma_successes(outcomes: Seq<RedeemOutcome>)
    ensures
        redeemed_count(outcomes) == successes(outcomes),
    decreases outcomes.len(),
{
    reveal(Seq::filter);
    if outcomes.len() > 0 {
        lemma_successes(outcomes.drop_last());
    }
}

} // verus!
