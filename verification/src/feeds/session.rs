//! The life of a socket: connect, subscribe, read, and connect again.

use crate::feeds::polymarket;
use crate::feeds::polymarket::market_subscription;
use crate::utils::text;
use vstd::prelude::*;
use vstd::string::*;

verus! {

/// How a source wants its socket handled.
#[derive(Debug, Clone, Copy, PartialEq, Eq, Structural)]
pub struct SessionPolicy {
    /// Seconds to wait before connecting again.
    pub reconnect_secs: u64,
    /// Seconds to wait before connecting again where subscribing failed; none
    /// where the session goes on regardless.
    pub unsubscribed_secs: Option<u64>,
    /// Seconds from one ping to the next; none where no pings are sent.
    pub heartbeat_secs: Option<u64>,
}

/// What a session subscribes to.
#[derive(Debug)]
pub enum Topics {
    /// These messages, on every connection.
    Messages(Vec<String>),
    /// The books of these tokens, and of those that are added on the way.
    Tokens(Vec<String>),
}

#[derive(Debug, Clone, Copy, PartialEq, Eq, Structural)]
pub enum SessionPhase {
    Connecting,
    Subscribing,
    Reading,
    Waiting,
}

/// What happened on the socket.
#[derive(Debug, PartialEq, Eq)]
pub enum SessionEvent {
    Connected,
    ConnectFailed,
    Subscribed,
    SubscribeFailed,
    Text,
    Ping { data: Vec<u8> },
    Pong,
    Binary,
    /// The time of the next ping has come.
    PingDue,
    PingFailed,
    /// There are more tokens to subscribe to.
    NewTokens { tokens: Vec<String> },
    Closed,
    ReadFailed,
    Ended,
    WaitOver,
}

/// What to do next.
#[derive(Debug, PartialEq, Eq)]
pub enum SessionAction {
    Connect,
    /// Send these messages, one after the other.
    Subscribe { messages: Vec<String> },
    /// Wait for the next message.
    Read,
    /// Read the message for its events, then wait for the next one.
    Process,
    /// Answer with a pong, then wait for the next message.
    SendPong { data: Vec<u8> },
    /// Send a ping, then wait for the next message.
    SendPing,
    /// Send a text, then wait for the next message.
    SendText { message: String },
    Sleep { secs: u64 },
}

#[derive(Debug)]
pub struct Session {
    pub policy: SessionPolicy,
    pub topics: Topics,
    pub phase: SessionPhase,
}

impl SessionPolicy {
    pub open spec fn of_chainlink() -> SessionPolicy {
        SessionPolicy { reconnect_secs: 3, unsubscribed_secs: Some(5), heartbeat_secs: None }
    }

    pub open spec fn of_hyperliquid() -> SessionPolicy {
        SessionPolicy { reconnect_secs: 3, unsubscribed_secs: None, heartbeat_secs: None }
    }

    /// Polymarket requires a ping every ten seconds.
    pub open spec fn of_poly_clob() -> SessionPolicy {
        SessionPolicy { reconnect_secs: 3, unsubscribed_secs: None, heartbeat_secs: Some(10) }
    }

    pub open spec fn of_poly_rtds() -> SessionPolicy {
        SessionPolicy { reconnect_secs: 5, unsubscribed_secs: Some(5), heartbeat_secs: None }
    }

    pub fn chainlink() -> (r: SessionPolicy)
        ensures
            r == SessionPolicy::of_chainlink(),
    {
        SessionPolicy { reconnect_secs: 3, unsubscribed_secs: Some(5), heartbeat_secs: None }
    }

    pub fn hyperliquid() -> (r: SessionPolicy)
        ensures
            r == SessionPolicy::of_hyperliquid(),
    {
        SessionPolicy { reconnect_secs: 3, unsubscribed_secs: None, heartbeat_secs: None }
    }

    pub fn poly_clob() -> (r: SessionPolicy)
        ensures
            r == SessionPolicy::of_poly_clob(),
    {
        SessionPolicy { reconnect_secs: 3, unsubscribed_secs: None, heartbeat_secs: Some(10) }
    }

    pub fn poly_rtds() -> (r: SessionPolicy)
        ensures
            r == SessionPolicy::of_poly_rtds(),
    {
        SessionPolicy { reconnect_secs: 5, unsubscribed_secs: Some(5), heartbeat_secs: None }
    }
}

fn copy_texts(items: &Vec<String>) -> (r: Vec<String>)
    ensures
        text::texts(r@) == text::texts(items@),
{
    let mut out: Vec<String> = Vec::new();
    let mut i: usize = 0;
    while i < items.len()
        invariant
            i <= items@.len(),
            out@.len() == i,
            forall|j: int| 0 <= j < i ==> (#[trigger] out@[j])@ == items@[j]@,
        decreases items@.len() - i,
    {
        out.push(items[i].clone());
        i = i + 1;
    }
    assert(text::texts(out@) =~= text::texts(items@));
    out
}

impl Topics {
    /// The messages or the tokens.
    pub open spec fn listed(self) -> Seq<Seq<char>> {
        match self {
            Topics::Messages(messages) => text::texts(messages@),
            Topics::Tokens(tokens) => text::texts(tokens@),
        }
    }

    /// What is sent on a new connection: the messages, or one that subscribes to
    /// all tokens at once.
    pub open spec fn first_messages(self) -> Seq<Seq<char>> {
        if self is Tokens {
            seq![polymarket::books_message(self.listed())]
        } else {
            self.listed()
        }
    }

    fn messages(&self) -> (r: Vec<String>)
        ensures
            text::texts(r@) == self.first_messages(),
    {
        match self {
            Topics::Messages(messages) => copy_texts(messages),
            Topics::Tokens(tokens) => {
                let mut out: Vec<String> = Vec::new();
                out.push(market_subscription(tokens));
                assert(text::texts(out@) =~= self.first_messages());
                out
            },
        }
    }
}

impl Session {
    /// Whether an event breaks the connection off.
    pub open spec fn breaks(event: SessionEvent) -> bool {
        event is ConnectFailed || event is PingFailed || event is Closed || event is ReadFailed
            || event is Ended
    }

    /// The tokens that an event adds.
    pub open spec fn added(event: SessionEvent) -> Seq<Seq<char>> {
        match event {
            SessionEvent::NewTokens { tokens } => text::texts(tokens@),
            _ => Seq::empty(),
        }
    }

    /// Whether a session and an action are what follows an event.
    pub open spec fn follows(
        before: Session,
        event: SessionEvent,
        after: Session,
        action: SessionAction,
    ) -> bool {
        &&& after.policy == before.policy
        &&& after.topics is Tokens <==> before.topics is Tokens
        &&& after.topics.listed() == if before.topics is Tokens {
            before.topics.listed() + Session::added(event)
        } else {
            before.topics.listed()
        }
        &&& match event {
            SessionEvent::Connected => after.phase is Subscribing && (
            action matches SessionAction::Subscribe { messages } && text::texts(messages@)
                == before.topics.first_messages()),
            SessionEvent::Subscribed => after.phase is Reading && action is Read,
            SessionEvent::SubscribeFailed => match before.policy.unsubscribed_secs {
                Some(secs) => after.phase is Waiting && action == (SessionAction::Sleep { secs }),
                None => after.phase is Reading && action is Read,
            },
            SessionEvent::Text => after.phase is Reading && action is Process,
            SessionEvent::Ping { data } => after.phase is Reading && (
            action matches SessionAction::SendPong { data: answer } && answer@ == data@),
            SessionEvent::PingDue => after.phase is Reading && action is SendPing,
            SessionEvent::NewTokens { tokens } => after.phase is Reading
                && if before.topics is Tokens {
                action matches SessionAction::SendText { message } && message@
                    == polymarket::books_message(text::texts(tokens@))
            } else {
                action is Read
            },
            SessionEvent::Pong | SessionEvent::Binary => after.phase is Reading && action is Read,
            SessionEvent::WaitOver => after.phase is Connecting && action is Connect,
            SessionEvent::ConnectFailed
            | SessionEvent::PingFailed
            | SessionEvent::Closed
            | SessionEvent::ReadFailed
            | SessionEvent::Ended => after.phase is Waiting && action == (SessionAction::Sleep {
                secs: before.policy.reconnect_secs,
            }),
        }
    }

    /// A session that is about to connect.
    pub fn start(policy: SessionPolicy, topics: Topics) -> (r: (Session, SessionAction))
        ensures
            r.0 == (Session { policy, topics, phase: SessionPhase::Connecting }),
            r.1 is Connect,
    {
        (Session { policy, topics, phase: SessionPhase::Connecting }, SessionAction::Connect)
    }

    /// Takes note of an event and says what to do next.
    pub fn step(&mut self, event: SessionEvent) -> (r: SessionAction)
        ensures
            Session::follows(*old(self), event, *final(self), r),
    {
        assert(self.topics.listed() + Seq::<Seq<char>>::empty() =~= self.topics.listed());
        let (phase, action) = match event {
            SessionEvent::Connected => (
                SessionPhase::Subscribing,
                SessionAction::Subscribe { messages: self.topics.messages() },
            ),
            SessionEvent::Subscribed => (SessionPhase::Reading, SessionAction::Read),
            SessionEvent::SubscribeFailed => match self.policy.unsubscribed_secs {
                Some(secs) => (SessionPhase::Waiting, SessionAction::Sleep { secs }),
                None => (SessionPhase::Reading, SessionAction::Read),
            },
            SessionEvent::Text => (SessionPhase::Reading, SessionAction::Process),
            SessionEvent::Ping { data } => (SessionPhase::Reading, SessionAction::SendPong { data }),
            SessionEvent::PingDue => (SessionPhase::Reading, SessionAction::SendPing),
            SessionEvent::NewTokens { tokens } => (
                SessionPhase::Reading,
                self.subscribe_to(tokens),
            ),
            SessionEvent::Pong | SessionEvent::Binary => (
                SessionPhase::Reading,
                SessionAction::Read,
            ),
            SessionEvent::WaitOver => (SessionPhase::Connecting, SessionAction::Connect),
            SessionEvent::ConnectFailed
            | SessionEvent::PingFailed
            | SessionEvent::Closed
            | SessionEvent::ReadFailed
            | SessionEvent::Ended => (
                SessionPhase::Waiting,
                SessionAction::Sleep { secs: self.policy.reconnect_secs },
            ),
        };
        self.phase = phase;
        action
    }

    fn subscribe_to(&mut self, new: Vec<String>) -> (r: SessionAction)
        ensures
            final(self).policy == old(self).policy,
            final(self).topics is Tokens <==> old(self).topics is Tokens,
            if old(self).topics is Tokens {
                &&& final(self).topics.listed() == old(self).topics.listed() + text::texts(new@)
                &&& r matches SessionAction::SendText { message }
                &&& message@ == polymarket::books_message(text::texts(new@))
            } else {
                final(self).topics == old(self).topics && r is Read
            },
    {
        match &mut self.topics {
            Topics::Messages(_) => SessionAction::Read,
            Topics::Tokens(tokens) => {
                let ghost had = tokens@;
                let message: String = market_subscription(&new);
                let mut more: Vec<String> = new;
                tokens.append(&mut more);
                assert(text::texts(tokens@) =~= text::texts(had) + text::texts(new@));
                SessionAction::SendText { message }
            },
        }
    }
}

/// What can happen after an action.
pub open spec fn can_follow(action: SessionAction, event: SessionEvent) -> bool {
    match action {
        SessionAction::Connect => event is Connected || event is ConnectFailed,
        SessionAction::Subscribe { .. } => event is Subscribed || event is SubscribeFailed,
        SessionAction::Sleep { .. } => event is WaitOver,
        _ => event is Text || event is Ping || event is Pong || event is Binary || event is PingDue
            || event is PingFailed || event is NewTokens || event is Closed || event is ReadFailed
            || event is Ended,
    }
}

/// Whether a session starts in the first of these states and goes through all of
/// them, taking these actions and meeting these events in turn.
pub open spec fn is_run(
    states: Seq<Session>,
    actions: Seq<SessionAction>,
    events: Seq<SessionEvent>,
) -> bool {
    &&& states.len() == events.len() + 1
    &&& actions.len() == events.len() + 1
    &&& actions[0] is Connect
    &&& forall|i: int| 0 <= i < events.len() ==> can_follow(actions[i], #[trigger] events[i])
    &&& forall|i: int|
        0 <= i < events.len() ==> Session::follows(
            states[i],
            #[trigger] events[i],
            states[i + 1],
            actions[i + 1],
        )
}

/// Whether an action sends something on, or reads from, an open connection after
/// its first messages.
pub open spec fn uses_connection(action: SessionAction) -> bool {
    action is Read || action is Process || action is SendPong || action is SendPing
        || action is SendText
}

/// Whether an action sends the first messages of a connection.
pub open spec fn sends_first(action: SessionAction, topics: Topics) -> bool {
    action matches SessionAction::Subscribe { messages } && text::texts(messages@)
        == topics.first_messages()
}

/// On every connection the first thing that happens is the subscription to all
/// topics: whatever is read or sent at a point of a run, the connection that it
/// is read from or sent on was made at an earlier point, right after that all
/// topics were subscribed to, and since then nothing broke it off.
pub proof fn lemma_subscribes_first(
    states: Seq<Session>,
    actions: Seq<SessionAction>,
    events: Seq<SessionEvent>,
    i: int,
)
    requires
        is_run(states, actions, events),
        0 <= i < actions.len(),
        uses_connection(actions[i]),
    ensures
        exists|j: int|
            {
                &&& 0 < j < i
                &&& events[j - 1] is Connected
                &&& sends_first(#[trigger] actions[j], states[j - 1].topics)
                &&& forall|k: int|
                    j <= k < i ==> !Session::breaks(#[trigger] events[k]) && !(
                    events[k] is Connected)
            },
    decreases i,
{
    let event = events[i - 1];
    assert(can_follow(actions[i - 1], event));
    assert(Session::follows(states[i - 1], event, states[i], actions[i]));
    if event is Subscribed || event is SubscribeFailed {
        let j = i - 1;
        assert(actions[j] is Subscribe);
        assert(can_follow(actions[j - 1], events[j - 1]));
        assert(Session::follows(states[j - 1], events[j - 1], states[j], actions[j]));
        assert(events[j - 1] is Connected);
        assert(sends_first(actions[j], states[j - 1].topics));
    } else {
        lemma_subscribes_first(states, actions, events, i - 1);
        let j = choose|j: int|
            {
                &&& 0 < j < i - 1
                &&& events[j - 1] is Connected
                &&& sends_first(#[trigger] actions[j], states[j - 1].topics)
                &&& forall|k: int|
                    j <= k < i - 1 ==> !Session::breaks(#[trigger] events[k]) && !(
                    events[k] is Connected)
            };
        assert(sends_first(actions[j], states[j - 1].topics));
    }
}

/// The tokens that some events add, in order.
pub open spec fn all_added(events: Seq<SessionEvent>) -> Seq<Seq<char>>
    decreases events.len(),
{
    if events.len() == 0 {
        Seq::empty()
    } else {
        all_added(events.drop_last()) + Session::added(events.last())
    }
}

/// A session keeps its policy and its topics, and no token is forgotten: the
/// tokens at a point of a run are those of the start and all that were added
/// since, in order.
pub proof fn lemma_topics_are_kept(
    states: Seq<Session>,
    actions: Seq<SessionAction>,
    events: Seq<SessionEvent>,
    i: int,
)
    requires
        is_run(states, actions, events),
        0 <= i < states.len(),
    ensures
        states[i].policy == states[0].policy,
        states[i].topics is Tokens <==> states[0].topics is Tokens,
        states[i].topics.listed() == if states[0].topics is Tokens {
            states[0].topics.listed() + all_added(events.take(i))
        } else {
            states[0].topics.listed()
        },
    decreases i,
{
    let start = states[0].topics.listed();
    if i == 0 {
        assert(events.take(0) =~= Seq::<SessionEvent>::empty());
        assert(start + all_added(events.take(0)) =~= start);
    } else {
        lemma_topics_are_kept(states, actions, events, i - 1);
        let event = events[i - 1];
        assert(Session::follows(states[i - 1], event, states[i], actions[i]));
        assert(events.take(i).drop_last() =~= events.take(i - 1));
        assert(start + all_added(events.take(i)) =~= (start + all_added(events.take(i - 1)))
            + Session::added(event));
    }
}

/// A broken connection is waited out and then made again: after any event that
/// breaks it off the session sleeps for the time that its policy sets, what
/// follows the wait is a new connection, and what follows that is a new
/// subscription to all topics. A session never comes to an end.
pub proof fn lemma_reconnects(
    broken: Session,
    event: SessionEvent,
    waiting: Session,
    sleep: SessionAction,
    connecting: Session,
    connect: SessionAction,
    connected: Session,
    subscribe: SessionAction,
)
    requires
        Session::breaks(event),
        Session::follows(broken, event, waiting, sleep),
        Session::follows(waiting, SessionEvent::WaitOver, connecting, connect),
        Session::follows(connecting, SessionEvent::Connected, connected, subscribe),
    ensures
        sleep == (SessionAction::Sleep { secs: broken.policy.reconnect_secs }),
        connect is Connect,
        sends_first(subscribe, connecting.topics),
        connecting.topics.first_messages() == broken.topics.first_messages(),
{
    assert(broken.topics.listed() + Seq::<Seq<char>>::empty() =~= broken.topics.listed());
}

/// A connection is kept alive: a ping is answered with a pong that carries the
/// same data, a ping of one's own is sent when it is due, and no message ends
/// the connection, whether it can be read or not.
pub proof fn lemma_keeps_alive(
    before: Session,
    event: SessionEvent,
    after: Session,
    action: SessionAction,
)
    requires
        Session::follows(before, event, after, action),
        event is Text || event is Ping || event is Pong || event is Binary || event is PingDue,
    ensures
        after.phase is Reading,
        uses_connection(action),
        event matches SessionEvent::Ping { data } ==> action is SendPong
            && action->SendPong_data@ == data@,
        event is PingDue ==> action is SendPing,
        event is Text ==> action is Process,
{
}

/// A subscription that fails is waited out where the policy says so, and else
/// read past; one that succeeds is read from.
pub proof fn lemma_subscription_outcome(
    before: Session,
    event: SessionEvent,
    after: Session,
    action: SessionAction,
)
    requires
        Session::follows(before, event, after, action),
        event is Subscribed || event is SubscribeFailed,
    ensures
        event is Subscribed || before.policy.unsubscribed_secs is None ==> action is Read
            && after.phase is Reading,
        event is SubscribeFailed && before.policy.unsubscribed_secs is Some ==> action is Sleep
            && action->secs == before.policy.unsubscribed_secs->0 && after.phase is Waiting,
{
}

/// New tokens are subscribed to at once, by a message that names just them.
pub proof fn lemma_new_tokens(
    before: Session,
    tokens: Vec<String>,
    after: Session,
    action: SessionAction,
)
    requires
        Session::follows(before, SessionEvent::NewTokens { tokens }, after, action),
        before.topics is Tokens,
    ensures
        action is SendText,
        action->message@ == polymarket::books_message(text::texts(tokens@)),
        after.topics.listed() == before.topics.listed() + text::texts(tokens@),
        after.phase is Reading,
{
}

/// How the sources want their sockets handled: Polymarket's books are pinged every
/// ten seconds and no other is; a broken connection is made again after three
/// seconds, that of the prices after five; and where the subscription is all that
/// is sent, a failed one is waited out for five.
pub proof fn lemma_policies()
    ensures
        SessionPolicy::of_poly_clob().heartbeat_secs == Some(10u64),
        SessionPolicy::of_chainlink().heartbeat_secs is None,
        SessionPolicy::of_hyperliquid().heartbeat_secs is None,
        SessionPolicy::of_poly_rtds().heartbeat_secs is None,
        SessionPolicy::of_chainlink().reconnect_secs == 3,
        SessionPolicy::of_hyperliquid().reconnect_secs == 3,
        SessionPolicy::of_poly_clob().reconnect_secs == 3,
        SessionPolicy::of_poly_rtds().reconnect_secs == 5,
        SessionPolicy::of_chainlink().unsubscribed_secs == Some(5u64),
        SessionPolicy::of_poly_rtds().unsubscribed_secs == Some(5u64),
        SessionPolicy::of_hyperliquid().unsubscribed_secs is None,
        SessionPolicy::of_poly_clob().unsubscribed_secs is None,
{
}

} // verus!
