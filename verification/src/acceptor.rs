//! The accept loop's decisions.
//!
//! A server binds its address once and then takes connections one after
//! another, starting a handler for each without waiting for the last one to
//! finish. What to do after each attempt is decided here; binding, accepting
//! and starting handlers is the caller's work.

use vstd::prelude::*;

verus! {

/// What the caller reports back after each attempt.
#[derive(Clone, Copy, Debug, PartialEq, Eq, Structural)]
pub enum AcceptorEvent {
    /// The address is bound.
    Bound,
    /// The address could not be bound.
    BindFailed,
    /// A connection came in.
    Accepted,
    /// Taking a connection failed.
    AcceptFailed,
}

/// What the caller is to do next.
#[derive(Clone, Copy, Debug, PartialEq, Eq, Structural)]
pub enum AcceptorAction {
    /// Wait for the first connection.
    Listen,
    /// Start a handler for the connection that came in, and wait for the
    /// next one without waiting for the handler.
    Spawn,
    /// Give up and report the bind error. No connection was ever waited for.
    Fail,
    /// Stop serving. Handlers already started run on.
    Finish,
}

/// Where the accept loop stands.
#[derive(Clone, Copy, Debug, PartialEq, Eq, Structural)]
pub enum Acceptor {
    /// About to bind.
    Binding,
    /// Bound, taking connections.
    Listening,
    /// Done, for good.
    Stopped,
}

/// Which event can follow in which state.
pub open spec fn expects(state: Acceptor, event: AcceptorEvent) -> bool {
    match state {
        Acceptor::Binding => event is Bound || event is BindFailed,
        Acceptor::Listening => event is Accepted || event is AcceptFailed,
        Acceptor::Stopped => false,
    }
}

/// The state and the action that follow an event: a failed bind is fatal,
/// and so is the first failed accept.
pub open spec fn next(state: Acceptor, event: AcceptorEvent) -> (Acceptor, AcceptorAction)
    recommends
        expects(state, event),
{
    match event {
        AcceptorEvent::Bound => (Acceptor::Listening, AcceptorAction::Listen),
        AcceptorEvent::BindFailed => (Acceptor::Stopped, AcceptorAction::Fail),
        AcceptorEvent::Accepted => (Acceptor::Listening, AcceptorAction::Spawn),
        AcceptorEvent::AcceptFailed => (Acceptor::Stopped, AcceptorAction::Finish),
    }
}

impl Acceptor {
    /// An accept loop that has not bound its address yet.
    pub fn new() -> (acceptor: Acceptor)
        ensures
            acceptor is Binding,
    {
        Acceptor::Binding
    }

    /// Whether the loop is over.
    pub fn is_stopped(&self) -> (stopped: bool)
        ensures
            stopped == (*self is Stopped),
    {
        match self {
            Acceptor::Stopped => true,
            _ => false,
        }
    }

    /// Takes note of what the last attempt came to and says what to do next.
    pub fn step(&mut self, event: AcceptorEvent) -> (action: AcceptorAction)
        requires
            expects(*old(self), event),
        ensures
            (*final(self), action) == next(*old(self), event),
    {
        let (state, action) = match event {
            AcceptorEvent::Bound => (Acceptor::Listening, AcceptorAction::Listen),
            AcceptorEvent::BindFailed => (Acceptor::Stopped, AcceptorAction::Fail),
            AcceptorEvent::Accepted => (Acceptor::Listening, AcceptorAction::Spawn),
            AcceptorEvent::AcceptFailed => (Acceptor::Stopped, AcceptorAction::Finish),
        };
        *self = state;
        action
    }
}

/// A handler is started only for a connection taken while listening, and
/// listening begins only with a successful bind: a loop whose bind failed
/// has stopped without ever waiting for a connection.
pub proof fn lemma_no_accept_without_bind(state: Acceptor, event: AcceptorEvent)
    requires
        expects(state, event),
    ensures
        next(state, event).1 is Spawn ==> state is Listening,
        next(state, event).0 is Listening ==> event is Bound || state is Listening,
        event is BindFailed ==> next(state, event) == (Acceptor::Stopped, AcceptorAction::Fail),
{
}

/// The loop goes on exactly as long as attempts succeed: the first failure
/// stops it, and once stopped it expects nothing more.
pub proof fn lemma_first_failure_stops(state: Acceptor, event: AcceptorEvent)
    requires
        expects(state, event),
    ensures
        next(state, event).0 is Stopped <==> event is BindFailed || event is AcceptFailed,
        forall|later: AcceptorEvent| !expects(Acceptor::Stopped, later),
{
}

} // verus!
