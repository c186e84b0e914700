//! The life of one connection, as a state machine.
//!
//! The caller owns the transport. It tells the handler what the read side
//! yielded and carries out the action that the handler answers with.

use crate::ids::IdAllocator;
use crate::message::{ClientMessage, ServerMessage, ServerMessageView, State};
use crate::store::StateStore;
use vstd::prelude::*;

verus! {

/// Where a connection stands.
#[derive(Clone, Copy, Debug, PartialEq, Eq, Structural)]
pub enum Phase {
    /// The transport is up; no identifier has been assigned yet.
    Connecting,
    /// The identifier is assigned and the welcome is out.
    Welcomed,
    /// The peer has sent at least one frame.
    Active,
    /// Over, for good.
    Closed,
}

/// What the read side of a connection yields.
#[derive(Clone, Copy, Debug, PartialEq, Eq, Structural)]
pub enum Inbound {
    /// A frame arrived; `None` where it did not decode to a client message.
    Frame(Option<ClientMessage>),
    /// Reading failed.
    Failed,
    /// The peer closed the stream.
    Finished,
}

/// What the caller is to do next.
#[derive(Clone, Copy, Debug, PartialEq, Eq, Structural)]
pub enum Action {
    /// Hand `message` to `user_message`, as a message of the connection `id`.
    Report { id: usize, message: ClientMessage },
    /// Nothing; read on.
    Ignore,
    /// Stop reading. Take `id` out of the state store and out of the
    /// registry, then announce `GoodBye(id)` to those still registered.
    Leave { id: usize },
}

/// Whether a connection in `phase` takes traffic.
pub open spec fn open(phase: Phase) -> bool {
    phase == Phase::Welcomed || phase == Phase::Active
}

/// The phase that follows `phase` when the read side yields `event`.
pub open spec fn phase_after(phase: Phase, event: Inbound) -> Phase {
    match (phase, event) {
        (Phase::Closed, _) => Phase::Closed,
        (_, Inbound::Failed) => Phase::Closed,
        (_, Inbound::Finished) => Phase::Closed,
        (Phase::Connecting, Inbound::Frame(_)) => Phase::Connecting,
        (_, Inbound::Frame(_)) => Phase::Active,
    }
}

/// The action that a connection `id` in `phase` answers `event` with.
pub open spec fn action_for(phase: Phase, id: usize, event: Inbound) -> Action {
    if !open(phase) {
        Action::Ignore
    } else {
        match event {
            Inbound::Frame(Some(message)) => Action::Report { id, message },
            Inbound::Frame(None) => Action::Ignore,
            Inbound::Failed => Action::Leave { id },
            Inbound::Finished => Action::Leave { id },
        }
    }
}

/// A frame that does not decode is dropped and that is all: the connection
/// stays open, and the next message is applied as if the frame had not come.
pub proof fn malformed_frames_are_survived(phase: Phase, id: usize, message: ClientMessage)
    requires
        open(phase),
    ensures
        action_for(phase, id, Inbound::Frame(None)) == Action::Ignore,
        phase_after(phase, Inbound::Frame(None)) == Phase::Active,
        action_for(Phase::Active, id, Inbound::Frame(Some(message))) == (Action::Report {
            id,
            message,
        }),
        phase_after(Phase::Active, Inbound::Frame(Some(message))) == Phase::Active,
{
}

/// A closed connection stays closed and asks for nothing more: it leaves once.
pub proof fn closed_is_final(id: usize, event: Inbound)
    ensures
        phase_after(Phase::Closed, event) == Phase::Closed,
        action_for(Phase::Closed, id, event) == Action::Ignore,
{
}

/// The store after the connection `id` has sent `message`.
pub open spec fn reported(states: Map<usize, State>, id: usize, message: ClientMessage) -> Map<
    usize,
    State,
> {
    match message {
        ClientMessage::State(state) => states.insert(id, state),
    }
}

/// Applies a message of the connection `my_id`: a report of its state becomes
/// its entry in the store, in place of any earlier one.
pub fn user_message(my_id: usize, msg: ClientMessage, states: &mut StateStore)
    ensures
        final(states)@ == reported(old(states)@, my_id, msg),
{
    match msg {
        ClientMessage::State(state) => {
            states.upsert(my_id, state);
        },
    }
}

/// The handler of one connection.
pub struct Handler {
    phase: Phase,
    id: usize,
}

impl Handler {
    /// The phase the connection is in.
    pub closed spec fn spec_phase(&self) -> Phase {
        self.phase
    }

    /// The identifier of the connection, or 0 before the welcome.
    pub closed spec fn spec_id(&self) -> usize {
        self.id
    }

    /// The handler of a connection that has just been accepted. Until the
    /// welcome its identifier is 0, which no connection is ever given.
    pub fn new() -> (handler: Self)
        ensures
            handler.spec_phase() == Phase::Connecting,
            handler.spec_id() == 0,
    {
        Handler { phase: Phase::Connecting, id: 0 }
    }

    #[verifier::when_used_as_spec(spec_phase)]
    pub fn phase(&self) -> (phase: Phase)
        ensures
            phase == self.spec_phase(),
    {
        self.phase
    }

    #[verifier::when_used_as_spec(spec_id)]
    pub fn id(&self) -> (id: usize)
        ensures
            id == self.spec_id(),
    {
        self.id
    }

    /// Assigns the connection its identifier and hands back the welcome that
    /// is to go out on its channel before anything else.
    ///
    /// Only a connecting handler is welcomed; any other is left as it is.
    /// Where the identifiers are used up the connection is closed instead.
    pub fn send_welcome(&mut self, ids: &mut IdAllocator) -> (welcome: Option<ServerMessage>)
        ensures
            old(self).phase() != Phase::Connecting ==> ({
                &&& welcome is None
                &&& *final(self) == *old(self)
                &&& final(ids)@ == old(ids)@
            }),
            old(self).phase() == Phase::Connecting && old(ids).exhausted() ==> ({
                &&& welcome is None
                &&& final(self).phase() == Phase::Closed
                &&& final(self).id() == old(self).id()
                &&& final(ids)@ == old(ids)@
            }),
            old(self).phase() == Phase::Connecting && !old(ids).exhausted() ==> ({
                &&& welcome is Some
                &&& welcome->0@ == ServerMessageView::Welcome(final(self).id())
                &&& final(self).phase() == Phase::Welcomed
                &&& final(self).id() == old(ids)@
                &&& final(ids)@ == old(ids)@ + 1
            }),
    {
        match self.phase {
            Phase::Connecting => {
                match ids.next() {
                    Some(id) => {
                        self.id = id;
                        self.phase = Phase::Welcomed;
                        Some(ServerMessage::Welcome(id))
                    },
                    None => {
                        self.phase = Phase::Closed;
                        None
                    },
                }
            },
            _ => None,
        }
    }

    /// Takes what the read side yielded and says what is to be done about it.
    pub fn step(&mut self, event: Inbound) -> (action: Action)
        ensures
            action == action_for(old(self).phase(), old(self).id(), event),
            final(self).phase() == phase_after(old(self).phase(), event),
            final(self).id() == old(self).id(),
    {
        match self.phase {
            Phase::Closed => Action::Ignore,
            Phase::Connecting => {
                match event {
                    Inbound::Frame(_) => {},
                    _ => {
                        self.phase = Phase::Closed;
                    },
                }
                Action::Ignore
            },
            _ => {
                match event {
                    Inbound::Frame(Some(message)) => {
                        self.phase = Phase::Active;
                        Action::Report { id: self.id, message }
                    },
                    Inbound::Frame(None) => {
                        self.phase = Phase::Active;
                        Action::Ignore
                    },
                    _ => {
                        self.phase = Phase::Closed;
                        Action::Leave { id: self.id }
                    },
                }
            },
        }
    }
}

} // verus!
