//! The messages that clients and server exchange.
//!
//! Positions and rotations are single-precision numbers that the server
//! carries without ever reading them, so they are held as their IEEE-754 bit
//! patterns (`f32::to_bits` / `f32::from_bits`).

use vstd::prelude::*;

verus! {

/// A point of the plane; each component is the bit pattern of an `f32`.
#[derive(Clone, Copy, Debug, PartialEq, Eq, Structural)]
pub struct Vec2 {
    pub x: u32,
    pub y: u32,
}

/// What a client reports of itself. `r` is the bit pattern of an `f32` angle.
#[derive(Clone, Copy, Debug, PartialEq, Eq, Structural)]
pub struct State {
    pub pos: Vec2,
    pub r: u32,
}

/// The last report of the connection `id`, as the other clients see it.
#[derive(Clone, Copy, Debug, PartialEq, Eq, Structural)]
pub struct RemoteState {
    pub id: usize,
    pub position: Vec2,
    pub rotation: u32,
}

/// Server to client.
#[derive(Debug, PartialEq, Eq)]
pub enum ServerMessage {
    /// Tells the receiving connection its identifier.
    Welcome(usize),
    /// The connection with this identifier has gone.
    GoodBye(usize),
    /// The latest state of every other connection.
    Update(Vec<RemoteState>),
}

/// Client to server.
#[derive(Clone, Copy, Debug, PartialEq, Eq, Structural)]
pub enum ClientMessage {
    State(State),
}

/// A server message as a mathematical value.
pub enum ServerMessageView {
    Welcome(usize),
    GoodBye(usize),
    Update(Seq<RemoteState>),
}

impl View for ServerMessage {
    type V = ServerMessageView;

    open spec fn view(&self) -> ServerMessageView {
        match *self {
            ServerMessage::Welcome(id) => ServerMessageView::Welcome(id),
            ServerMessage::GoodBye(id) => ServerMessageView::GoodBye(id),
            ServerMessage::Update(states) => ServerMessageView::Update(states@),
        }
    }
}

impl Clone for ServerMessage {
    fn clone(&self) -> (copy: Self)
        ensures
            copy@ == self@,
    {
        match self {
            ServerMessage::Welcome(id) => ServerMessage::Welcome(*id),
            ServerMessage::GoodBye(id) => ServerMessage::GoodBye(*id),
            ServerMessage::Update(states) => ServerMessage::Update(copy_states(states)),
        }
    }
}

/// The report `state`, attributed to the connection `id`.
pub open spec fn attributed(id: usize, state: State) -> RemoteState {
    RemoteState { id, position: state.pos, rotation: state.r }
}

/// The states of `all` that belong to a connection other than `id`, in order.
pub open spec fn others(all: Seq<RemoteState>, id: usize) -> Seq<RemoteState> {
    all.filter(|s: RemoteState| s.id != id)
}

/// An element-wise copy of `states`.
pub fn copy_states(states: &Vec<RemoteState>) -> (copy: Vec<RemoteState>)
    ensures
        copy@ == states@,
{
    let mut copy: Vec<RemoteState> = Vec::new();
    let mut i: usize = 0;
    while i < states.len()
        invariant
            i <= states.len(),
            copy@ == states@.take(i as int),
        decreases states.len() - i,
    {
        copy.push(states[i]);
        i += 1;
    }
    copy
}

} // verus!
