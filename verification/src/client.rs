//! The client's picture of the session: who it is and where the others are.

use crate::broadcast::others_of;
use crate::message::{others, RemoteState, ServerMessage, ServerMessageView, Vec2};
use vstd::prelude::*;

verus! {

/// The bit pattern of `100.0_f32`, the coordinate a player starts at.
pub const START_COORDINATE: u32 = 0x42C8_0000;

/// The number of plane sprites that players are told apart by.
pub const PLANE_SPRITES: usize = 10;

/// The sprite of the player `id` in a sheet that is `cols` sprites wide, as
/// column and row. Players whose identifiers agree in the last decimal digit
/// share a sprite.
pub fn sprite_cell(id: usize, cols: usize) -> (cell: (usize, usize))
    requires
        cols > 0,
    ensures
        cell.0 == (id % PLANE_SPRITES) % cols,
        cell.1 == (id % PLANE_SPRITES) / cols,
{
    let index = id % PLANE_SPRITES;
    (index % cols, index / cols)
}

/// What a client knows between two frames.
pub struct Game {
    pub quit: bool,
    /// The player's own state; `id` is 0 until the server's welcome arrives.
    pub player_state: RemoteState,
    /// The other players, as of the last update.
    pub remote_states: Vec<RemoteState>,
}

impl Game {
    /// A game that has not heard from the server yet.
    pub fn new() -> (game: Self)
        ensures
            !game.quit,
            game.player_state == (RemoteState {
                id: 0,
                position: Vec2 { x: START_COORDINATE, y: START_COORDINATE },
                rotation: 0,
            }),
            game.remote_states@ == Seq::<RemoteState>::empty(),
    {
        Game {
            quit: false,
            player_state: RemoteState {
                id: 0,
                position: Vec2 { x: START_COORDINATE, y: START_COORDINATE },
                rotation: 0,
            },
            remote_states: Vec::new(),
        }
    }

    /// Applies a message from the server: a welcome names the player, a
    /// good-bye drops the player that left, an update replaces all the others.
    pub fn handle_message(&mut self, msg: ServerMessage)
        ensures
            final(self).quit == old(self).quit,
            final(self).player_state == (match msg@ {
                ServerMessageView::Welcome(id) => (RemoteState { id, ..old(self).player_state }),
                _ => old(self).player_state,
            }),
            final(self).remote_states@ == (match msg@ {
                ServerMessageView::Welcome(_) => old(self).remote_states@,
                ServerMessageView::GoodBye(id) => others(old(self).remote_states@, id),
                ServerMessageView::Update(states) => states,
            }),
    {
        match msg {
            ServerMessage::Welcome(id) => {
                self.player_state.id = id;
            },
            ServerMessage::GoodBye(id) => {
                self.remote_states = others_of(&self.remote_states, id);
            },
            ServerMessage::Update(remote_states) => {
                self.remote_states = remote_states;
            },
        }
    }
}

} // verus!
