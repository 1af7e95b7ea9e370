//! A connection broker for room-based multiplayer matching: a registry of
//! live sessions, a directory of rooms, the relay of text between members of
//! a room, and the per-connection command state machine.

pub mod command;
pub mod game_server;
pub mod game_session;
pub mod ids;

use vstd::prelude::*;

verus! {

/// The code that names a room.
pub type GameId = String;

} // verus!
