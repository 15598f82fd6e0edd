//! Server-side core of a duck-chess game service: board state and move
//! generation, board-setup validation, the session state machine of the
//! player socket, the matchmaking decision rules, the game-worker dispatch
//! rules, and the byte codec used to store and ship those values.

pub mod board;
pub mod clock;
pub mod codec;
pub mod config;
pub mod game;
pub mod matchmake;
pub mod movegen;
pub mod piece;
pub mod play;
pub mod session;
pub mod setup;
pub mod turns;
pub mod vec2;
pub mod worker;

use vstd::prelude::*;

verus! {

} // verus!
