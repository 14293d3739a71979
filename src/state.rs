//! The top-level state of a game.
use vstd::prelude::*;

verus! {

/// Where the game stands; an effect may move it, and the loop around the simulation reads it.
#[derive(Clone, Copy, Debug, PartialEq, Eq, Structural)]
pub enum GameState {
    Starting,
    Running,
    Won,
    Lost,
    Startup,
}

} // verus!
