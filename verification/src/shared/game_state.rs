use vstd::prelude::*;

verus! {

/// The phase of the game. `GameOver` is terminal.
#[derive(Debug, PartialEq, Eq, Clone, Copy, Structural)]
pub enum GameState {
    Lobby,
    InGame,
    GameOver,
}

} // verus!
