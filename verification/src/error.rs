use vstd::prelude::*;

verus! {

/// Why a player could not join a game.
#[derive(Debug, Clone, Copy, PartialEq, Eq, Structural)]
pub enum GameError {
    /// Both seats are taken.
    SessionIsFull,
    /// The player could not be told that it joined.
    FailledToAcceptPlayer,
}

impl GameError {
    /// The description of the error.
    pub fn message(&self) -> (r: &'static str)
        ensures
            r@ == match self {
                GameError::SessionIsFull => "The session is full"@,
                GameError::FailledToAcceptPlayer => "Failled to accept the player"@,
            },
    {
        match self {
            GameError::SessionIsFull => "The session is full",
            GameError::FailledToAcceptPlayer => "Failled to accept the player",
        }
    }
}

} // verus!
