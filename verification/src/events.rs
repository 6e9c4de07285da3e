use vstd::prelude::*;
use crate::account::AccountId;

verus! {

/// Why a request was turned down.
#[derive(Clone, Copy, Debug, PartialEq, Eq, Structural)]
pub enum Error {
    /// A score was submitted after the session had been closed.
    GameNotActive,
    /// The caller asked for something that only the administrator may do.
    NotAdmin,
}

/// Notice that a session has been opened.
#[derive(Clone, Copy, Debug, PartialEq, Eq)]
pub struct GameCreated {
    pub admin: AccountId,
    pub game_end_time: u64,
    pub game_start_time: u64,
}

/// Notice that a session has been closed, with the winners as they were recorded at that
/// moment.
#[derive(Debug, PartialEq, Eq)]
pub struct GameEnded {
    pub winners: Vec<AccountId>,
    pub game_end_time: u64,
}

/// What closing a session yields: the notice to send, and the ranking of the players at that
/// moment.
#[derive(Debug, PartialEq, Eq)]
pub struct Closing {
    pub notice: GameEnded,
    pub ranking: Vec<AccountId>,
}

/// Notice that a player has reported a result: score, distance and time, in this order.
#[derive(Clone, Copy, Debug, PartialEq, Eq)]
pub struct ScoreSubmitted {
    pub winner: AccountId,
    pub score_time_distance: (u64, u64, u64),
}

} // verus!
