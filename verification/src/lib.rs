//! Scoring engine for the darts game "27".
//!
//! Each of twenty rounds designates the double ring of its round number as
//! the target; a player throws three darts per round, scoring
//! `+2 * round * hits` for one or more hits and `-2 * round` for none,
//! starting from 27. The library tracks per-player scores with out-of-order
//! correction and lazy recomputation, seals per-round turns, and runs the
//! round-robin scheduler that decides when a game ends.

use vstd::prelude::*;

mod engine;
mod numhits;
mod player;
mod rules;
mod score;
mod tally;
mod target;
mod turn;

pub use engine::{ActiveGame, CompletedGame, Game, GameT, State};
pub use numhits::NumHits;
pub use player::Player;
pub use rules::{GameEnd, GameType, GameType27};
pub use score::{ActiveScore27, Score27};
pub use tally::{PlayerScore, ScoreDirection, TurnDelta};
pub use target::{BoardSection, Colour, Ring};
pub use turn::{num_darts_from_range, DartResult, NumDarts, SingleTarget, TryFromError, TurnResult};

verus! {

/// A caller-contract violation, reported to the immediate caller. A failed
/// call aborts without touching any bookkeeping.
#[derive(Debug, Clone, Copy, PartialEq, Eq, Structural)]
pub enum GameError {
    /// The operation references a player not in the engine's player set.
    InvalidPlayer,
    /// A throw was submitted to an already sealed turn, or a declared hit
    /// count exceeds the darts allowed.
    TooManyDarts,
    /// A round argument lies outside 1..=20.
    RoundOutOfRange,
    /// Finalization was requested before the game rules signalled the end.
    PrematureFinalize,
}

impl GameError {
    /// A short description, for hosts that print errors.
    pub fn message(&self) -> (r: &'static str)
        ensures
            r@ == match self {
                GameError::InvalidPlayer => "player is not playing the current game"@,
                GameError::TooManyDarts => "more darts than the turn allows"@,
                GameError::RoundOutOfRange => "round must lie between 1 and 20"@,
                GameError::PrematureFinalize => "game has not ended yet"@,
            },
    {
        match self {
            GameError::InvalidPlayer => "player is not playing the current game",
            GameError::TooManyDarts => "more darts than the turn allows",
            GameError::RoundOutOfRange => "round must lie between 1 and 20",
            GameError::PrematureFinalize => "game has not ended yet",
        }
    }
}

/// The score change a round contributes: `-2 * round` when no dart hit the
/// target, `+2 * round * hits` otherwise.
pub open spec fn spec_delta(round: int, hits: int) -> int {
    if hits == 0 {
        -2 * round
    } else {
        2 * round * hits
    }
}

} // verus!
