//! Game rules: the pluggable policy that seeds a player's starting score
//! and decides when a game ends.

use vstd::prelude::*;

use crate::player::Player;
use crate::score::{initial_model, ActiveScore27};

verus! {

/// The end-of-game decision after a turn is applied.
#[derive(Debug, Clone, Copy, PartialEq, Eq, Structural)]
pub enum GameEnd {
    /// The game is over; no further turns are issued.
    EndGame,
    /// Every player has finished, but the current round plays out so that
    /// slower seats can still draw; the engine remembers this mode.
    FinishRound,
    /// Play continues.
    Continue,
}

impl Default for GameEnd {
    fn default() -> (r: GameEnd)
        ensures
            r == GameEnd::Continue,
    {
        GameEnd::Continue
    }
}

/// The decision table: with no unfinished player left the game ends if the
/// final-round mode was already set, and otherwise the current round is
/// played out first; with unfinished players, play continues.
pub open spec fn spec_should_end(unfinished: int, final_round: bool) -> GameEnd {
    if unfinished == 0 {
        if final_round {
            GameEnd::EndGame
        } else {
            GameEnd::FinishRound
        }
    } else {
        GameEnd::Continue
    }
}

/// With nobody left unfinished, the first decision grants the final round
/// rather than ending the game; once that mode is set, the same situation
/// ends it.
pub proof fn lemma_finish_round_then_end()
    ensures
        spec_should_end(0, false) == GameEnd::FinishRound,
        spec_should_end(0, true) == GameEnd::EndGame,
{
}

/// A game variant: where its players start and when their game is over.
pub trait GameType {
    /// A fresh starting score for one player.
    fn new_score(&self, player: &Player) -> (s: ActiveScore27)
        ensures
            s@ == initial_model(),
            s@.wf(),
    ;

    /// Decide whether play should continue once a turn has been applied.
    /// `round_players` are the players yet to play the current round;
    /// `remaining_players` those who have not finished the game;
    /// `final_round` whether the engine already remembers the
    /// play-out-the-round mode.
    fn should_end_game(
        &self,
        round_players: &Vec<Player>,
        remaining_players: &Vec<Player>,
        final_round: bool,
    ) -> (r: GameEnd)
        ensures
            r == spec_should_end(remaining_players@.len() as int, final_round),
    ;
}

/// The variant "27": twenty rounds, each at the double of the round's
/// number, starting from 27 points.
#[derive(Debug, Clone, Copy, PartialEq, Eq, Structural)]
pub struct GameType27;

impl GameType for GameType27 {
    fn new_score(&self, player: &Player) -> (s: ActiveScore27) {
        ActiveScore27::new()
    }

    fn should_end_game(
        &self,
        round_players: &Vec<Player>,
        remaining_players: &Vec<Player>,
        final_round: bool,
    ) -> (r: GameEnd) {
        if remaining_players.len() == 0 {
            if final_round {
                GameEnd::EndGame
            } else {
                GameEnd::FinishRound
            }
        } else {
            GameEnd::Continue
        }
    }
}

} // verus!
