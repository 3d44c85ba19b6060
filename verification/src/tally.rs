//! Simple per-player tallies: a running total fed round by round, and the
//! before/after view of a single turn's change.

use vstd::prelude::*;

verus! {

/// Whether hitting targets raises or lowers the running score.
#[derive(Debug, Clone, Copy, PartialEq, Eq, Structural)]
pub enum ScoreDirection {
    /// Hitting targets increases the score.
    Ascending,
    /// Hitting targets decreases the score.
    Descending,
}

/// A running total with the per-round scores that produced it.
#[derive(Debug)]
pub struct PlayerScore {
    direction: ScoreDirection,
    score: i64,
    round_scores: Vec<i16>,
}

impl PlayerScore {
    pub closed spec fn spec_direction(self) -> ScoreDirection {
        self.direction
    }

    pub closed spec fn spec_score(self) -> int {
        self.score as int
    }

    pub closed spec fn spec_round_scores(self) -> Seq<i16> {
        self.round_scores@
    }

    /// A tally starting at `start`, moving in `direction`.
    pub fn new(direction: ScoreDirection, start: i64) -> (r: PlayerScore)
        ensures
            r.spec_direction() == direction,
            r.spec_score() == start as int,
            r.spec_round_scores() == Seq::<i16>::empty(),
    {
        let r = PlayerScore { direction, score: start, round_scores: Vec::new() };
        proof {
            assert(r.spec_round_scores() =~= Seq::<i16>::empty());
        }
        r
    }

    /// Fold one round's score into the total: added when ascending,
    /// subtracted when descending; the round score is kept either way.
    pub fn score_round(&mut self, round_score: i16)
        requires
            old(self).spec_direction() == ScoreDirection::Ascending ==> i64::MIN <= old(
                self,
            ).spec_score() + round_score as int <= i64::MAX,
            old(self).spec_direction() == ScoreDirection::Descending ==> i64::MIN <= old(
                self,
            ).spec_score() - round_score as int <= i64::MAX,
        ensures
            final(self).spec_direction() == old(self).spec_direction(),
            final(self).spec_round_scores() == old(self).spec_round_scores().push(round_score),
            final(self).spec_score() == if old(self).spec_direction() == ScoreDirection::Ascending {
                old(self).spec_score() + round_score as int
            } else {
                old(self).spec_score() - round_score as int
            },
    {
        match self.direction {
            ScoreDirection::Ascending => {
                self.score = self.score + round_score as i64;
            },
            ScoreDirection::Descending => {
                self.score = self.score - round_score as i64;
            },
        }
        self.round_scores.push(round_score);
    }

    /// How many rounds have been folded in.
    pub fn num_rounds(&self) -> (r: usize)
        ensures
            r as int == self.spec_round_scores().len(),
    {
        self.round_scores.len()
    }

    /// The running total.
    pub fn score(&self) -> (r: i64)
        ensures
            r as int == self.spec_score(),
    {
        self.score
    }
}

/// One turn's change, shown as the score before, the delta, and the score
/// after.
#[derive(Debug, Clone, Copy, PartialEq, Eq, Structural)]
pub struct TurnDelta {
    start: i16,
    delta: i16,
    end: i16,
}

impl TurnDelta {
    /// The view of a turn that started at `start` and changed the score by
    /// `delta`.
    pub fn new(start: i16, delta: i16) -> (r: TurnDelta)
        requires
            i16::MIN <= start as int + delta as int <= i16::MAX,
        ensures
            r.start() == start,
            r.delta() == delta,
            r.end() as int == start as int + delta as int,
    {
        TurnDelta { start, delta, end: start + delta }
    }

    pub closed spec fn start(self) -> i16 {
        self.start
    }

    pub closed spec fn delta(self) -> i16 {
        self.delta
    }

    pub closed spec fn end(self) -> i16 {
        self.end
    }

    /// The score before the turn.
    pub fn start_score(&self) -> (r: i16)
        ensures
            r == self.start(),
    {
        self.start
    }

    /// The turn's score change.
    pub fn score_change(&self) -> (r: i16)
        ensures
            r == self.delta(),
    {
        self.delta
    }

    /// The score after the turn.
    pub fn final_score(&self) -> (r: i16)
        ensures
            r == self.end(),
    {
        self.end
    }
}

} // verus!
