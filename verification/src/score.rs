//! Per-player scoring: a mutable accumulator with out-of-order correction
//! and lazy recomputation, and the immutable snapshot taken from it when a
//! game ends.
//!
//! A player starts at 27 and plays twenty rounds. The accumulator keeps one
//! slot per round: the hits recorded for it (if any) and a checkpoint of
//! the running state just before it. A correction to an earlier round only
//! marks the suffix from that round dirty; the next read replays the dirty
//! suffix from the checkpoint instead of rescanning the whole history.

use vstd::prelude::*;

use crate::spec_delta;
use crate::turn::SingleTarget;
use crate::GameError;

verus! {

/// The score change round `i + 1` of the history contributes; an
/// unrecorded round contributes nothing.
pub open spec fn hist_delta(hist: Seq<Option<u8>>, i: int) -> int {
    match hist[i] {
        Some(h) => spec_delta(i + 1, h as int),
        None => 0,
    }
}

/// The running score after the first `n` rounds of the history, replayed
/// from scratch: 27 plus the deltas of every recorded round among them.
pub open spec fn score_after(hist: Seq<Option<u8>>, n: int) -> int
    decreases n,
{
    if n <= 0 {
        27
    } else {
        score_after(hist, n - 1) + hist_delta(hist, n - 1)
    }
}

/// Whether the running score stayed non-negative at every round boundary
/// up to and including `n`.
pub open spec fn all_positive_upto(hist: Seq<Option<u8>>, n: int) -> bool {
    forall|i: int| 0 <= i <= n ==> score_after(hist, i) >= 0
}

/// The smallest round at or after `i + 1` with no recorded entry, or 21.
pub open spec fn first_unplayed_from(hist: Seq<Option<u8>>, i: int) -> int
    decreases 20 - i,
{
    if i >= 20 {
        21
    } else if hist[i] is None {
        i + 1
    } else {
        first_unplayed_from(hist, i + 1)
    }
}

/// The smallest round with no recorded entry, or 21 once all twenty are
/// recorded (the player is then fully played).
pub open spec fn spec_current_round(hist: Seq<Option<u8>>) -> int {
    first_unplayed_from(hist, 0)
}

/// How many of the first `n` rounds were cliffs: rounds whose three darts
/// all hit.
pub open spec fn cliff_count_upto(hist: Seq<Option<u8>>, n: int) -> int
    decreases n,
{
    if n <= 0 {
        0
    } else {
        cliff_count_upto(hist, n - 1) + if hist[n - 1] == Some(3u8) {
            1int
        } else {
            0int
        }
    }
}

/// A history holds twenty rounds of at most three hits each.
pub open spec fn wf_hist(hist: Seq<Option<u8>>) -> bool {
    &&& hist.len() == 20
    &&& forall|i: int|
        0 <= i < 20 ==> match #[trigger] hist[i] {
            Some(h) => h <= 3,
            None => true,
        }
}

/// What `cumulative_score` answers for a given history: the replayed score
/// of exactly `round` rounds while the player has fully played that far,
/// the live total otherwise.
pub open spec fn spec_cumulative(hist: Seq<Option<u8>>, round: int) -> int {
    if round < spec_current_round(hist) {
        score_after(hist, round)
    } else {
        score_after(hist, 20)
    }
}

/// A round's delta lies between `-2 * round` and `6 * round`.
pub proof fn lemma_delta_bounds(round: int, hits: int)
    requires
        round >= 0,
        0 <= hits <= 3,
    ensures
        -2 * round <= spec_delta(round, hits) <= 6 * round,
{
    if hits > 0 {
        assert(2 * round * hits <= 6 * round && 2 * round * hits >= -2 * round)
            by (nonlinear_arith)
            requires
                round >= 0,
                1 <= hits <= 3,
        ;
    }
}

/// The running score is bracketed by losing, respectively triple-hitting,
/// every round so far.
pub proof fn lemma_score_bounds(hist: Seq<Option<u8>>, n: int)
    requires
        wf_hist(hist),
        0 <= n <= 20,
    ensures
        27 - n * (n + 1) <= score_after(hist, n) <= 27 + 3 * n * (n + 1),
    decreases n,
{
    if n > 0 {
        lemma_score_bounds(hist, n - 1);
        match hist[n - 1] {
            Some(h) => {
                lemma_delta_bounds(n, h as int);
            },
            None => {},
        }
        assert(-2 * n <= hist_delta(hist, n - 1) <= 6 * n);
        assert(27 - (n - 1) * ((n - 1) + 1) - 2 * n == 27 - n * (n + 1)) by (nonlinear_arith);
        assert(27 + 3 * (n - 1) * ((n - 1) + 1) + 6 * n == 27 + 3 * n * (n + 1))
            by (nonlinear_arith);
    }
}

/// The replayed score of `n` rounds reads only the first `n` entries.
pub proof fn lemma_score_after_prefix(h1: Seq<Option<u8>>, h2: Seq<Option<u8>>, n: int)
    requires
        forall|i: int| 0 <= i < n ==> h1[i] == h2[i],
    ensures
        score_after(h1, n) == score_after(h2, n),
    decreases n,
{
    if n > 0 {
        lemma_score_after_prefix(h1, h2, n - 1);
    }
}

/// A current round of 21 means every round is recorded.
pub proof fn lemma_finished_all_recorded(hist: Seq<Option<u8>>, i: int)
    requires
        hist.len() == 20,
        0 <= i <= 20,
        first_unplayed_from(hist, i) == 21,
    ensures
        forall|j: int| i <= j < 20 ==> hist[j] is Some,
    decreases 20 - i,
{
    if i < 20 {
        lemma_finished_all_recorded(hist, i + 1);
    }
}

proof fn lemma_first_unplayed_range(hist: Seq<Option<u8>>, i: int)
    requires
        0 <= i <= 20,
    ensures
        i + 1 <= first_unplayed_from(hist, i) <= 21,
    decreases 20 - i,
{
    if i < 20 && hist[i] is Some {
        lemma_first_unplayed_range(hist, i + 1);
    }
}

/// The current round always lies between 1 and 21.
pub proof fn lemma_current_round_range(hist: Seq<Option<u8>>)
    ensures
        1 <= spec_current_round(hist) <= 21,
{
    lemma_first_unplayed_range(hist, 0);
}

/// An unrecorded history replays to the starting score at every boundary.
pub proof fn lemma_empty_score(hist: Seq<Option<u8>>, n: int)
    requires
        0 <= n,
        forall|i: int| 0 <= i < n ==> hist[i] is None,
    ensures
        score_after(hist, n) == 27,
    decreases n,
{
    if n > 0 {
        lemma_empty_score(hist, n - 1);
    }
}

/// One round's slot: the hits recorded for it, if any, and a checkpoint of
/// the running state just before the round.
#[derive(Debug, Clone, Copy)]
struct RoundSlot {
    hits: Option<u8>,
    start_score: i16,
    start_positive: bool,
}

/// The abstract state of an accumulator: its history, the per-round
/// checkpoints, the dirty boundary, and the cached aggregates.
#[verifier::ext_equal]
pub ghost struct ScoreModel {
    /// Hits per round, index 0 holding round 1.
    pub hist: Seq<Option<u8>>,
    /// Per round, the cached running score and all-positive flag just
    /// before it.
    pub checkpoints: Seq<(int, bool)>,
    /// The smallest round index whose cached state may be stale.
    pub dirty: Option<int>,
    /// The cached cumulative score, valid only when not dirty.
    pub score: int,
    /// The cached all-positive flag, valid only when not dirty.
    pub all_positive: bool,
}

impl ScoreModel {
    /// The checkpoints of the first `k` rounds match a from-scratch replay.
    pub open spec fn checkpoints_ok(self, k: int) -> bool {
        forall|i: int|
            0 <= i < k ==> #[trigger] self.checkpoints[i] == (
                score_after(self.hist, i),
                all_positive_upto(self.hist, i),
            )
    }

    /// The accumulator's invariant: twenty well-formed rounds, and cached
    /// state that is correct up to the dirty boundary — or throughout,
    /// including the two aggregates, when nothing is dirty.
    pub open spec fn wf(self) -> bool {
        &&& self.hist.len() == 20
        &&& self.checkpoints.len() == 20
        &&& wf_hist(self.hist)
        &&& match self.dirty {
            None => {
                &&& self.checkpoints_ok(20)
                &&& self.score == score_after(self.hist, 20)
                &&& self.all_positive == all_positive_upto(self.hist, 20)
            },
            Some(d) => 0 <= d < 20 && self.checkpoints_ok(d + 1),
        }
    }
}

/// The state of a fresh accumulator: nothing recorded, score 27.
pub open spec fn initial_model() -> ScoreModel {
    ScoreModel {
        hist: Seq::new(20, |i: int| None::<u8>),
        checkpoints: Seq::new(20, |i: int| (27int, true)),
        dirty: None::<int>,
        score: 27,
        all_positive: true,
    }
}

/// The state after recording `hits` for round `round`: the history entry
/// is overwritten and the dirty boundary drops to that round; caches and
/// checkpoints are untouched.
pub open spec fn spec_record(m: ScoreModel, round: int, hits: u8) -> ScoreModel {
    let r = round - 1;
    ScoreModel {
        hist: m.hist.update(r, Some(hits)),
        dirty: Some(
            match m.dirty {
                Some(d) => if d < r {
                    d
                } else {
                    r
                },
                None => r,
            },
        ),
        ..m
    }
}

/// The state after a recompute: every checkpoint and both aggregates match
/// a from-scratch replay, and nothing is dirty.
pub open spec fn spec_recompute(m: ScoreModel) -> ScoreModel {
    ScoreModel {
        hist: m.hist,
        checkpoints: Seq::new(
            20,
            |i: int| (score_after(m.hist, i), all_positive_upto(m.hist, i)),
        ),
        dirty: None::<int>,
        score: score_after(m.hist, 20),
        all_positive: all_positive_upto(m.hist, 20),
    }
}

/// The per-player accumulator for a game in play: a sparse history of
/// recorded rounds with cached aggregates, recomputed lazily from the
/// dirty boundary.
#[derive(Debug)]
pub struct ActiveScore27 {
    rounds: Vec<RoundSlot>,
    dirty: Option<usize>,
    all_positive: bool,
    score: i16,
}

impl View for ActiveScore27 {
    type V = ScoreModel;

    closed spec fn view(&self) -> ScoreModel {
        ScoreModel {
            hist: self.rounds@.map_values(|s: RoundSlot| s.hits),
            checkpoints: self.rounds@.map_values(
                |s: RoundSlot| (s.start_score as int, s.start_positive),
            ),
            dirty: match self.dirty {
                Some(d) => Some(d as int),
                None => None::<int>,
            },
            score: self.score as int,
            all_positive: self.all_positive,
        }
    }
}

/// The delta of one round: `-2 * round` for no hits, `+2 * round * hits`
/// otherwise.
pub fn delta_value(round: u8, hits: u8) -> (r: i16)
    requires
        1 <= round <= 20,
        hits <= 3,
    ensures
        r as int == spec_delta(round as int, hits as int),
{
    let m: i16 = 2 * (round as i16);
    if hits == 0 {
        -m
    } else {
        proof {
            assert(0 <= (hits as int) * (m as int) <= 120 && (hits as int) * (m as int) == 2 * (
            round as int) * (hits as int)) by (nonlinear_arith)
                requires
                    m as int == 2 * (round as int),
                    0 <= hits as int <= 3,
                    1 <= round as int <= 20,
            ;
        }
        (hits as i16) * m
    }
}

impl ActiveScore27 {
    /// A fresh accumulator: empty history, score 27, all positive.
    pub fn new() -> (r: ActiveScore27)
        ensures
            r@ == initial_model(),
            r@.wf(),
    {
        let mut rounds: Vec<RoundSlot> = Vec::new();
        let mut i: usize = 0;
        while i < 20
            invariant
                rounds@.len() == i as int,
                i <= 20,
                forall|j: int|
                    0 <= j < i as int ==> #[trigger] rounds@[j] == (RoundSlot {
                        hits: None::<u8>,
                        start_score: 27i16,
                        start_positive: true,
                    }),
            decreases 20 - i,
        {
            rounds.push(RoundSlot { hits: None, start_score: 27, start_positive: true });
            i = i + 1;
        }
        let r = ActiveScore27 { rounds, dirty: None, all_positive: true, score: 27 };
        proof {
            assert(r@.hist =~= initial_model().hist);
            assert(r@.checkpoints =~= initial_model().checkpoints);
            assert(r@ =~= initial_model());
            lemma_empty_score(r@.hist, 20);
            assert forall|i: int| 0 <= i < 20 implies #[trigger] r@.checkpoints[i] == (
                score_after(r@.hist, i),
                all_positive_upto(r@.hist, i),
            ) by {
                lemma_empty_score(r@.hist, i);
                assert forall|j: int| 0 <= j <= i implies score_after(r@.hist, j) >= 0 by {
                    lemma_empty_score(r@.hist, j);
                }
            }
            assert forall|j: int| 0 <= j <= 20 implies score_after(r@.hist, j) >= 0 by {
                lemma_empty_score(r@.hist, j);
            }
        }
        r
    }

    /// Overwrite the history entry of `round` with `hits` and mark the
    /// suffix from that round dirty. This is the one correction mechanism:
    /// an already recorded round may simply be re-recorded. Rounds outside
    /// 1..=20 and hit counts above 3 are refused, leaving the accumulator
    /// untouched.
    pub fn record_turn(&mut self, round: u8, hits: u8) -> (r: Result<(), GameError>)
        requires
            old(self)@.wf(),
        ensures
            final(self)@.wf(),
            (round < 1 || round > 20) ==> r == Err::<(), GameError>(GameError::RoundOutOfRange)
                && *final(self) == *old(self),
            (1 <= round <= 20 && hits > 3) ==> r == Err::<(), GameError>(GameError::TooManyDarts)
                && *final(self) == *old(self),
            (1 <= round <= 20 && hits <= 3) ==> r == Ok::<(), GameError>(()) && final(self)@
                == spec_record(old(self)@, round as int, hits),
    {
        if round < 1 || round > 20 {
            return Err(GameError::RoundOutOfRange);
        }
        if hits > 3 {
            return Err(GameError::TooManyDarts);
        }
        let idx: usize = (round - 1) as usize;
        let slot = self.rounds[idx];
        self.rounds.set(
            idx,
            RoundSlot {
                hits: Some(hits),
                start_score: slot.start_score,
                start_positive: slot.start_positive,
            },
        );
        self.dirty = match self.dirty {
            Some(d) => if d < idx {
                Some(d)
            } else {
                Some(idx)
            },
            None => Some(idx),
        };
        proof {
            let m0 = old(self)@;
            let m1 = self@;
            let goal = spec_record(m0, round as int, hits);
            assert(m1.hist =~= goal.hist);
            assert(m1.checkpoints =~= goal.checkpoints);
            assert(m1 =~= goal);
            // The checkpoints at or below the new dirty boundary read only
            // history entries strictly before the overwritten one, so they
            // stay valid.
            let d = m1.dirty->Some_0;
            assert forall|i: int| 0 <= i < d + 1 implies #[trigger] m1.checkpoints[i] == (
                score_after(m1.hist, i),
                all_positive_upto(m1.hist, i),
            ) by {
                lemma_score_after_prefix(m0.hist, m1.hist, i);
                assert forall|j: int| 0 <= j <= i implies score_after(m1.hist, j) == score_after(
                    m0.hist,
                    j,
                ) by {
                    lemma_score_after_prefix(m0.hist, m1.hist, j);
                }
                assert(m0.checkpoints[i] == (score_after(m0.hist, i), all_positive_upto(m0.hist, i)));
            }
        }
        Ok(())
    }

    /// Replay the dirty suffix from its checkpoint, refreshing every
    /// checkpoint at or past the boundary and both cached aggregates. On a
    /// clean accumulator this changes nothing.
    pub fn recompute(&mut self)
        requires
            old(self)@.wf(),
        ensures
            final(self)@ == spec_recompute(old(self)@),
            final(self)@.wf(),
    {
        let ghost m0 = old(self)@;
        let d: usize = match self.dirty {
            Some(d) => d,
            None => {
                proof {
                    assert(m0.checkpoints =~= spec_recompute(m0).checkpoints);
                    assert(m0 =~= spec_recompute(m0));
                }
                return ;
            },
        };
        self.dirty = None;
        let start = self.rounds[d];
        let mut s: i16 = start.start_score;
        let mut p: bool = start.start_positive;
        let mut i: usize = d;
        proof {
            assert(m0.checkpoints[d as int] == (
                score_after(m0.hist, d as int),
                all_positive_upto(m0.hist, d as int),
            ));
            assert(self@.checkpoints[d as int] == (start.start_score as int, start.start_positive));
        }
        while i < 20
            invariant
                d <= i <= 20,
                self.rounds@.len() == 20,
                self.dirty is None,
                m0.wf(),
                // the history is never changed
                self@.hist =~= m0.hist,
                // checkpoints before i are canonical
                forall|j: int|
                    0 <= j < i as int ==> #[trigger] self@.checkpoints[j] == (
                        score_after(m0.hist, j),
                        all_positive_upto(m0.hist, j),
                    ),
                // the running state replays the first i rounds
                s as int == score_after(m0.hist, i as int),
                p == all_positive_upto(m0.hist, i as int),
            decreases 20 - i,
        {
            let slot = self.rounds[i];
            let ghost pre_cp = self@.checkpoints;
            self.rounds.set(i, RoundSlot { hits: slot.hits, start_score: s, start_positive: p });
            proof {
                assert(self@.hist =~= m0.hist);
                assert(self@.checkpoints =~= pre_cp.update(i as int, (s as int, p)));
                lemma_score_bounds(m0.hist, i as int + 1);
                let n = i as int + 1;
                assert(n * (n + 1) <= 420 && 3 * n * (n + 1) <= 1260) by (nonlinear_arith)
                    requires
                        1 <= n <= 20,
                ;
                assert(score_after(m0.hist, n) == score_after(m0.hist, n - 1) + hist_delta(
                    m0.hist,
                    n - 1,
                ));
                assert(slot.hits == m0.hist[i as int]);
            }
            match slot.hits {
                Some(h) => {
                    let dlt = delta_value((i + 1) as u8, h);
                    s = s + dlt;
                    if s < 0 {
                        p = false;
                    }
                },
                None => {},
            }
            i = i + 1;
            proof {
                assert(s as int == score_after(m0.hist, i as int));
                assert(p == all_positive_upto(m0.hist, i as int));
            }
        }
        let ghost cp = self@.checkpoints;
        let ghost hist_now = self@.hist;
        self.score = s;
        self.all_positive = p;
        proof {
            assert(self@.checkpoints == cp);
            assert(self@.hist == hist_now);
            assert forall|j: int| 0 <= j < 20 implies cp[j] == spec_recompute(
                m0,
            ).checkpoints[j] by {
                assert(cp[j] == (score_after(m0.hist, j), all_positive_upto(m0.hist, j)));
            }
            assert(self@.checkpoints =~= spec_recompute(m0).checkpoints);
            assert(self@.hist =~= m0.hist);
            assert(self@ =~= spec_recompute(m0));
        }
    }

    /// The smallest round with no recorded entry, or 21 once all twenty
    /// rounds are recorded.
    pub fn current_round(&self) -> (r: u8)
        requires
            self@.wf(),
        ensures
            r as int == spec_current_round(self@.hist),
    {
        let mut i: usize = 0;
        while i < 20
            invariant
                0 <= i <= 20,
                self@.wf(),
                self.rounds@.len() == 20,
                spec_current_round(self@.hist) == first_unplayed_from(self@.hist, i as int),
            decreases 20 - i,
        {
            if self.rounds[i].hits.is_none() {
                return (i + 1) as u8;
            }
            i = i + 1;
        }
        21
    }

    /// Whether the player has fully played all twenty rounds.
    pub fn is_finished(&self) -> (r: bool)
        requires
            self@.wf(),
        ensures
            r == (spec_current_round(self@.hist) == 21),
    {
        self.current_round() == 21
    }

    /// The hits recorded for `round`, or nothing while it is unplayed.
    pub fn hits(&self, round: u8) -> (r: Result<Option<u8>, GameError>)
        requires
            self@.wf(),
        ensures
            (1 <= round <= 20) ==> r == Ok::<Option<u8>, GameError>(self@.hist[round as int - 1]),
            !(1 <= round <= 20) ==> r == Err::<Option<u8>, GameError>(GameError::RoundOutOfRange),
    {
        if round < 1 || round > 20 {
            return Err(GameError::RoundOutOfRange);
        }
        Ok(self.rounds[(round - 1) as usize].hits)
    }

    /// The live cumulative score, recomputed first if dirty.
    pub fn score(&mut self) -> (r: i16)
        requires
            old(self)@.wf(),
        ensures
            final(self)@ == spec_recompute(old(self)@),
            final(self)@.wf(),
            r as int == score_after(old(self)@.hist, 20),
    {
        self.recompute();
        self.score
    }

    /// Whether the running score has never dipped below zero at any round
    /// boundary, derived fresh from the current history.
    pub fn all_positive(&mut self) -> (r: bool)
        requires
            old(self)@.wf(),
        ensures
            final(self)@ == spec_recompute(old(self)@),
            final(self)@.wf(),
            r == all_positive_upto(old(self)@.hist, 20),
    {
        self.recompute();
        self.all_positive
    }

    /// The three-dart turn for the given round, aiming at the double of
    /// the round's number; a round off the board is refused.
    pub fn make_turn(&self, round: u8) -> (r: Result<SingleTarget, GameError>)
        ensures
            (1 <= round <= 20) ==> (r matches Ok(t) && t.spec_target()
                == crate::target::spec_round_target(round as int) && t.spec_num_darts()
                == crate::turn::NumDarts::Exactly(3) && t.spec_darts_thrown() == 0
                && t.spec_hits() == 0 && t.wf()),
            !(1 <= round <= 20) ==> r == Err::<SingleTarget, GameError>(
                GameError::RoundOutOfRange,
            ),
    {
        if round < 1 || round > 20 {
            return Err(GameError::RoundOutOfRange);
        }
        Ok(SingleTarget::new(3, crate::target::round_target(round)))
    }

    /// The turn for the player's current round, or none once the player
    /// has finished.
    pub fn next_turn(&self) -> (r: Option<SingleTarget>)
        requires
            self@.wf(),
        ensures
            ({
                let cur = spec_current_round(self@.hist);
                &&& (cur <= 20 ==> (r matches Some(t) && t.spec_target()
                    == crate::target::spec_round_target(cur) && t.spec_num_darts()
                    == crate::turn::NumDarts::Exactly(3) && t.spec_darts_thrown() == 0
                    && t.spec_hits() == 0 && t.wf()))
                &&& (cur > 20 ==> r is None)
            }),
    {
        proof {
            lemma_current_round_range(self@.hist);
        }
        let cur = self.current_round();
        if cur > 20 {
            return None;
        }
        match self.make_turn(cur) {
            Ok(t) => Some(t),
            Err(_) => {
                proof {
                    assert(false);
                }
                None
            },
        }
    }

    /// The score as of completing exactly `round` rounds while the player
    /// has fully played that far; the live total otherwise.
    pub fn cumulative_score(&mut self, round: u8) -> (r: Result<i16, GameError>)
        requires
            old(self)@.wf(),
        ensures
            (1 <= round <= 20) ==> r == Ok::<i16, GameError>(
                spec_cumulative(old(self)@.hist, round as int) as i16,
            ) && final(self)@ == spec_recompute(old(self)@) && final(self)@.wf(),
            !(1 <= round <= 20) ==> r == Err::<i16, GameError>(GameError::RoundOutOfRange)
                && *final(self) == *old(self),
    {
        if round < 1 || round > 20 {
            return Err(GameError::RoundOutOfRange);
        }
        self.recompute();
        proof {
            lemma_score_bounds(old(self)@.hist, round as int);
            if round < 20 {
                assert(self@.checkpoints[round as int] == (
                    score_after(self@.hist, round as int),
                    all_positive_upto(self@.hist, round as int),
                ));
            }
        }
        let cur = self.current_round();
        if round < cur && round < 20 {
            Ok(self.rounds[round as usize].start_score)
        } else {
            Ok(self.score)
        }
    }
}

/// A fully recorded history, read as a history of optional entries.
pub open spec fn as_hist(rounds: Seq<u8>) -> Seq<Option<u8>> {
    rounds.map_values(|h: u8| Some(h))
}

/// The immutable snapshot of a finished player's score, taken exactly once
/// when the game ends: the final score, the cliff count, the all-positive
/// flag, and a copy of the round history.
#[derive(Debug, Clone, PartialEq)]
pub struct Score27 {
    rounds: Vec<u8>,
    all_positive: bool,
    cliffs: u8,
    score: i16,
}

impl Score27 {
    /// The hits of each of the twenty rounds.
    pub closed spec fn spec_rounds(self) -> Seq<u8> {
        self.rounds@
    }

    pub closed spec fn spec_all_positive(self) -> bool {
        self.all_positive
    }

    pub closed spec fn spec_cliffs(self) -> int {
        self.cliffs as int
    }

    pub closed spec fn spec_score(self) -> int {
        self.score as int
    }

    /// The snapshot agrees with a from-scratch replay of its history.
    pub open spec fn wf(self) -> bool {
        &&& self.spec_rounds().len() == 20
        &&& wf_hist(as_hist(self.spec_rounds()))
        &&& self.spec_score() == score_after(as_hist(self.spec_rounds()), 20)
        &&& self.spec_cliffs() == cliff_count_upto(as_hist(self.spec_rounds()), 20)
        &&& self.spec_all_positive() == all_positive_upto(as_hist(self.spec_rounds()), 20)
    }

    /// Snapshot a fully played accumulator: force a recompute if it is
    /// dirty, then copy the final score, the all-positive flag and the
    /// history, and count the cliffs. An accumulator with unplayed rounds
    /// is refused and left as it stands. The final score matches the
    /// closed form `27 + sum of delta(round, hits)` over all rounds.
    pub fn finalize(a: &mut ActiveScore27) -> (r: Result<Score27, GameError>)
        requires
            old(a)@.wf(),
        ensures
            spec_current_round(old(a)@.hist) != 21 ==> r == Err::<Score27, GameError>(
                GameError::PrematureFinalize,
            ) && *final(a) == *old(a),
            spec_current_round(old(a)@.hist) == 21 ==> {
                &&& final(a)@ == spec_recompute(old(a)@)
                &&& final(a)@.wf()
                &&& r matches Ok(c) && c.wf() && as_hist(c.spec_rounds()) == old(a)@.hist
                    && c.spec_score() == score_after(old(a)@.hist, 20) && c.spec_cliffs()
                    == cliff_count_upto(old(a)@.hist, 20) && c.spec_all_positive()
                    == all_positive_upto(old(a)@.hist, 20)
            },
    {
        if a.current_round() != 21 {
            return Err(GameError::PrematureFinalize);
        }
        proof {
            lemma_finished_all_recorded(old(a)@.hist, 0);
        }
        a.recompute();
        let score = a.score_if_clean();
        let all_positive = a.all_positive_if_clean();
        let ghost hist = a@.hist;
        let mut rounds: Vec<u8> = Vec::new();
        let mut cliffs: u8 = 0;
        let mut i: u8 = 0;
        while i < 20
            invariant
                0 <= i <= 20,
                a@.wf(),
                a@.hist == hist,
                hist.len() == 20,
                forall|j: int| 0 <= j < 20 ==> hist[j] is Some,
                rounds@.len() == i as int,
                forall|j: int| 0 <= j < i as int ==> Some(#[trigger] rounds@[j]) == hist[j],
                cliffs <= i,
                cliffs as int == cliff_count_upto(hist, i as int),
            decreases 20 - i,
        {
            let h = match a.hits(i + 1) {
                Ok(Some(h)) => h,
                _ => {
                    proof {
                        assert(false);
                    }
                    0
                },
            };
            rounds.push(h);
            if h == 3 {
                cliffs = cliffs + 1;
            }
            proof {
                assert(cliff_count_upto(hist, i as int + 1) == cliff_count_upto(hist, i as int)
                    + if hist[i as int] == Some(3u8) {
                    1int
                } else {
                    0int
                });
            }
            i = i + 1;
        }
        let c = Score27 { rounds, all_positive, cliffs, score };
        proof {
            assert(as_hist(c.spec_rounds()) =~= hist);
        }
        Ok(c)
    }

    /// The final score.
    pub fn score(&self) -> (r: i16)
        ensures
            r as int == self.spec_score(),
    {
        self.score
    }

    /// How many rounds were cliffs: all three darts on target.
    pub fn cliffs(&self) -> (r: u8)
        ensures
            r as int == self.spec_cliffs(),
    {
        self.cliffs
    }

    /// Whether the running score stayed non-negative at every round
    /// boundary of the whole game.
    pub fn all_positive(&self) -> (r: bool)
        ensures
            r == self.spec_all_positive(),
    {
        self.all_positive
    }

    /// A completed score is always finished.
    pub fn is_finished(&self) -> (r: bool)
        ensures
            r,
    {
        true
    }

    /// The hits recorded for `round`.
    pub fn hits(&self, round: u8) -> (r: Result<u8, GameError>)
        requires
            self.wf(),
        ensures
            (1 <= round <= 20) ==> r == Ok::<u8, GameError>(self.spec_rounds()[round as int - 1]),
            !(1 <= round <= 20) ==> r == Err::<u8, GameError>(GameError::RoundOutOfRange),
    {
        if round < 1 || round > 20 {
            return Err(GameError::RoundOutOfRange);
        }
        Ok(self.rounds[(round - 1) as usize])
    }

    /// The score as of completing exactly `round` rounds, replayed from
    /// the snapshot's history.
    pub fn cumulative_score(&self, round: u8) -> (r: Result<i16, GameError>)
        requires
            self.wf(),
        ensures
            (1 <= round <= 20) ==> r == Ok::<i16, GameError>(
                score_after(as_hist(self.spec_rounds()), round as int) as i16,
            ),
            !(1 <= round <= 20) ==> r == Err::<i16, GameError>(GameError::RoundOutOfRange),
    {
        if round < 1 || round > 20 {
            return Err(GameError::RoundOutOfRange);
        }
        let ghost hist = as_hist(self.spec_rounds());
        let mut s: i16 = 27;
        let mut i: u8 = 0;
        while i < round
            invariant
                0 <= i <= round <= 20,
                self.wf(),
                self.rounds@.len() == 20,
                hist == as_hist(self.spec_rounds()),
                s as int == score_after(hist, i as int),
            decreases round - i,
        {
            proof {
                lemma_score_bounds(hist, i as int + 1);
                let n = i as int + 1;
                assert(n * (n + 1) <= 420 && 3 * n * (n + 1) <= 1260) by (nonlinear_arith)
                    requires
                        1 <= n <= 20,
                ;
                assert(hist[i as int] == Some(self.rounds@[i as int]));
            }
            let dlt = delta_value(i + 1, self.rounds[i as usize]);
            s = s + dlt;
            i = i + 1;
        }
        Ok(s)
    }
}

impl ActiveScore27 {
    /// The cached total of a clean accumulator, without recomputing.
    fn score_if_clean(&self) -> (r: i16)
        requires
            self@.wf(),
            self@.dirty is None,
        ensures
            r as int == score_after(self@.hist, 20),
    {
        self.score
    }

    /// The cached all-positive flag of a clean accumulator.
    fn all_positive_if_clean(&self) -> (r: bool)
        requires
            self@.wf(),
            self@.dirty is None,
        ensures
            r == all_positive_upto(self@.hist, 20),
    {
        self.all_positive
    }
}

// -------------------------------------------------------------------------
// Laws tying the operations together.
/// A recompute after any write yields the same cumulative score as a
/// from-scratch replay of the whole history.
pub proof fn lemma_recompute_matches_replay(m: ScoreModel, round: int, hits: u8)
    requires
        m.wf(),
        1 <= round <= 20,
        hits <= 3,
    ensures
        spec_recompute(spec_record(m, round, hits)).score == score_after(
            m.hist.update(round - 1, Some(hits)),
            20,
        ),
{
}

/// Recording the same hits for the same round twice in a row leaves the
/// accumulator exactly as recording it once does.
pub proof fn lemma_record_idempotent(m: ScoreModel, round: int, hits: u8)
    requires
        m.wf(),
        1 <= round <= 20,
        hits <= 3,
    ensures
        spec_record(spec_record(m, round, hits), round, hits) == spec_record(m, round, hits),
{
    let once = spec_record(m, round, hits);
    let twice = spec_record(once, round, hits);
    assert(twice.hist =~= once.hist);
    assert(twice =~= once);
}

/// Once the player is past round 20, the cumulative score of round 20 is
/// the live total.
pub proof fn lemma_cumulative_at_twenty_is_score(hist: Seq<Option<u8>>)
    requires
        hist.len() == 20,
        spec_current_round(hist) > 20,
    ensures
        spec_cumulative(hist, 20) == score_after(hist, 20),
{
}

/// The all-positive flag is derived fresh on every recompute, not carried
/// forward: when a correction removes a negative dip, the next recompute
/// reports all-positive again whatever the flag held before.
pub proof fn lemma_all_positive_not_sticky(m: ScoreModel, round: int, hits: u8)
    requires
        m.wf(),
        1 <= round <= 20,
        hits <= 3,
        all_positive_upto(m.hist.update(round - 1, Some(hits)), 20),
    ensures
        spec_recompute(spec_record(m, round, hits)).all_positive,
{
}

} // verus!
