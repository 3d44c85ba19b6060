//! The game engine: it owns every player's score, runs the round-robin
//! turn scheduler, applies sealed turns, consults the rules and finalizes
//! the game.

use std::collections::VecDeque;
use vstd::prelude::*;

use crate::player::{lemma_player_id_injective, Player};
use crate::rules::{GameEnd, GameType, GameType27};
use crate::score::{
    as_hist, initial_model, lemma_current_round_range, score_after, spec_current_round,
    spec_record, spec_recompute, ActiveScore27, Score27, ScoreModel,
};
use crate::target::BoardSection;
use crate::turn::{NumDarts, SingleTarget};
use crate::GameError;

verus! {

/// An insertion-ordered map of an outside crate; the engine keys one by a
/// player's id to find the player's seat.
#[verifier::external_type_specification]
#[verifier::external_body]
#[verifier::reject_recursive_types(K)]
#[verifier::reject_recursive_types(V)]
#[verifier::reject_recursive_types(S)]
pub struct ExIndexMap<K, V, S>(indexmap::IndexMap<K, V, S>);

/// The entries an id-to-seat map holds, in insertion order.
pub uninterp spec fn index_map_entries(m: indexmap::IndexMap<u8, usize>) -> Seq<(u8, usize)>;

/// Relies on indexmap::IndexMap::new: it makes an empty map.
#[verifier::external_body]
fn im_new() -> (m: indexmap::IndexMap<u8, usize>)
    ensures
        index_map_entries(m) == Seq::<(u8, usize)>::empty(),
{
    indexmap::IndexMap::new()
}

/// Relies on indexmap::IndexMap::insert: a new key is appended last in
/// order and `None` is returned; an existing key keeps its place, only its
/// value is replaced, and the old value is returned.
#[verifier::external_body]
fn im_insert(m: &mut indexmap::IndexMap<u8, usize>, k: u8, v: usize) -> (r: Option<usize>)
    ensures
        ({
            let es = index_map_entries(*old(m));
            let es2 = index_map_entries(*final(m));
            if exists|i: int| 0 <= i < es.len() && es[i].0 == k {
                exists|i: int|
                    0 <= i < es.len() && es[i].0 == k && es2 == es.update(i, (k, v)) && r == Some(
                        es[i].1,
                    )
            } else {
                es2 == es.push((k, v)) && r is None
            }
        }),
{
    m.insert(k, v)
}

/// Relies on indexmap::IndexMap::get: it returns the value stored under an
/// equal key, if one is present.
#[verifier::external_body]
fn im_get(m: &indexmap::IndexMap<u8, usize>, k: u8) -> (r: Option<usize>)
    ensures
        ({
            let es = index_map_entries(*m);
            match r {
                Some(v) => exists|i: int| 0 <= i < es.len() && es[i] == (k, v),
                None => forall|i: int| 0 <= i < es.len() ==> (#[trigger] es[i]).0 != k,
            }
        }),
{
    m.get(&k).copied()
}

/// Relies on chrono's `From<SystemTime>` conversion for `DateTime<Utc>`:
/// the current time, read as whole seconds since the Unix epoch, negative
/// for a clock set before it. The value depends on the clock, so nothing
/// is promised of it.
#[verifier::external_body]
fn now_timestamp() -> i64 {
    chrono::DateTime::<chrono::Utc>::from(std::time::SystemTime::now()).timestamp()
}

/// The input player list with later duplicates dropped: each player keeps
/// the seat of their first occurrence.
pub open spec fn spec_dedup(s: Seq<Player>) -> Seq<Player>
    decreases s.len(),
{
    if s.len() == 0 {
        Seq::<Player>::empty()
    } else {
        let prefix = spec_dedup(s.drop_last());
        if prefix.contains(s.last()) {
            prefix
        } else {
            prefix.push(s.last())
        }
    }
}

/// Deduplication keeps at least one player of a non-empty list.
pub proof fn lemma_dedup_nonempty(s: Seq<Player>)
    requires
        s.len() > 0,
    ensures
        spec_dedup(s).len() > 0,
    decreases s.len(),
{
    if s.len() > 1 {
        lemma_dedup_nonempty(s.drop_last());
    }
}

/// The seat of the first occurrence of `p`, or -1 when `p` is not seated.
pub open spec fn spec_seat_of(s: Seq<Player>, p: Player) -> int
    decreases s.len(),
{
    if s.len() == 0 {
        -1
    } else if s[0] == p {
        0
    } else {
        let rest = spec_seat_of(s.drop_first(), p);
        if rest < 0 {
            -1
        } else {
            1 + rest
        }
    }
}

/// A seated player's seat is their index; an unseated player has none.
pub proof fn lemma_seat_of_correct(s: Seq<Player>, p: Player)
    ensures
        s.contains(p) ==> 0 <= spec_seat_of(s, p) < s.len() && s[spec_seat_of(s, p)] == p,
        !s.contains(p) ==> spec_seat_of(s, p) == -1,
    decreases s.len(),
{
    if s.len() > 0 && s[0] != p {
        lemma_seat_of_correct(s.drop_first(), p);
        assert(s.contains(p) ==> s.drop_first().contains(p)) by {
            if s.contains(p) {
                let i = choose|i: int| 0 <= i < s.len() && s[i] == p;
                assert(s.drop_first()[i - 1] == p);
            }
        }
        if s.drop_first().contains(p) {
            assert(s[1 + spec_seat_of(s.drop_first(), p)] == p);
        }
    }
}

/// Every player has fully played all twenty rounds.
pub open spec fn spec_all_finished(scores: Seq<ScoreModel>) -> bool {
    forall|i: int| 0 <= i < scores.len() ==> spec_current_round(#[trigger] scores[i].hist) == 21
}

/// The decision the engine reaches after a turn: while someone is
/// unfinished play continues; once everyone has finished, the game ends if
/// the final-round mode was already set or the round is already complete,
/// and otherwise the round is played out first.
pub open spec fn spec_apply_decision(
    scores: Seq<ScoreModel>,
    queue_empty: bool,
    mode: bool,
) -> GameEnd {
    if !spec_all_finished(scores) {
        GameEnd::Continue
    } else if mode || queue_empty {
        GameEnd::EndGame
    } else {
        GameEnd::FinishRound
    }
}

/// The two engine states agree on everything but the turn queue.
pub open spec fn same_but_queue(a: ActiveGame, b: ActiveGame) -> bool {
    &&& a.spec_players() == b.spec_players()
    &&& a.spec_scores() == b.spec_scores()
    &&& a.spec_completed() == b.spec_completed()
    &&& a.spec_round_num() == b.spec_round_num()
    &&& a.spec_state() == b.spec_state()
    &&& a.spec_date() == b.spec_date()
    &&& a.spec_lookup() == b.spec_lookup()
}

/// A game in play: the per-player scores in seating order, the queue of
/// players yet to play the current round, and the termination state.
pub struct ActiveGame {
    rules: GameType27,
    date: i64,
    lookup: indexmap::IndexMap<u8, usize>,
    players: Vec<Player>,
    scores: Vec<ActiveScore27>,
    completed: Vec<Option<Score27>>,
    round_players: VecDeque<Player>,
    round_num: u8,
    state: GameEnd,
}

impl ActiveGame {
    /// The players, in seating (= display) order.
    pub closed spec fn spec_players(self) -> Seq<Player> {
        self.players@
    }

    /// The abstract state of each seat's accumulator.
    pub closed spec fn spec_scores(self) -> Seq<ScoreModel> {
        self.scores@.map_values(|s: ActiveScore27| s@)
    }

    /// The snapshots taken at game end, one per seat.
    pub closed spec fn spec_completed(self) -> Seq<Option<Score27>> {
        self.completed@
    }

    /// The players yet to play the current round, front first.
    pub closed spec fn spec_queue(self) -> Seq<Player> {
        self.round_players@
    }

    /// The latest round any player has completed.
    pub closed spec fn spec_round_num(self) -> int {
        self.round_num as int
    }

    /// The termination state: `Continue`, the sticky final-round mode
    /// `FinishRound`, or `EndGame` once the game is over.
    pub closed spec fn spec_state(self) -> GameEnd {
        self.state
    }

    /// When the game was played, as seconds since the Unix epoch.
    pub closed spec fn spec_date(self) -> int {
        self.date as int
    }

    /// The entries of the id-to-seat lookup.
    pub closed spec fn spec_lookup(self) -> Seq<(u8, usize)> {
        index_map_entries(self.lookup)
    }

    /// The engine's invariant: one score and one snapshot slot per seated
    /// player, all seats distinct, a lookup entry per seat, every queued
    /// player seated, and snapshots exactly when the game has ended.
    pub open spec fn wf(self) -> bool {
        let n = self.spec_players().len();
        &&& n >= 1
        &&& self.spec_scores().len() == n
        &&& self.spec_completed().len() == n
        &&& forall|i: int| 0 <= i < n ==> (#[trigger] self.spec_scores()[i]).wf()
        &&& forall|i: int, j: int|
            0 <= i < j < n ==> self.spec_players()[i] != self.spec_players()[j]
        &&& self.spec_lookup().len() == n
        &&& forall|i: int|
            0 <= i < n ==> (#[trigger] self.spec_lookup()[i]).0
                == self.spec_players()[i].spec_id() as u8 && self.spec_lookup()[i].1 as int == i
        &&& forall|i: int|
            0 <= i < self.spec_queue().len() ==> self.spec_players().contains(
                #[trigger] self.spec_queue()[i],
            )
        &&& (self.spec_state() == GameEnd::EndGame ==> forall|i: int|
            0 <= i < n ==> ((#[trigger] self.spec_completed()[i]) matches Some(c) && c.wf()
                && as_hist(c.spec_rounds()) == self.spec_scores()[i].hist))
        &&& (self.spec_state() != GameEnd::EndGame ==> forall|i: int|
            0 <= i < n ==> (#[trigger] self.spec_completed()[i]) is None)
    }

    /// A new game, dated explicitly. Players are seated in the order
    /// given; a player named twice keeps their first seat. Every score
    /// starts fresh and the game is under way.
    pub fn new(date: i64, players: Vec<Player>) -> (r: ActiveGame)
        requires
            players@.len() >= 1,
        ensures
            r.wf(),
            r.spec_players() == spec_dedup(players@),
            r.spec_scores().len() == spec_dedup(players@).len(),
            forall|i: int|
                0 <= i < r.spec_scores().len() ==> #[trigger] r.spec_scores()[i]
                    == initial_model(),
            r.spec_queue() == Seq::<Player>::empty(),
            r.spec_round_num() == 0,
            r.spec_state() == GameEnd::Continue,
            r.spec_date() == date as int,
    {
        let rules = GameType27;
        let mut lookup = im_new();
        let mut seated: Vec<Player> = Vec::new();
        let mut scores: Vec<ActiveScore27> = Vec::new();
        let mut completed: Vec<Option<Score27>> = Vec::new();
        let mut i: usize = 0;
        while i < players.len()
            invariant
                0 <= i <= players@.len(),
                seated@ == spec_dedup(players@.subrange(0, i as int)),
                scores@.len() == seated@.len(),
                completed@.len() == seated@.len(),
                forall|j: int|
                    0 <= j < scores@.len() ==> (#[trigger] scores@[j])@ == initial_model()
                        && scores@[j]@.wf(),
                forall|j: int| 0 <= j < completed@.len() ==> (#[trigger] completed@[j]) is None,
                forall|j: int, k: int| 0 <= j < k < seated@.len() ==> seated@[j] != seated@[k],
                index_map_entries(lookup).len() == seated@.len(),
                forall|j: int|
                    0 <= j < seated@.len() ==> (#[trigger] index_map_entries(lookup)[j]).0
                        == seated@[j].spec_id() as u8 && index_map_entries(lookup)[j].1 as int
                        == j,
            decreases players@.len() - i,
        {
            let p = players[i];
            let ghost pre = players@.subrange(0, i as int);
            proof {
                assert(players@.subrange(0, i as int + 1).drop_last() =~= pre);
            }
            match im_get(&lookup, p.id()) {
                Some(seat0) => {
                    // already seated: the entry under this id names an
                    // equal player, since ids are distinct
                    proof {
                        let es = index_map_entries(lookup);
                        let k = choose|k: int|
                            0 <= k < es.len() && es[k] == (p.spec_id() as u8, seat0);
                        assert(es[k].0 == seated@[k].spec_id() as u8);
                        lemma_player_id_injective(seated@[k], p);
                        assert(seated@.contains(p));
                    }
                },
                None => {
                    proof {
                        if seated@.contains(p) {
                            let k = choose|k: int|
                                0 <= k < seated@.len() && seated@[k] == p;
                            assert(index_map_entries(lookup)[k].0 == seated@[k].spec_id() as u8);
                            assert(false);
                        }
                    }
                    let seat = seated.len();
                    let _ = im_insert(&mut lookup, p.id(), seat);
                    seated.push(p);
                    scores.push(rules.new_score(&p));
                    completed.push(None);
                },
            }
            i = i + 1;
        }
        proof {
            assert(players@.subrange(0, players@.len() as int) =~= players@);
            lemma_dedup_nonempty(players@);
        }
        let r = ActiveGame {
            rules,
            date,
            lookup,
            players: seated,
            scores,
            completed,
            round_players: VecDeque::new(),
            round_num: 0,
            state: GameEnd::Continue,
        };
        proof {
            assert(r.spec_queue() =~= Seq::<Player>::empty());
        }
        r
    }

    /// The queue the next turn is taken from: the current one, or a fresh
    /// snapshot of all players when it has run empty.
    pub open spec fn spec_next_queue(self) -> Seq<Player> {
        if self.spec_queue().len() == 0 {
            self.spec_players()
        } else {
            self.spec_queue()
        }
    }

    /// Hand out the next turn: nothing once the game has ended. Otherwise
    /// the queue is refilled with every player, in seating order, whenever
    /// it is empty; the front player is popped, and a three-dart turn at
    /// the double of that player's current round is issued — or nothing,
    /// when that player has already finished.
    pub fn next_turn(&mut self) -> (r: Option<(Player, SingleTarget)>)
        requires
            old(self).wf(),
        ensures
            final(self).wf(),
            old(self).spec_state() == GameEnd::EndGame ==> r is None && *final(self) == *old(self),
            old(self).spec_state() != GameEnd::EndGame ==> ({
                let q = old(self).spec_next_queue();
                let p = q[0];
                let seat = spec_seat_of(old(self).spec_players(), p);
                let cur = spec_current_round(old(self).spec_scores()[seat].hist);
                &&& final(self).spec_queue() == q.drop_first()
                &&& same_but_queue(*final(self), *old(self))
                &&& (cur <= 20 ==> (r matches Some(pt) && pt.0 == p && pt.1.spec_target()
                    == crate::target::spec_round_target(cur) && pt.1.spec_num_darts()
                    == NumDarts::Exactly(3) && pt.1.spec_darts_thrown() == 0 && pt.1.spec_hits()
                    == 0 && pt.1.wf()))
                &&& (cur > 20 ==> r is None)
            }),
    {
        if let GameEnd::EndGame = self.state {
            return None;
        }
        if self.round_players.len() == 0 {
            let mut i: usize = 0;
            while i < self.players.len()
                invariant
                    0 <= i <= self.players@.len(),
                    self.round_players@ == self.players@.subrange(0, i as int),
                    self.players@ == old(self).spec_players(),
                    self.lookup == old(self).lookup,
                    self.scores@ == old(self).scores@,
                    self.completed@ == old(self).completed@,
                    self.date == old(self).date,
                    self.round_num == old(self).round_num,
                    self.state == old(self).state,
                    self.rules == old(self).rules,
                    old(self).wf(),
                decreases self.players@.len() - i,
            {
                let ghost pre = self.round_players@;
                self.round_players.push_back(self.players[i]);
                proof {
                    assert(self.round_players@ =~= self.players@.subrange(0, i as int + 1));
                }
                i = i + 1;
            }
            proof {
                assert(self.players@.subrange(0, self.players@.len() as int) =~= self.players@);
            }
        }
        let ghost q = self.round_players@;
        let p = match self.round_players.pop_front() {
            Some(p) => p,
            None => {
                proof {
                    assert(false);
                }
                return None;
            },
        };
        proof {
            assert(old(self).spec_players().contains(p)) by {
                if q == old(self).spec_players() {
                    assert(old(self).spec_players()[0] == p);
                } else {
                    assert(old(self).spec_queue()[0] == p);
                }
            }
            lemma_seat_of_correct(old(self).spec_players(), p);
        }
        let seat = match im_get(&self.lookup, p.id()) {
            Some(i) => i,
            None => {
                proof {
                    let ps = old(self).spec_players();
                    let k = spec_seat_of(ps, p);
                    assert(old(self).spec_lookup()[k].0 == ps[k].spec_id() as u8);
                    assert(false);
                }
                return None;
            },
        };
        proof {
            let ps = old(self).spec_players();
            let es = old(self).spec_lookup();
            let i = choose|i: int| 0 <= i < es.len() && es[i] == (p.spec_id() as u8, seat);
            assert(es[i].0 == ps[i].spec_id() as u8);
            lemma_player_id_injective(ps[i], p);
            assert(ps[i] == p);
            assert(i == spec_seat_of(ps, p));
            assert(seat as int == es[i].1 as int);
            assert(seat as int == spec_seat_of(ps, p));
        }
        match self.scores[seat].next_turn() {
            Some(t) => Some((p, t)),
            None => None,
        }
    }

    /// Snapshot every seat and end the game: each accumulator is forced
    /// clean and copied into an immutable completed score.
    fn end_game(&mut self)
        requires
            old(self).wf(),
            spec_all_finished(old(self).spec_scores()),
        ensures
            final(self).wf(),
            final(self).spec_state() == GameEnd::EndGame,
            final(self).spec_players() == old(self).spec_players(),
            final(self).spec_queue() == old(self).spec_queue(),
            final(self).spec_date() == old(self).spec_date(),
            final(self).spec_lookup() == old(self).spec_lookup(),
            final(self).spec_round_num() == old(self).spec_round_num(),
            final(self).spec_scores().len() == old(self).spec_scores().len(),
            forall|i: int|
                0 <= i < old(self).spec_scores().len() ==> #[trigger] final(self).spec_scores()[i]
                    == spec_recompute(old(self).spec_scores()[i]),
            forall|i: int|
                0 <= i < old(self).spec_scores().len()
                    ==> ((#[trigger] final(self).spec_completed()[i]) matches Some(c) && c.wf()
                    && as_hist(c.spec_rounds()) == old(self).spec_scores()[i].hist
                    && c.spec_score() == score_after(old(self).spec_scores()[i].hist, 20)),
    {
        let n = self.players.len();
        let mut i: usize = 0;
        while i < n
            invariant
                0 <= i <= n,
                n == old(self).spec_players().len(),
                old(self).wf(),
                spec_all_finished(old(self).spec_scores()),
                self.players@ == old(self).spec_players(),
                self.round_players@ == old(self).spec_queue(),
                self.date == old(self).date,
                self.lookup == old(self).lookup,
                self.round_num == old(self).round_num,
                self.state == old(self).state,
                self.rules == old(self).rules,
                self.scores@.len() == n,
                self.completed@.len() == n,
                forall|j: int|
                    i as int <= j < n ==> #[trigger] self.scores@[j] == old(self).scores@[j],
                forall|j: int|
                    i as int <= j < n ==> #[trigger] self.completed@[j] == old(self).completed@[j],
                forall|j: int|
                    0 <= j < i as int ==> (#[trigger] self.scores@[j])@ == spec_recompute(
                        old(self).spec_scores()[j],
                    ),
                forall|j: int|
                    0 <= j < i as int ==> ((#[trigger] self.completed@[j]) matches Some(c)
                        && c.wf() && as_hist(c.spec_rounds()) == old(self).spec_scores()[j].hist
                        && c.spec_score() == score_after(old(self).spec_scores()[j].hist, 20)),
            decreases n - i,
        {
            proof {
                assert(old(self).spec_scores()[i as int] == old(self).scores@[i as int]@);
            }
            let mut s = ActiveScore27::new();
            self.scores.set_and_swap(i, &mut s);
            match Score27::finalize(&mut s) {
                Ok(c) => {
                    self.completed.set(i, Some(c));
                },
                Err(_) => {
                    proof {
                        assert(false);
                    }
                },
            }
            self.scores.set_and_swap(i, &mut s);
            i = i + 1;
        }
        self.state = GameEnd::EndGame;
        proof {
            assert(self.spec_scores() =~= Seq::new(n as nat, |j: int| spec_recompute(
                old(self).spec_scores()[j],
            )));
            assert forall|j: int| 0 <= j < n implies (#[trigger] self.spec_scores()[j])
                == spec_recompute(old(self).spec_scores()[j]) by {}
        }
    }

    /// Merge a sealed turn back into its player's score. The round is read
    /// off the turn's target; recording it advances the round number when
    /// the player moved past it. The rules are then consulted: while
    /// someone is unfinished the game continues; once everyone is
    /// finished, the current round is played out first (a sticky mode, so
    /// draws remain possible), and the game ends — every seat snapshotted —
    /// when that round is complete. A player outside the game, a target
    /// off the rounds' range, or a hit count above three is refused, and
    /// the engine is left untouched.
    pub fn apply_turn_result(&mut self, player: Player, turn: &SingleTarget) -> (r: Result<
        GameEnd,
        GameError,
    >)
        requires
            old(self).wf(),
            old(self).spec_state() != GameEnd::EndGame,
            turn.wf(),
            turn.spec_sealed(),
        ensures
            final(self).wf(),
            !old(self).spec_players().contains(player) ==> r == Err::<GameEnd, GameError>(
                GameError::InvalidPlayer,
            ) && *final(self) == *old(self),
            old(self).spec_players().contains(player) ==> ({
                let round_ok = turn.spec_target() matches BoardSection::Number(n, _) && 1 <= n
                    <= 20;
                &&& (!round_ok ==> r == Err::<GameEnd, GameError>(GameError::RoundOutOfRange)
                    && *final(self) == *old(self))
                &&& ((round_ok && turn.spec_hits() > 3) ==> r == Err::<GameEnd, GameError>(
                    GameError::TooManyDarts,
                ) && *final(self) == *old(self))
                &&& ((round_ok && turn.spec_hits() <= 3) ==> ({
                    let seat = spec_seat_of(old(self).spec_players(), player);
                    let round = turn.spec_target()->Number_0 as int;
                    let hits = turn.spec_hits() as u8;
                    let scores1 = old(self).spec_scores().update(
                        seat,
                        spec_record(old(self).spec_scores()[seat], round, hits),
                    );
                    let cur = spec_current_round(scores1[seat].hist);
                    let decision = spec_apply_decision(
                        scores1,
                        old(self).spec_queue().len() == 0,
                        old(self).spec_state() == GameEnd::FinishRound,
                    );
                    &&& r == Ok::<GameEnd, GameError>(decision)
                    &&& final(self).spec_players() == old(self).spec_players()
                    &&& final(self).spec_queue() == old(self).spec_queue()
                    &&& final(self).spec_date() == old(self).spec_date()
                    &&& final(self).spec_lookup() == old(self).spec_lookup()
                    &&& final(self).spec_round_num() == if cur > old(self).spec_round_num() {
                        cur
                    } else {
                        old(self).spec_round_num()
                    }
                    &&& final(self).spec_state() == (match decision {
                        GameEnd::EndGame => GameEnd::EndGame,
                        GameEnd::FinishRound => GameEnd::FinishRound,
                        GameEnd::Continue => old(self).spec_state(),
                    })
                    &&& (decision != GameEnd::EndGame ==> final(self).spec_scores() == scores1
                        && final(self).spec_completed() == old(self).spec_completed())
                    &&& (decision == GameEnd::EndGame ==> final(self).spec_scores().len()
                        == scores1.len() && (forall|i: int|
                        0 <= i < scores1.len() ==> #[trigger] final(self).spec_scores()[i]
                            == spec_recompute(scores1[i])) && (forall|i: int|
                        0 <= i < scores1.len()
                            ==> ((#[trigger] final(self).spec_completed()[i]) matches Some(c)
                            && c.wf() && as_hist(c.spec_rounds()) == scores1[i].hist
                            && c.spec_score() == score_after(scores1[i].hist, 20))))
                }))
            }),
    {
        let ghost ps = old(self).spec_players();
        let seat = match im_get(&self.lookup, player.id()) {
            Some(i) => i,
            None => {
                proof {
                    if ps.contains(player) {
                        lemma_seat_of_correct(ps, player);
                        let k = spec_seat_of(ps, player);
                        assert(old(self).spec_lookup()[k].0 == ps[k].spec_id() as u8);
                        assert(false);
                    }
                }
                return Err(GameError::InvalidPlayer);
            },
        };
        proof {
            let es = old(self).spec_lookup();
            let i = choose|i: int|
                0 <= i < es.len() && es[i] == (player.spec_id() as u8, seat);
            assert(es[i].0 == ps[i].spec_id() as u8);
            lemma_player_id_injective(ps[i], player);
            assert(ps.contains(player));
            lemma_seat_of_correct(ps, player);
            assert(i == spec_seat_of(ps, player));
            assert(seat as int == es[i].1 as int);
        }
        let round = match turn.target().number() {
            Some(n) => n,
            None => {
                return Err(GameError::RoundOutOfRange);
            },
        };
        if round < 1 || round > 20 {
            return Err(GameError::RoundOutOfRange);
        }
        let hits = turn.hits();
        if hits > 3 {
            return Err(GameError::TooManyDarts);
        }
        let ghost scores1 = old(self).spec_scores().update(
            seat as int,
            spec_record(old(self).spec_scores()[seat as int], round as int, hits),
        );
        let mut s = ActiveScore27::new();
        self.scores.set_and_swap(seat, &mut s);
        let res = s.record_turn(round, hits);
        proof {
            assert(res is Ok);
        }
        let cur = s.current_round();
        self.scores.set_and_swap(seat, &mut s);
        proof {
            assert(self.spec_scores() =~= scores1);
        }
        if cur > self.round_num {
            self.round_num = cur;
        }
        let ghost mid = *self;
        let mut remaining: Vec<Player> = Vec::new();
        let mut i: usize = 0;
        let n = self.players.len();
        while i < n
            invariant
                0 <= i <= n,
                *self == mid,
                n == self.players@.len(),
                self.scores@.len() == n,
                self.spec_scores() == scores1,
                forall|j: int| 0 <= j < n ==> (#[trigger] self.spec_scores()[j]).wf(),
                (remaining@.len() == 0) == (forall|j: int|
                    0 <= j < i as int ==> spec_current_round(
                        #[trigger] self.spec_scores()[j].hist,
                    ) == 21),
            decreases n - i,
        {
            proof {
                assert(self.scores@[i as int]@ == self.spec_scores()[i as int]);
            }
            let ghost pre_len = remaining@.len();
            if !self.scores[i].is_finished() {
                remaining.push(self.players[i]);
            }
            proof {
                if pre_len > 0 {
                    assert(remaining@.len() > 0);
                    assert(!(forall|j: int|
                        0 <= j < i as int ==> spec_current_round(
                            #[trigger] self.spec_scores()[j].hist,
                        ) == 21));
                    let j0 = choose|j: int|
                        0 <= j < i as int && spec_current_round(
                            #[trigger] self.spec_scores()[j].hist,
                        ) != 21;
                    assert(spec_current_round(self.spec_scores()[j0].hist) != 21);
                }
            }
            i = i + 1;
        }
        proof {
            assert((remaining@.len() == 0) == spec_all_finished(scores1));
        }
        let mut round_vec: Vec<Player> = Vec::new();
        let mut k: usize = 0;
        let qn = self.round_players.len();
        while k < qn
            invariant
                0 <= k <= qn,
                *self == mid,
                qn == self.round_players@.len(),
                round_vec@.len() == k as int,
            decreases qn - k,
        {
            round_vec.push(self.round_players[k]);
            k = k + 1;
        }
        let rules = self.rules;
        let mode = match self.state {
            GameEnd::FinishRound => true,
            _ => false,
        };
        let mut decision = rules.should_end_game(&round_vec, &remaining, mode);
        if let GameEnd::FinishRound = decision {
            self.state = GameEnd::FinishRound;
            if qn == 0 {
                decision = rules.should_end_game(&round_vec, &remaining, true);
            }
        }
        if let GameEnd::EndGame = decision {
            proof {
                assert(self.wf());
            }
            self.end_game();
        }
        Ok(decision)
    }

    /// Find a player's seat through the id lookup.
    fn seat(&self, player: Player) -> (r: Option<usize>)
        requires
            self.wf(),
        ensures
            self.spec_players().contains(player) ==> (r matches Some(i) && i as int
                == spec_seat_of(self.spec_players(), player) && (i as int)
                < self.spec_players().len()),
            !self.spec_players().contains(player) ==> r is None,
    {
        proof {
            lemma_seat_of_correct(self.spec_players(), player);
        }
        match im_get(&self.lookup, player.id()) {
            Some(i) => {
                proof {
                    let ps = self.spec_players();
                    let es = self.spec_lookup();
                    let k = choose|k: int|
                        0 <= k < es.len() && es[k] == (player.spec_id() as u8, i);
                    assert(es[k].0 == ps[k].spec_id() as u8);
                    lemma_player_id_injective(ps[k], player);
                    assert(ps.contains(player));
                    assert(k == spec_seat_of(ps, player));
                    assert(i as int == es[k].1 as int);
                }
                Some(i)
            },
            None => {
                proof {
                    let ps = self.spec_players();
                    if ps.contains(player) {
                        let k = spec_seat_of(ps, player);
                        assert(self.spec_lookup()[k].0 == ps[k].spec_id() as u8);
                        assert(false);
                    }
                }
                None
            },
        }
    }

    /// The latest round any player has completed; 0 before the first turn.
    pub fn round_number(&self) -> (r: u8)
        ensures
            r as int == self.spec_round_num(),
    {
        self.round_num
    }

    /// The termination state.
    pub fn state(&self) -> (r: GameEnd)
        ensures
            r == self.spec_state(),
    {
        self.state
    }

    /// The round the given player plays next, or 21 once they finished.
    pub fn current_round_of(&self, player: Player) -> (r: Result<u8, GameError>)
        requires
            self.wf(),
        ensures
            !self.spec_players().contains(player) ==> r == Err::<u8, GameError>(
                GameError::InvalidPlayer,
            ),
            self.spec_players().contains(player) ==> r == Ok::<u8, GameError>(
                spec_current_round(
                    self.spec_scores()[spec_seat_of(self.spec_players(), player)].hist,
                ) as u8,
            ),
    {
        let seat = match self.seat(player) {
            Some(i) => i,
            None => {
                return Err(GameError::InvalidPlayer);
            },
        };
        proof {
            assert(self.scores@[seat as int]@ == self.spec_scores()[seat as int]);
            lemma_current_round_range(self.spec_scores()[seat as int].hist);
        }
        Ok(self.scores[seat].current_round())
    }

    /// Whether the given player has fully played all twenty rounds.
    pub fn is_player_finished(&self, player: Player) -> (r: Result<bool, GameError>)
        requires
            self.wf(),
        ensures
            !self.spec_players().contains(player) ==> r == Err::<bool, GameError>(
                GameError::InvalidPlayer,
            ),
            self.spec_players().contains(player) ==> r == Ok::<bool, GameError>(
                spec_current_round(
                    self.spec_scores()[spec_seat_of(self.spec_players(), player)].hist,
                ) == 21,
            ),
    {
        proof {
            if self.spec_players().contains(player) {
                lemma_seat_of_correct(self.spec_players(), player);
                lemma_current_round_range(
                    self.spec_scores()[spec_seat_of(self.spec_players(), player)].hist,
                );
            }
        }
        match self.current_round_of(player) {
            Ok(cur) => Ok(cur == 21),
            Err(e) => Err(e),
        }
    }

    /// The hits the given player has recorded for `round`, or nothing
    /// while that round is unplayed.
    pub fn hits_of(&self, player: Player, round: u8) -> (r: Result<Option<u8>, GameError>)
        requires
            self.wf(),
        ensures
            !self.spec_players().contains(player) ==> r == Err::<Option<u8>, GameError>(
                GameError::InvalidPlayer,
            ),
            (self.spec_players().contains(player) && !(1 <= round <= 20)) ==> r == Err::<
                Option<u8>,
                GameError,
            >(GameError::RoundOutOfRange),
            (self.spec_players().contains(player) && 1 <= round <= 20) ==> r == Ok::<
                Option<u8>,
                GameError,
            >(self.spec_scores()[spec_seat_of(self.spec_players(), player)].hist[round as int - 1]),
    {
        let seat = match self.seat(player) {
            Some(i) => i,
            None => {
                return Err(GameError::InvalidPlayer);
            },
        };
        proof {
            assert(self.scores@[seat as int]@ == self.spec_scores()[seat as int]);
        }
        self.scores[seat].hits(round)
    }

    /// The given player's score as of completing exactly `round` rounds
    /// while they have fully played that far, their live total otherwise.
    /// Reading recomputes that player's dirty suffix.
    pub fn cumulative_score_of(&mut self, player: Player, round: u8) -> (r: Result<
        i16,
        GameError,
    >)
        requires
            old(self).wf(),
        ensures
            final(self).wf(),
            !old(self).spec_players().contains(player) ==> r == Err::<i16, GameError>(
                GameError::InvalidPlayer,
            ) && *final(self) == *old(self),
            (old(self).spec_players().contains(player) && !(1 <= round <= 20)) ==> r == Err::<
                i16,
                GameError,
            >(GameError::RoundOutOfRange) && *final(self) == *old(self),
            (old(self).spec_players().contains(player) && 1 <= round <= 20) ==> ({
                let seat = spec_seat_of(old(self).spec_players(), player);
                &&& r == Ok::<i16, GameError>(
                    crate::score::spec_cumulative(
                        old(self).spec_scores()[seat].hist,
                        round as int,
                    ) as i16,
                )
                &&& final(self).spec_scores() == old(self).spec_scores().update(
                    seat,
                    spec_recompute(old(self).spec_scores()[seat]),
                )
                &&& final(self).spec_players() == old(self).spec_players()
                &&& final(self).spec_completed() == old(self).spec_completed()
                &&& final(self).spec_queue() == old(self).spec_queue()
                &&& final(self).spec_state() == old(self).spec_state()
                &&& final(self).spec_round_num() == old(self).spec_round_num()
                &&& final(self).spec_date() == old(self).spec_date()
            }),
    {
        let seat = match self.seat(player) {
            Some(i) => i,
            None => {
                return Err(GameError::InvalidPlayer);
            },
        };
        if round < 1 || round > 20 {
            return Err(GameError::RoundOutOfRange);
        }
        proof {
            assert(self.scores@[seat as int]@ == self.spec_scores()[seat as int]);
        }
        let mut s = ActiveScore27::new();
        self.scores.set_and_swap(seat, &mut s);
        let r = match s.cumulative_score(round) {
            Ok(v) => v,
            Err(_) => {
                proof {
                    assert(false);
                }
                0
            },
        };
        self.scores.set_and_swap(seat, &mut s);
        proof {
            assert(self.spec_scores() =~= old(self).spec_scores().update(
                seat as int,
                spec_recompute(old(self).spec_scores()[seat as int]),
            ));
            assert forall|i: int| 0 <= i < self.spec_players().len() implies (#[trigger] self
                .spec_scores()[i]).wf() by {
                if i != seat as int {
                    assert(self.spec_scores()[i] == old(self).spec_scores()[i]);
                }
            }
            assert(self.spec_completed() == old(self).spec_completed());
            assert(self.spec_queue() == old(self).spec_queue());
            assert(self.spec_lookup() == old(self).spec_lookup());
            assert(self.spec_players() == old(self).spec_players());
            if old(self).spec_state() == GameEnd::EndGame {
                assert forall|i: int| 0 <= i < self.spec_players().len() implies ((
                #[trigger] self.spec_completed()[i]) matches Some(c) && c.wf() && as_hist(
                    c.spec_rounds(),
                ) == self.spec_scores()[i].hist) by {
                    assert(old(self).spec_completed()[i] == self.spec_completed()[i]);
                    if i != seat as int {
                        assert(self.spec_scores()[i] == old(self).spec_scores()[i]);
                    } else {
                        assert(spec_recompute(old(self).spec_scores()[i]).hist == old(
                            self,
                        ).spec_scores()[i].hist);
                    }
                }
            } else {
                assert forall|i: int| 0 <= i < self.spec_players().len() implies (#[trigger] self
                    .spec_completed()[i]) is None by {
                    assert(old(self).spec_completed()[i] == self.spec_completed()[i]);
                }
            }
        }
        Ok(r)
    }

    /// Consume an ended game into its immutable record. A game whose rules
    /// have not signalled the end yet is refused.
    pub fn into_completed(self) -> (r: Result<CompletedGame, GameError>)
        requires
            self.wf(),
        ensures
            self.spec_state() != GameEnd::EndGame ==> r == Err::<CompletedGame, GameError>(
                GameError::PrematureFinalize,
            ),
            self.spec_state() == GameEnd::EndGame ==> (r matches Ok(g) && g.wf()
                && g.spec_date() == self.spec_date() && g.spec_players() == self.spec_players()
                && g.spec_scores().len() == self.spec_players().len() && (forall|i: int|
                0 <= i < g.spec_scores().len()
                    ==> self.spec_completed()[i] == Some(#[trigger] g.spec_scores()[i]))),
    {
        if let GameEnd::EndGame = self.state {
        } else {
            return Err(GameError::PrematureFinalize);
        }
        let ghost orig = self.completed@;
        let mut completed = self.completed;
        let mut scores: Vec<Score27> = Vec::new();
        let mut i: usize = 0;
        let n = self.players.len();
        while i < n
            invariant
                0 <= i <= n,
                orig.len() == n,
                completed@ == orig.subrange(i as int, n as int),
                scores@.len() == i as int,
                forall|j: int|
                    0 <= j < i as int ==> orig[j] == Some(#[trigger] scores@[j]),
                forall|j: int| 0 <= j < n ==> (#[trigger] orig[j]) is Some,
            decreases n - i,
        {
            let ghost pre = completed@;
            match completed.remove(0) {
                Some(c) => {
                    scores.push(c);
                },
                None => {
                    proof {
                        assert(pre[0] == orig[i as int]);
                        assert(false);
                    }
                },
            }
            proof {
                assert(completed@ =~= orig.subrange(i as int + 1, n as int));
            }
            i = i + 1;
        }
        let g = CompletedGame { date: self.date, players: self.players, scores };
        Ok(g)
    }

    /// A new game dated now, by the host's clock.
    pub fn new_now(players: Vec<Player>) -> (r: ActiveGame)
        requires
            players@.len() >= 1,
        ensures
            r.wf(),
            r.spec_players() == spec_dedup(players@),
            forall|i: int|
                0 <= i < r.spec_scores().len() ==> #[trigger] r.spec_scores()[i]
                    == initial_model(),
            r.spec_queue() == Seq::<Player>::empty(),
            r.spec_round_num() == 0,
            r.spec_state() == GameEnd::Continue,
    {
        let date = now_timestamp();
        ActiveGame::new(date, players)
    }
}

/// A game in one of its two lifecycle stages.
pub enum State<A, C> {
    Active(A),
    Complete(C),
}

/// The immutable record of a finished game: when it was played, who
/// played, and each player's completed score, in seating order.
#[derive(Debug)]
pub struct CompletedGame {
    date: i64,
    players: Vec<Player>,
    scores: Vec<Score27>,
}

impl CompletedGame {
    pub closed spec fn spec_date(self) -> int {
        self.date as int
    }

    pub closed spec fn spec_players(self) -> Seq<Player> {
        self.players@
    }

    pub closed spec fn spec_scores(self) -> Seq<Score27> {
        self.scores@
    }

    /// One well-formed completed score per seated player.
    pub open spec fn wf(self) -> bool {
        let n = self.spec_players().len();
        &&& n >= 1
        &&& self.spec_scores().len() == n
        &&& forall|i: int, j: int|
            0 <= i < j < n ==> self.spec_players()[i] != self.spec_players()[j]
        &&& forall|i: int| 0 <= i < n ==> (#[trigger] self.spec_scores()[i]).wf()
    }

    /// The completed score of the given player.
    pub fn score_of(&self, player: Player) -> (r: Option<&Score27>)
        requires
            self.wf(),
        ensures
            self.spec_players().contains(player) ==> (r matches Some(c) && *c
                == self.spec_scores()[spec_seat_of(self.spec_players(), player)]),
            !self.spec_players().contains(player) ==> r is None,
    {
        proof {
            lemma_seat_of_correct(self.spec_players(), player);
        }
        let mut i: usize = 0;
        let n = self.players.len();
        while i < n
            invariant
                0 <= i <= n,
                self.wf(),
                n == self.spec_players().len(),
                forall|j: int| 0 <= j < i as int ==> self.spec_players()[j] != player,
            decreases n - i,
        {
            if self.players[i] == player {
                proof {
                    assert(self.spec_players().contains(player));
                    lemma_seat_of_correct(self.spec_players(), player);
                    assert(i as int == spec_seat_of(self.spec_players(), player));
                }
                return Some(&self.scores[i]);
            }
            i = i + 1;
        }
        proof {
            if self.spec_players().contains(player) {
                let k = choose|k: int|
                    0 <= k < self.spec_players().len() && self.spec_players()[k] == player;
                assert(false);
            }
        }
        None
    }
}

/// A game, either still in play or already finished.
pub enum Game {
    Active(ActiveGame),
    Completed(CompletedGame),
}

impl Game {
    /// A new game dated now: it starts in play.
    pub fn new(players: Vec<Player>) -> (r: Game)
        requires
            players@.len() >= 1,
        ensures
            r matches Game::Active(g) && g.wf() && g.spec_players() == spec_dedup(players@)
                && g.spec_state() == GameEnd::Continue && g.spec_round_num() == 0,
    {
        Game::Active(ActiveGame::new_now(players))
    }

    /// A new game, dated explicitly.
    pub fn new_dated(date: i64, players: Vec<Player>) -> (r: Game)
        requires
            players@.len() >= 1,
        ensures
            r matches Game::Active(g) && g.wf() && g.spec_players() == spec_dedup(players@)
                && g.spec_state() == GameEnd::Continue && g.spec_round_num() == 0
                && g.spec_date() == date as int,
    {
        Game::Active(ActiveGame::new(date, players))
    }
}

/// The read surface every stage of a game offers its collaborators.
pub trait GameT {
    /// The well-formedness the readers rely on.
    spec fn inv(&self) -> bool;

    /// When the game was played, as seconds since the Unix epoch.
    spec fn spec_date_played(&self) -> int;

    /// Whether the game is over.
    spec fn spec_is_complete(&self) -> bool;

    /// The players, in seating order.
    spec fn spec_player_list(&self) -> Seq<Player>;

    fn date_played(&self) -> (r: i64)
        requires
            self.inv(),
        ensures
            r as int == self.spec_date_played(),
    ;

    fn is_complete(&self) -> (r: bool)
        requires
            self.inv(),
        ensures
            r == self.spec_is_complete(),
    ;

    fn players(&self) -> (r: Vec<Player>)
        requires
            self.inv(),
        ensures
            r@ == self.spec_player_list(),
    ;
}

impl GameT for ActiveGame {
    open spec fn inv(&self) -> bool {
        self.wf()
    }

    open spec fn spec_date_played(&self) -> int {
        self.spec_date()
    }

    /// In play, the game counts as complete once it ended, or when the
    /// final round has been granted and nobody is left to play it.
    open spec fn spec_is_complete(&self) -> bool {
        match self.spec_state() {
            GameEnd::EndGame => true,
            GameEnd::FinishRound => self.spec_queue().len() == 0,
            GameEnd::Continue => false,
        }
    }

    open spec fn spec_player_list(&self) -> Seq<Player> {
        self.spec_players()
    }

    fn date_played(&self) -> (r: i64) {
        self.date
    }

    fn is_complete(&self) -> (r: bool) {
        match self.state {
            GameEnd::EndGame => true,
            GameEnd::FinishRound => self.round_players.len() == 0,
            GameEnd::Continue => false,
        }
    }

    fn players(&self) -> (r: Vec<Player>) {
        copy_players(&self.players)
    }
}

impl GameT for CompletedGame {
    open spec fn inv(&self) -> bool {
        self.wf()
    }

    open spec fn spec_date_played(&self) -> int {
        self.spec_date()
    }

    open spec fn spec_is_complete(&self) -> bool {
        true
    }

    open spec fn spec_player_list(&self) -> Seq<Player> {
        self.spec_players()
    }

    fn date_played(&self) -> (r: i64) {
        self.date
    }

    fn is_complete(&self) -> (r: bool) {
        true
    }

    fn players(&self) -> (r: Vec<Player>) {
        copy_players(&self.players)
    }
}

impl GameT for Game {
    open spec fn inv(&self) -> bool {
        match self {
            Game::Active(g) => g.wf(),
            Game::Completed(g) => g.wf(),
        }
    }

    open spec fn spec_date_played(&self) -> int {
        match self {
            Game::Active(g) => g.spec_date(),
            Game::Completed(g) => g.spec_date(),
        }
    }

    open spec fn spec_is_complete(&self) -> bool {
        match self {
            Game::Active(g) => g.spec_is_complete(),
            Game::Completed(g) => true,
        }
    }

    open spec fn spec_player_list(&self) -> Seq<Player> {
        match self {
            Game::Active(g) => g.spec_players(),
            Game::Completed(g) => g.spec_players(),
        }
    }

    fn date_played(&self) -> (r: i64) {
        match self {
            Game::Active(g) => g.date_played(),
            Game::Completed(g) => g.date_played(),
        }
    }

    fn is_complete(&self) -> (r: bool) {
        match self {
            Game::Active(g) => g.is_complete(),
            Game::Completed(g) => g.is_complete(),
        }
    }

    fn players(&self) -> (r: Vec<Player>) {
        match self {
            Game::Active(g) => g.players(),
            Game::Completed(g) => g.players(),
        }
    }
}

/// Copy a seating list.
fn copy_players(players: &Vec<Player>) -> (r: Vec<Player>)
    ensures
        r@ == players@,
{
    let mut r: Vec<Player> = Vec::new();
    let mut i: usize = 0;
    while i < players.len()
        invariant
            0 <= i <= players@.len(),
            r@ == players@.subrange(0, i as int),
        decreases players@.len() - i,
    {
        r.push(players[i]);
        proof {
            assert(r@ =~= players@.subrange(0, i as int + 1));
        }
        i = i + 1;
    }
    proof {
        assert(players@.subrange(0, players@.len() as int) =~= players@);
    }
    r
}

} // verus!
