//! Turns: a short-lived accumulator of up to three throws for one
//! player/round, sealed into a result once every dart is thrown.

use vstd::prelude::*;

use crate::target::{BoardSection, Ring};
use crate::GameError;

verus! {

/// How many darts a turn allows.
#[derive(Debug, Clone, Copy)]
pub enum NumDarts {
    /// Up to `n` darts; not all need be thrown.
    UpTo(u8),
    /// Exactly `n` darts must be thrown.
    Exactly(u8),
}

/// Two dart counts are equal when they are the same kind of bound on the
/// same count — or when both allow no dart at all, where the two kinds
/// coincide.
impl PartialEq for NumDarts {
    fn eq(&self, other: &NumDarts) -> (r: bool) {
        match (self, other) {
            (NumDarts::UpTo(a), NumDarts::UpTo(b)) => a == b,
            (NumDarts::Exactly(a), NumDarts::Exactly(b)) => a == b,
            (NumDarts::UpTo(a), NumDarts::Exactly(b)) => *a == 0 && *b == 0,
            (NumDarts::Exactly(a), NumDarts::UpTo(b)) => *a == 0 && *b == 0,
        }
    }
}

impl vstd::std_specs::cmp::PartialEqSpecImpl for NumDarts {
    open spec fn obeys_eq_spec() -> bool {
        true
    }

    open spec fn eq_spec(&self, other: &NumDarts) -> bool {
        match (*self, *other) {
            (NumDarts::UpTo(a), NumDarts::UpTo(b)) => a == b,
            (NumDarts::Exactly(a), NumDarts::Exactly(b)) => a == b,
            (NumDarts::UpTo(a), NumDarts::Exactly(b)) => a == 0 && b == 0,
            (NumDarts::Exactly(a), NumDarts::UpTo(b)) => a == 0 && b == 0,
        }
    }
}

impl NumDarts {
    /// The dart count, whichever way it is bounded.
    pub open spec fn spec_value(self) -> int {
        match self {
            NumDarts::UpTo(n) => n as int,
            NumDarts::Exactly(n) => n as int,
        }
    }

    /// `self` lowered by `rhs` darts, stopping at none left.
    pub open spec fn spec_sub(self, rhs: int) -> NumDarts {
        match self {
            NumDarts::UpTo(n) => if n > rhs {
                NumDarts::UpTo((n - rhs) as u8)
            } else {
                NumDarts::Exactly(0)
            },
            NumDarts::Exactly(n) => if n > rhs {
                NumDarts::Exactly((n - rhs) as u8)
            } else {
                NumDarts::Exactly(0)
            },
        }
    }

    pub fn value(&self) -> (r: u8)
        ensures
            r as int == self.spec_value(),
    {
        match self {
            NumDarts::UpTo(n) => *n,
            NumDarts::Exactly(n) => *n,
        }
    }

    /// Lower the count by `rhs`, saturating at zero darts left.
    pub fn sub(self, rhs: u8) -> (r: NumDarts)
        ensures
            r == self.spec_sub(rhs as int),
    {
        match self {
            NumDarts::UpTo(n) => if n > rhs {
                NumDarts::UpTo(n - rhs)
            } else {
                NumDarts::Exactly(0)
            },
            NumDarts::Exactly(n) => if n > rhs {
                NumDarts::Exactly(n - rhs)
            } else {
                NumDarts::Exactly(0)
            },
        }
    }

    /// Use up one dart: while darts remain the turn continues, otherwise it
    /// ends with the given result.
    pub fn decrement(&mut self, end_turn: TurnResult) -> (r: DartResult)
        ensures
            *final(self) == old(self).spec_sub(1),
            r == if old(self).spec_sub(1).spec_value() > 0 {
                DartResult::Continue(old(self).spec_sub(1))
            } else {
                DartResult::EndTurn(end_turn)
            },
    {
        *self = self.sub(1);
        if self.value() > 0 {
            DartResult::Continue(*self)
        } else {
            DartResult::EndTurn(end_turn)
        }
    }
}

/// Why a half-open range could not be turned into a dart count.
#[derive(Debug, Clone, Copy, PartialEq, Eq, Structural)]
pub enum TryFromError {
    /// The range must start at zero darts thrown.
    NonZeroStart,
    /// The start does not fit in a dart count.
    CastStart,
    /// The end does not fit in a dart count.
    CastEnd,
}

/// Read a half-open range `start..end` of darts-yet-to-throw as a dart
/// count: it must start at zero and its end itself must fit in a byte.
pub fn num_darts_from_range(start: usize, end: usize) -> (r: Result<NumDarts, TryFromError>)
    requires
        end >= 1,
    ensures
        r == if start > 255 {
            Err::<NumDarts, TryFromError>(TryFromError::CastStart)
        } else if start != 0 {
            Err::<NumDarts, TryFromError>(TryFromError::NonZeroStart)
        } else if end > 255 {
            Err::<NumDarts, TryFromError>(TryFromError::CastEnd)
        } else {
            Ok::<NumDarts, TryFromError>(NumDarts::UpTo((end - 1) as u8))
        },
{
    if start > 255 {
        Err(TryFromError::CastStart)
    } else if start != 0 {
        Err(TryFromError::NonZeroStart)
    } else if end > 255 {
        Err(TryFromError::CastEnd)
    } else {
        Ok(NumDarts::UpTo((end - 1) as u8))
    }
}

/// The outcome of a sealed turn.
#[derive(Debug, Clone, Copy, PartialEq, Eq, Structural)]
pub enum TurnResult {
    /// The player has scored enough to finish the game (darts used).
    GameEnd(u8),
    /// The turn ended; count the score (hits, darts used).
    Score(u8, u8),
    /// The turn ended, but the score is discarded (darts used).
    Bust(u8),
}

/// What a single throw led to.
#[derive(Debug, Clone, Copy)]
pub enum DartResult {
    /// The turn is over.
    EndTurn(TurnResult),
    /// The turn continues with this many darts left.
    Continue(NumDarts),
}

/// Outcomes are equal when they are the same kind and their payloads
/// agree; dart counts agree as their own equality says.
impl PartialEq for DartResult {
    fn eq(&self, other: &DartResult) -> (r: bool) {
        match (self, other) {
            (DartResult::EndTurn(a), DartResult::EndTurn(b)) => a == b,
            (DartResult::Continue(a), DartResult::Continue(b)) => a == b,
            _ => false,
        }
    }
}

impl vstd::std_specs::cmp::PartialEqSpecImpl for DartResult {
    open spec fn obeys_eq_spec() -> bool {
        true
    }

    open spec fn eq_spec(&self, other: &DartResult) -> bool {
        match (*self, *other) {
            (DartResult::EndTurn(a), DartResult::EndTurn(b)) => a == b,
            (DartResult::Continue(a), DartResult::Continue(b)) => vstd::std_specs::cmp::PartialEqSpec::eq_spec(&a, &b),
            _ => false,
        }
    }
}

/// One throw's outcome against the turn's target.
#[derive(Debug, Clone, Copy, PartialEq, Eq, Structural)]
enum TargetHit {
    Miss,
    Hit,
}

/// A turn whose every throw aims at one designated section. Throws
/// accumulate until all darts are used, at which point the turn is sealed
/// and yields exactly one result.
#[derive(Debug)]
pub struct SingleTarget {
    target: BoardSection,
    num_darts: NumDarts,
    darts: Vec<TargetHit>,
}

/// The smaller of two numbers.
pub open spec fn spec_min(a: int, b: int) -> int {
    if a < b {
        a
    } else {
        b
    }
}

/// How many of the first `n` offered sections equal the target.
pub open spec fn count_target_hits(target: BoardSection, s: Seq<BoardSection>, n: int) -> int
    decreases n,
{
    if n <= 0 {
        0
    } else {
        count_target_hits(target, s, n - 1) + if s[n - 1] == target {
            1int
        } else {
            0int
        }
    }
}

/// How many of the recorded throws were hits.
spec fn count_hits(s: Seq<TargetHit>) -> int
    decreases s.len(),
{
    if s.len() == 0 {
        0
    } else {
        count_hits(s.drop_last()) + if s.last() is Hit {
            1int
        } else {
            0int
        }
    }
}

proof fn lemma_count_hits_bound(s: Seq<TargetHit>)
    ensures
        0 <= count_hits(s) <= s.len(),
    decreases s.len(),
{
    if s.len() > 0 {
        lemma_count_hits_bound(s.drop_last());
    }
}

impl SingleTarget {
    /// The section every throw of this turn aims at.
    pub closed spec fn spec_target(self) -> BoardSection {
        self.target
    }

    /// The number of darts the turn allows.
    pub closed spec fn spec_num_darts(self) -> NumDarts {
        self.num_darts
    }

    /// How many darts have been thrown so far.
    pub closed spec fn spec_darts_thrown(self) -> int {
        self.darts@.len() as int
    }

    /// How many throws hit the target so far.
    pub closed spec fn spec_hits(self) -> int {
        count_hits(self.darts@)
    }

    /// No more throws than the turn allows.
    pub open spec fn wf(self) -> bool {
        self.spec_darts_thrown() <= self.spec_num_darts().spec_value()
    }

    /// The turn is sealed once every allowed dart is thrown.
    pub open spec fn spec_sealed(self) -> bool {
        self.spec_darts_thrown() == self.spec_num_darts().spec_value()
    }

    /// The result a sealed turn yields: reaching round 20 finishes the
    /// game for the player, any other round simply scores.
    pub open spec fn spec_result(self) -> TurnResult {
        if self.spec_target() == BoardSection::Number(20u8, Ring::Double) {
            TurnResult::GameEnd(self.spec_num_darts().spec_value() as u8)
        } else {
            TurnResult::Score(self.spec_hits() as u8, self.spec_num_darts().spec_value() as u8)
        }
    }

    /// A fresh turn of `num_darts` darts at `target`.
    pub fn new(num_darts: u8, target: BoardSection) -> (r: SingleTarget)
        ensures
            r.spec_target() == target,
            r.spec_num_darts() == NumDarts::Exactly(num_darts),
            r.spec_darts_thrown() == 0,
            r.spec_hits() == 0,
            r.wf(),
    {
        SingleTarget { target, num_darts: NumDarts::Exactly(num_darts), darts: Vec::new() }
    }

    /// A fresh turn whose dart count is given as a machine-sized number,
    /// rejected when it does not fit.
    pub fn try_new(num_darts: usize, target: BoardSection) -> (r: Result<SingleTarget, TryFromError>)
        ensures
            num_darts <= 255 ==> (r matches Ok(t) && t.spec_target() == target
                && t.spec_num_darts() == NumDarts::Exactly(num_darts as u8)
                && t.spec_darts_thrown() == 0 && t.wf()),
            num_darts > 255 ==> r == Err::<SingleTarget, TryFromError>(TryFromError::CastEnd),
    {
        if num_darts <= 255 {
            Ok(SingleTarget {
                target,
                num_darts: NumDarts::Exactly(num_darts as u8),
                darts: Vec::new(),
            })
        } else {
            Err(TryFromError::CastEnd)
        }
    }

    pub fn target(&self) -> (r: BoardSection)
        ensures
            r == self.spec_target(),
    {
        self.target
    }

    pub fn num_darts(&self) -> (r: NumDarts)
        ensures
            r == self.spec_num_darts(),
    {
        self.num_darts
    }

    pub fn darts_thrown(&self) -> (r: u8)
        requires
            self.wf(),
        ensures
            r as int == self.spec_darts_thrown(),
    {
        self.darts.len() as u8
    }

    /// Darts left to throw.
    pub fn remaining_darts(&self) -> (r: NumDarts)
        requires
            self.wf(),
        ensures
            r == self.spec_num_darts().spec_sub(self.spec_darts_thrown()),
    {
        self.num_darts.sub(self.darts.len() as u8)
    }

    /// Count the throws that hit the target; never more than were thrown.
    pub fn hits(&self) -> (r: u8)
        requires
            self.wf(),
        ensures
            r as int == self.spec_hits(),
            r as int <= self.spec_darts_thrown(),
    {
        let mut total: u8 = 0;
        let mut i: usize = 0;
        proof {
            lemma_count_hits_bound(self.darts@);
        }
        while i < self.darts.len()
            invariant
                0 <= i <= self.darts@.len(),
                self.darts@.len() <= 255,
                total as int == count_hits(self.darts@.subrange(0, i as int)),
                0 <= count_hits(self.darts@.subrange(0, i as int)) <= i,
            decreases self.darts@.len() - i,
        {
            proof {
                assert(self.darts@.subrange(0, i + 1).drop_last() =~= self.darts@.subrange(
                    0,
                    i as int,
                ));
                lemma_count_hits_bound(self.darts@.subrange(0, i + 1));
            }
            if let TargetHit::Hit = self.darts[i] {
                total = total + 1;
            }
            i = i + 1;
        }
        proof {
            assert(self.darts@.subrange(0, self.darts@.len() as int) =~= self.darts@);
        }
        total
    }

    /// Whether the turn has used every dart and yields its result.
    pub fn is_sealed(&self) -> (r: bool)
        requires
            self.wf(),
        ensures
            r == self.spec_sealed(),
    {
        self.darts.len() == self.num_darts.value() as usize
    }

    /// Record one throw. A hit is a throw equal to the target; anything
    /// else is a miss. The throw that uses the last dart seals the turn and
    /// hands back its result; a throw at a sealed turn is refused.
    pub fn throw_dart(&mut self, hit: BoardSection) -> (r: Result<DartResult, GameError>)
        requires
            old(self).wf(),
        ensures
            old(self).spec_sealed() ==> r == Err::<DartResult, GameError>(GameError::TooManyDarts)
                && *final(self) == *old(self),
            !old(self).spec_sealed() ==> {
                &&& final(self).spec_target() == old(self).spec_target()
                &&& final(self).spec_num_darts() == old(self).spec_num_darts()
                &&& final(self).spec_darts_thrown() == old(self).spec_darts_thrown() + 1
                &&& final(self).spec_hits() == old(self).spec_hits() + if crate::target::spec_is_hit(
                    old(self).spec_target(),
                    hit,
                ) {
                    1int
                } else {
                    0int
                }
                &&& final(self).wf()
                &&& r == Ok::<DartResult, GameError>(
                    if final(self).spec_sealed() {
                        DartResult::EndTurn(final(self).spec_result())
                    } else {
                        DartResult::Continue(
                            final(self).spec_num_darts().spec_sub(final(self).spec_darts_thrown()),
                        )
                    },
                )
            },
    {
        if self.darts.len() == self.num_darts.value() as usize {
            return Err(GameError::TooManyDarts);
        }
        let thrown = if self.target == hit {
            TargetHit::Hit
        } else {
            TargetHit::Miss
        };
        self.darts.push(thrown);
        proof {
            assert(self.darts@.drop_last() =~= old(self).darts@);
        }
        if self.darts.len() == self.num_darts.value() as usize {
            Ok(DartResult::EndTurn(self.result()))
        } else {
            Ok(DartResult::Continue(self.remaining_darts()))
        }
    }

    /// Declare the whole turn's hits at once: the turn is force-sealed with
    /// `hits` hits, exactly as if that many throws had hit dart by dart. A
    /// count above the darts allowed is refused.
    pub fn declare_hits(&mut self, hits: u8) -> (r: Result<TurnResult, GameError>)
        requires
            old(self).wf(),
        ensures
            hits as int > old(self).spec_num_darts().spec_value() ==> r == Err::<
                TurnResult,
                GameError,
            >(GameError::TooManyDarts) && *final(self) == *old(self),
            hits as int <= old(self).spec_num_darts().spec_value() ==> {
                &&& final(self).spec_target() == old(self).spec_target()
                &&& final(self).spec_num_darts() == old(self).spec_num_darts()
                &&& final(self).spec_sealed()
                &&& final(self).spec_hits() == hits as int
                &&& final(self).wf()
                &&& r == Ok::<TurnResult, GameError>(final(self).spec_result())
            },
    {
        let allowed = self.num_darts.value();
        if hits > allowed {
            return Err(GameError::TooManyDarts);
        }
        let mut darts: Vec<TargetHit> = Vec::new();
        let mut i: u8 = 0;
        while i < hits
            invariant
                i <= hits,
                darts@.len() == i as int,
                count_hits(darts@) == i as int,
                forall|j: int| 0 <= j < darts@.len() ==> darts@[j] is Hit,
            decreases hits - i,
        {
            let ghost pre = darts@;
            darts.push(TargetHit::Hit);
            proof {
                assert(darts@.drop_last() =~= pre);
            }
            i = i + 1;
        }
        while i < allowed
            invariant
                hits <= i <= allowed,
                darts@.len() == i as int,
                count_hits(darts@) == hits as int,
            decreases allowed - i,
        {
            let ghost pre = darts@;
            darts.push(TargetHit::Miss);
            proof {
                assert(darts@.drop_last() =~= pre);
            }
            i = i + 1;
        }
        self.darts = darts;
        Ok(self.result())
    }

    /// Throw a series of darts in order. The turn seals the moment its
    /// last dart is used; darts offered beyond that point are dropped
    /// unthrown. The sealed result is returned once the series ends,
    /// sealed or not.
    pub fn score_darts(&mut self, darts: &Vec<BoardSection>) -> (r: TurnResult)
        requires
            old(self).wf(),
        ensures
            final(self).wf(),
            final(self).spec_target() == old(self).spec_target(),
            final(self).spec_num_darts() == old(self).spec_num_darts(),
            final(self).spec_darts_thrown() == spec_min(
                old(self).spec_darts_thrown() + darts@.len(),
                old(self).spec_num_darts().spec_value(),
            ),
            final(self).spec_hits() == old(self).spec_hits() + count_target_hits(
                old(self).spec_target(),
                darts@,
                final(self).spec_darts_thrown() - old(self).spec_darts_thrown(),
            ),
            r == final(self).spec_result(),
    {
        let mut i: usize = 0;
        while i < darts.len()
            invariant
                0 <= i <= darts@.len(),
                self.wf(),
                self.spec_target() == old(self).spec_target(),
                self.spec_num_darts() == old(self).spec_num_darts(),
                self.spec_darts_thrown() == old(self).spec_darts_thrown() + i as int,
                i as int > 0 ==> self.spec_darts_thrown()
                    < self.spec_num_darts().spec_value(),
                self.spec_hits() == old(self).spec_hits() + count_target_hits(
                    old(self).spec_target(),
                    darts@,
                    i as int,
                ),
            decreases darts@.len() - i,
        {
            proof {
                assert(count_target_hits(old(self).spec_target(), darts@, i as int + 1)
                    == count_target_hits(old(self).spec_target(), darts@, i as int) + if darts@[i as int]
                    == old(self).spec_target() {
                    1int
                } else {
                    0int
                });
            }
            match self.throw_dart(darts[i]) {
                Ok(DartResult::EndTurn(res)) => {
                    return res;
                },
                Ok(DartResult::Continue(_)) => {},
                Err(_) => {
                    proof {
                        if i > 0 {
                            assert(false);
                        }
                    }
                    return self.result();
                },
            }
            i = i + 1;
        }
        self.result()
    }

    /// Whether the turn is a cliff: all three darts on target.
    pub fn is_cliff(&self) -> (r: bool)
        requires
            self.wf(),
        ensures
            r == (self.spec_hits() == 3),
    {
        self.hits() == 3
    }

    /// The sealed turn's result; on round 20 it also signals that the
    /// player has completed the game.
    pub fn result(&self) -> (r: TurnResult)
        requires
            self.wf(),
        ensures
            r == self.spec_result(),
    {
        proof {
            lemma_count_hits_bound(self.darts@);
        }
        if self.target == BoardSection::Number(20, Ring::Double) {
            TurnResult::GameEnd(self.num_darts.value())
        } else {
            TurnResult::Score(self.hits(), self.num_darts.value())
        }
    }
}

/// Declaring a hit count and throwing dart by dart agree: a sealed turn's
/// result depends only on its target, its dart allowance and how many
/// throws hit, never on the order the hits came in.
pub proof fn lemma_declared_and_thrown_agree(a: SingleTarget, b: SingleTarget)
    requires
        a.spec_target() == b.spec_target(),
        a.spec_num_darts() == b.spec_num_darts(),
        a.spec_hits() == b.spec_hits(),
        a.spec_sealed(),
        b.spec_sealed(),
    ensures
        a.spec_result() == b.spec_result(),
{
}

} // verus!
