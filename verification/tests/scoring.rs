//! Tests of the per-player accumulator, the completed snapshot and the
//! turn machinery.

use twentyseven::ActiveScore27;
use twentyseven::BoardSection;
use twentyseven::DartResult;
use twentyseven::GameError;
use twentyseven::NumDarts;
use twentyseven::NumHits;
use twentyseven::Player;
use twentyseven::PlayerScore;
use twentyseven::Ring;
use twentyseven::Score27;
use twentyseven::ScoreDirection;
use twentyseven::SingleTarget;
use twentyseven::TryFromError;
use twentyseven::TurnDelta;
use twentyseven::TurnResult;

fn delta(round: i32, hits: i32) -> i32 {
    if hits == 0 {
        -2 * round
    } else {
        2 * round * hits
    }
}

#[test]
fn scenario_three_rounds() {
    // Start at 27. Round 1 hits=1 -> +2 -> 29. Round 2 hits=0 -> -4 -> 25.
    // Round 3 hits=3 -> +18 -> 43.
    let mut a = ActiveScore27::new();
    assert_eq!(a.score(), 27);
    a.record_turn(1, 1).unwrap();
    assert_eq!(a.score(), 29);
    a.record_turn(2, 0).unwrap();
    assert_eq!(a.score(), 25);
    a.record_turn(3, 3).unwrap();
    assert_eq!(a.score(), 43);
    // The second round boundary still reads 25 after round 3 is recorded.
    assert_eq!(a.cumulative_score(2).unwrap(), 25);
    assert_eq!(a.cumulative_score(1).unwrap(), 29);
    assert_eq!(a.hits(3).unwrap(), Some(3));
    assert_eq!(a.hits(4).unwrap(), None);
    assert_eq!(a.current_round(), 4);
    assert!(!a.is_finished());
    // Play out the rest with single hits: round 3 stays the only cliff.
    for r in 4..=20u8 {
        a.record_turn(r, 1).unwrap();
    }
    let c = Score27::finalize(&mut a).unwrap();
    assert_eq!(c.cliffs(), 1);
    assert_eq!(c.score(), 43 + 2 * (4 + 20) * 17 / 2);
}

#[test]
fn recompute_matches_from_scratch_replay() {
    let hit_pattern: [u8; 20] = [1, 0, 3, 2, 0, 1, 1, 3, 0, 2, 1, 0, 0, 3, 2, 1, 0, 1, 2, 3];
    let mut a = ActiveScore27::new();
    for (i, h) in hit_pattern.iter().enumerate() {
        a.record_turn((i + 1) as u8, *h).unwrap();
    }
    // Correct an earlier round, then recompute: the cached score must equal
    // a from-scratch replay.
    a.record_turn(4, 0).unwrap();
    a.recompute();
    let mut expected: i32 = 27;
    for (i, h) in hit_pattern.iter().enumerate() {
        let h = if i == 3 { 0 } else { *h as i32 };
        expected += delta((i + 1) as i32, h);
    }
    assert_eq!(a.score() as i32, expected);
}

#[test]
fn recording_twice_is_recording_once() {
    let mut once = ActiveScore27::new();
    once.record_turn(5, 2).unwrap();
    let mut twice = ActiveScore27::new();
    twice.record_turn(5, 2).unwrap();
    twice.record_turn(5, 2).unwrap();
    assert_eq!(once.current_round(), twice.current_round());
    assert_eq!(once.score(), twice.score());
    for r in 1..=20u8 {
        assert_eq!(once.hits(r).unwrap(), twice.hits(r).unwrap());
        assert_eq!(
            once.cumulative_score(r).unwrap(),
            twice.cumulative_score(r).unwrap()
        );
    }
}

#[test]
fn cumulative_at_twenty_is_live_total_when_finished() {
    let mut a = ActiveScore27::new();
    for r in 1..=20u8 {
        a.record_turn(r, (r % 4) as u8).unwrap();
    }
    assert_eq!(a.current_round(), 21);
    assert!(a.is_finished());
    let total = a.score();
    assert_eq!(a.cumulative_score(20).unwrap(), total);
}

#[test]
fn all_positive_is_recomputed_fresh() {
    let mut a = ActiveScore27::new();
    // Five missed rounds: 27 - (2+4+6+8+10) = -3, a dip below zero.
    for r in 1..=5u8 {
        a.record_turn(r, 0).unwrap();
    }
    assert!(!a.all_positive());
    // Correcting round 5 to one hit removes the dip: 27-2-4-6-8+10 = 17.
    a.record_turn(5, 1).unwrap();
    assert!(a.all_positive());
    assert_eq!(a.score(), 17);
}

#[test]
fn finalize_matches_closed_form() {
    let hit_pattern: [u8; 20] = [0, 1, 3, 3, 2, 0, 1, 0, 3, 1, 2, 2, 0, 1, 3, 0, 1, 2, 3, 1];
    let mut a = ActiveScore27::new();
    for (i, h) in hit_pattern.iter().enumerate() {
        a.record_turn((i + 1) as u8, *h).unwrap();
    }
    let c: Score27 = Score27::finalize(&mut a).unwrap();
    let mut expected: i32 = 27;
    let mut cliffs = 0u8;
    for (i, h) in hit_pattern.iter().enumerate() {
        expected += delta((i + 1) as i32, *h as i32);
        if *h == 3 {
            cliffs += 1;
        }
    }
    assert_eq!(c.score() as i32, expected);
    assert_eq!(c.cliffs(), cliffs);
    assert!(c.is_finished());
    assert_eq!(c.hits(3).unwrap(), 3);
    assert_eq!(c.hits(1).unwrap(), 0);
    // The snapshot replays its own history.
    assert_eq!(c.cumulative_score(1).unwrap(), 25);
    assert_eq!(c.cumulative_score(2).unwrap(), 29);
    assert_eq!(c.cumulative_score(20).unwrap() as i32, expected);
}

#[test]
fn cliff_count_counts_rounds_with_three_hits() {
    let mut a = ActiveScore27::new();
    for r in 1..=20u8 {
        a.record_turn(r, if r % 5 == 0 { 3 } else { 1 }).unwrap();
    }
    let c = Score27::finalize(&mut a).unwrap();
    assert_eq!(c.cliffs(), 4);
    assert!(c.all_positive());
}

#[test]
fn premature_finalize_is_refused() {
    let mut a = ActiveScore27::new();
    a.record_turn(1, 2).unwrap();
    assert_eq!(
        Score27::finalize(&mut a).unwrap_err(),
        GameError::PrematureFinalize
    );
    // The accumulator is untouched and can play on.
    assert_eq!(a.current_round(), 2);
}

#[test]
fn round_out_of_range_is_refused() {
    let mut a = ActiveScore27::new();
    assert_eq!(a.record_turn(0, 1).unwrap_err(), GameError::RoundOutOfRange);
    assert_eq!(
        a.record_turn(21, 1).unwrap_err(),
        GameError::RoundOutOfRange
    );
    assert_eq!(
        a.cumulative_score(0).unwrap_err(),
        GameError::RoundOutOfRange
    );
    assert_eq!(
        a.cumulative_score(21).unwrap_err(),
        GameError::RoundOutOfRange
    );
    assert_eq!(a.hits(0).unwrap_err(), GameError::RoundOutOfRange);
    assert_eq!(a.record_turn(1, 4).unwrap_err(), GameError::TooManyDarts);
    assert_eq!(a.score(), 27);
}

#[test]
fn throw_darts_one_by_one() {
    let target = BoardSection::Number(5, Ring::Double);
    let mut t = SingleTarget::new(3, target);
    assert_eq!(t.target(), target);
    assert_eq!(t.darts_thrown(), 0);
    let r1 = t.throw_dart(BoardSection::Number(5, Ring::Double)).unwrap();
    assert_eq!(r1, DartResult::Continue(NumDarts::Exactly(2)));
    let r2 = t.throw_dart(BoardSection::Number(5, Ring::Treble)).unwrap();
    assert_eq!(r2, DartResult::Continue(NumDarts::Exactly(1)));
    let r3 = t.throw_dart(BoardSection::Bull(true)).unwrap();
    assert_eq!(r3, DartResult::EndTurn(TurnResult::Score(1, 3)));
    assert_eq!(t.hits(), 1);
    assert!(t.is_sealed());
    // A fourth throw is refused and changes nothing.
    assert_eq!(
        t.throw_dart(target).unwrap_err(),
        GameError::TooManyDarts
    );
    assert_eq!(t.hits(), 1);
    assert_eq!(t.darts_thrown(), 3);
}

#[test]
fn declared_hits_match_thrown_hits() {
    let target = BoardSection::Number(7, Ring::Double);
    let mut thrown = SingleTarget::new(3, target);
    thrown.throw_dart(target).unwrap();
    thrown.throw_dart(target).unwrap();
    thrown.throw_dart(BoardSection::Bull(false)).unwrap();
    let mut declared = SingleTarget::new(3, target);
    let res = declared.declare_hits(2).unwrap();
    assert_eq!(thrown.hits(), declared.hits());
    assert_eq!(thrown.darts_thrown(), declared.darts_thrown());
    assert_eq!(thrown.result(), declared.result());
    assert_eq!(res, TurnResult::Score(2, 3));
    // Declaring more hits than darts is refused.
    let mut over = SingleTarget::new(3, target);
    assert_eq!(over.declare_hits(4).unwrap_err(), GameError::TooManyDarts);
    assert_eq!(over.darts_thrown(), 0);
}

#[test]
fn score_darts_in_series() {
    let target = BoardSection::Number(9, Ring::Double);
    let mut t = SingleTarget::new(3, target);
    let darts = vec![target, BoardSection::Bull(true), target];
    let res = t.score_darts(&darts);
    assert_eq!(res, TurnResult::Score(2, 3));
    assert_eq!(t.hits(), 2);
    // Darts offered beyond the allowance are dropped unthrown.
    let mut u = SingleTarget::new(2, target);
    let many = vec![target, target, target, target];
    let res = u.score_darts(&many);
    assert_eq!(res, TurnResult::Score(2, 2));
    assert_eq!(u.darts_thrown(), 2);
}

#[test]
fn turns_come_from_the_score() {
    let mut a = ActiveScore27::new();
    let t = a.next_turn().unwrap();
    assert_eq!(t.target(), BoardSection::Number(1, Ring::Double));
    assert_eq!(t.num_darts(), NumDarts::Exactly(3));
    assert_eq!(t.darts_thrown(), 0);
    assert_eq!(t.hits(), 0);
    a.record_turn(1, 2).unwrap();
    let t = a.next_turn().unwrap();
    assert_eq!(t.target(), BoardSection::Number(2, Ring::Double));
    assert_eq!(a.make_turn(0).unwrap_err(), GameError::RoundOutOfRange);
    assert_eq!(a.make_turn(21).unwrap_err(), GameError::RoundOutOfRange);
    assert_eq!(
        a.make_turn(7).unwrap().target(),
        BoardSection::Number(7, Ring::Double)
    );
    // A fully played score hands out no further turn.
    let mut b = ActiveScore27::new();
    for r in 1..=20u8 {
        b.record_turn(r, 1).unwrap();
    }
    assert!(b.next_turn().is_none());
}

#[test]
fn cliff_is_three_hits() {
    let target = BoardSection::Number(4, Ring::Double);
    let mut t = SingleTarget::new(3, target);
    t.declare_hits(3).unwrap();
    assert!(t.is_cliff());
    let mut u = SingleTarget::new(3, target);
    u.declare_hits(2).unwrap();
    assert!(!u.is_cliff());
}

#[test]
fn round_twenty_signals_game_end() {
    let target = BoardSection::Number(20, Ring::Double);
    let mut t = SingleTarget::new(3, target);
    let res = t.declare_hits(0).unwrap();
    assert_eq!(res, TurnResult::GameEnd(3));
}

#[test]
fn num_darts_equality_equates_empty_bounds() {
    // No darts left is no darts left, whichever way it was bounded.
    assert_eq!(NumDarts::UpTo(0), NumDarts::Exactly(0));
    assert_eq!(NumDarts::Exactly(0), NumDarts::UpTo(0));
    assert_eq!(NumDarts::UpTo(2), NumDarts::UpTo(2));
    assert_ne!(NumDarts::UpTo(2), NumDarts::UpTo(1));
    assert_ne!(NumDarts::UpTo(1), NumDarts::Exactly(1));
}

#[test]
fn num_darts_arithmetic() {
    assert_eq!(NumDarts::UpTo(3).value(), 3);
    assert_eq!(NumDarts::Exactly(2).value(), 2);
    assert_eq!(NumDarts::UpTo(3).sub(1), NumDarts::UpTo(2));
    assert_eq!(NumDarts::Exactly(1).sub(2), NumDarts::Exactly(0));
    let mut n = NumDarts::Exactly(2);
    let d = n.decrement(TurnResult::Bust(2));
    assert_eq!(d, DartResult::Continue(NumDarts::Exactly(1)));
    let d = n.decrement(TurnResult::Bust(2));
    assert_eq!(d, DartResult::EndTurn(TurnResult::Bust(2)));
}

#[test]
fn num_darts_from_ranges() {
    assert_eq!(
        twentyseven::num_darts_from_range(0, 4).unwrap(),
        NumDarts::UpTo(3)
    );
    assert_eq!(
        twentyseven::num_darts_from_range(1, 4).unwrap_err(),
        TryFromError::NonZeroStart
    );
    assert_eq!(
        twentyseven::num_darts_from_range(300, 4).unwrap_err(),
        TryFromError::CastStart
    );
    assert_eq!(
        twentyseven::num_darts_from_range(0, 300).unwrap_err(),
        TryFromError::CastEnd
    );
    // The range's end itself must fit in a byte: 256 is already too large.
    assert_eq!(
        twentyseven::num_darts_from_range(0, 256).unwrap_err(),
        TryFromError::CastEnd
    );
    assert_eq!(
        twentyseven::num_darts_from_range(0, 255).unwrap(),
        NumDarts::UpTo(254)
    );
    let t = SingleTarget::try_new(3, BoardSection::Bull(true)).unwrap();
    assert_eq!(t.num_darts(), NumDarts::Exactly(3));
    assert_eq!(
        SingleTarget::try_new(300, BoardSection::Bull(true)).unwrap_err(),
        TryFromError::CastEnd
    );
}

#[test]
fn num_hits_values() {
    assert_eq!(NumHits::Zero.value(9), -18);
    assert_eq!(NumHits::One.value(9), 18);
    assert_eq!(NumHits::Two.value(9), 36);
    assert_eq!(NumHits::Three.value(20), 120);
    assert_eq!(NumHits::Three.count(), 3);
    assert_eq!(NumHits::from_count(2), Some(NumHits::Two));
    assert_eq!(NumHits::from_count(4), None);
    assert_eq!(NumHits::default(), NumHits::Zero);
}

#[test]
fn board_sections() {
    assert_eq!(
        BoardSection::Number(2, Ring::SingleInner).colour(),
        twentyseven::Colour::Black
    );
    assert_eq!(
        BoardSection::Number(2, Ring::Double).colour(),
        twentyseven::Colour::Red
    );
    assert_eq!(
        BoardSection::Number(3, Ring::SingleOuter).colour(),
        twentyseven::Colour::White
    );
    assert_eq!(
        BoardSection::Number(3, Ring::Treble).colour(),
        twentyseven::Colour::Green
    );
    assert_eq!(BoardSection::Bull(true).colour(), twentyseven::Colour::Red);
    assert_eq!(
        BoardSection::Bull(false).colour(),
        twentyseven::Colour::Green
    );
    assert_eq!(BoardSection::Number(7, Ring::Double).number(), Some(7));
    assert_eq!(BoardSection::Bull(true).number(), None);
    assert_eq!(
        BoardSection::Number(7, Ring::Double).ring(),
        Some(Ring::Double)
    );
    assert_eq!(BoardSection::Bull(false).ring(), None);
}

#[test]
fn player_names() {
    assert_eq!(Player::Mikael.name(), "Mikael");
    assert_eq!(Player::Mikael.fun_name(), "Hans");
    assert_eq!(Player::Matt.fun_name(), "Cliff");
    assert_eq!(Player::Nick.fun_name(), "Fat Nick");
    assert_eq!(Player::Kasia.name(), Player::Kasia.fun_name());
}

#[test]
fn player_score_tally() {
    let mut p = PlayerScore::new(ScoreDirection::Ascending, 100);
    p.score_round(10);
    p.score_round(-3);
    assert_eq!(p.score(), 107);
    assert_eq!(p.num_rounds(), 2);
    let mut q = PlayerScore::new(ScoreDirection::Descending, 501);
    q.score_round(60);
    assert_eq!(q.score(), 441);
    assert_eq!(q.num_rounds(), 1);
}

#[test]
fn turn_delta_view() {
    let d = TurnDelta::new(25, -4);
    assert_eq!(d.start_score(), 25);
    assert_eq!(d.score_change(), -4);
    assert_eq!(d.final_score(), 21);
}

#[test]
fn error_messages() {
    assert!(!GameError::InvalidPlayer.message().is_empty());
    assert!(!GameError::TooManyDarts.message().is_empty());
    assert!(!GameError::RoundOutOfRange.message().is_empty());
    assert!(!GameError::PrematureFinalize.message().is_empty());
}
