//! Tests of the game engine: seating, the round-robin scheduler, the
//! end-of-game protocol and the completed record.

use twentyseven::ActiveGame;
use twentyseven::Game;
use twentyseven::GameEnd;
use twentyseven::GameError;
use twentyseven::GameT;
use twentyseven::GameType;
use twentyseven::GameType27;
use twentyseven::Player;
use twentyseven::SingleTarget;

#[test]
fn should_end_game_decision_table() {
    let rules = GameType27;
    let nobody: Vec<Player> = Vec::new();
    let somebody = vec![Player::Matt];
    // Zero unfinished players, final round not yet granted: the round is
    // played out first, the game does not end yet.
    assert_eq!(
        rules.should_end_game(&nobody, &nobody, false),
        GameEnd::FinishRound
    );
    // The second ask, with the mode now set, ends the game.
    assert_eq!(
        rules.should_end_game(&nobody, &nobody, true),
        GameEnd::EndGame
    );
    // With unfinished players the game continues either way.
    assert_eq!(
        rules.should_end_game(&nobody, &somebody, false),
        GameEnd::Continue
    );
    assert_eq!(
        rules.should_end_game(&nobody, &somebody, true),
        GameEnd::Continue
    );
}

#[test]
fn new_game_seats_players_in_order() {
    let g = ActiveGame::new(1700000000, vec![Player::Matt, Player::Nick, Player::Darren]);
    assert_eq!(g.players(), vec![Player::Matt, Player::Nick, Player::Darren]);
    assert_eq!(g.date_played(), 1700000000);
    assert_eq!(g.round_number(), 0);
    assert_eq!(g.state(), GameEnd::Continue);
    assert!(!g.is_complete());
    assert_eq!(g.current_round_of(Player::Matt).unwrap(), 1);
    assert_eq!(g.is_player_finished(Player::Nick).unwrap(), false);
    assert_eq!(g.hits_of(Player::Darren, 1).unwrap(), None);
}

#[test]
fn duplicate_players_keep_their_first_seat() {
    let g = ActiveGame::new(0, vec![Player::Matt, Player::Nick, Player::Matt]);
    assert_eq!(g.players(), vec![Player::Matt, Player::Nick]);
}

#[test]
fn unknown_player_is_refused() {
    let mut g = ActiveGame::new(0, vec![Player::Matt]);
    assert_eq!(
        g.current_round_of(Player::Cathy).unwrap_err(),
        GameError::InvalidPlayer
    );
    assert_eq!(
        g.hits_of(Player::Cathy, 1).unwrap_err(),
        GameError::InvalidPlayer
    );
    assert_eq!(
        g.cumulative_score_of(Player::Cathy, 1).unwrap_err(),
        GameError::InvalidPlayer
    );
    let mut turn = SingleTarget::new(3, twentyseven::BoardSection::Number(1, twentyseven::Ring::Double));
    turn.declare_hits(1).unwrap();
    assert_eq!(
        g.apply_turn_result(Player::Cathy, &turn).unwrap_err(),
        GameError::InvalidPlayer
    );
}

#[test]
fn next_turn_goes_round_robin() {
    let mut g = ActiveGame::new(0, vec![Player::Matt, Player::Nick]);
    let (first, first_turn) = g.next_turn().unwrap();
    assert_eq!(first, Player::Matt);
    assert_eq!(
        first_turn.target(),
        twentyseven::BoardSection::Number(1, twentyseven::Ring::Double)
    );
    let (second, _) = g.next_turn().unwrap();
    assert_eq!(second, Player::Nick);
    // The queue refills: Matt again, now for his current round.
    let (third, _) = g.next_turn().unwrap();
    assert_eq!(third, Player::Matt);
}

#[test]
fn full_game_ends_and_snapshots() {
    let mut g = ActiveGame::new(42, vec![Player::Matt, Player::Nick]);
    // Matt doubles every round, Nick misses every round.
    for round in 1..=20u8 {
        for _seat in 0..2 {
            let (p, mut turn) = g.next_turn().unwrap();
            let hits = if p == Player::Matt { 2 } else { 0 };
            turn.declare_hits(hits).unwrap();
            let decision = g.apply_turn_result(p, &turn).unwrap();
            if round < 20 {
                assert_eq!(decision, GameEnd::Continue);
            }
        }
        // The round number tracks the mover's current round, which is one
        // past the round just completed.
        assert_eq!(g.round_number(), round + 1);
    }
    // The last applied turn of round 20 ends the game.
    assert_eq!(g.state(), GameEnd::EndGame);
    assert!(g.is_complete());
    assert!(g.next_turn().is_none());
    let done = g.into_completed().unwrap();
    assert_eq!(done.date_played(), 42);
    assert_eq!(done.players(), vec![Player::Matt, Player::Nick]);
    // Matt: 27 + sum of 4*r = 27 + 4*210 = 867. Nick: 27 - 2*210 = -393.
    let matt = done.score_of(Player::Matt).unwrap();
    assert_eq!(matt.score(), 867);
    assert!(matt.all_positive());
    assert_eq!(matt.cliffs(), 0);
    let nick = done.score_of(Player::Nick).unwrap();
    assert_eq!(nick.score(), -393);
    assert!(!nick.all_positive());
    assert!(done.score_of(Player::Cathy).is_none());
}

#[test]
fn single_player_game_ends_after_round_twenty() {
    let mut g = ActiveGame::new(0, vec![Player::Darren]);
    for _round in 1..=20 {
        let (p, mut turn) = g.next_turn().unwrap();
        assert_eq!(p, Player::Darren);
        turn.declare_hits(3).unwrap();
        g.apply_turn_result(p, &turn).unwrap();
    }
    assert_eq!(g.state(), GameEnd::EndGame);
    let done = g.into_completed().unwrap();
    let d = done.score_of(Player::Darren).unwrap();
    // 27 + 6 * (1 + ... + 20) = 27 + 6 * 210 = 1287, all cliffs.
    assert_eq!(d.score(), 1287);
    assert_eq!(d.cliffs(), 20);
}

#[test]
fn premature_completion_is_refused() {
    let g = ActiveGame::new(0, vec![Player::Matt]);
    assert_eq!(
        g.into_completed().unwrap_err(),
        GameError::PrematureFinalize
    );
}

#[test]
fn cumulative_read_through_engine() {
    let mut g = ActiveGame::new(0, vec![Player::Matt, Player::Nick]);
    for _ in 0..2 {
        let (p, mut turn) = g.next_turn().unwrap();
        turn.declare_hits(if p == Player::Matt { 1 } else { 3 }).unwrap();
        g.apply_turn_result(p, &turn).unwrap();
    }
    // Each player's score is kept under their own seat.
    assert_eq!(g.cumulative_score_of(Player::Matt, 1).unwrap(), 29);
    assert_eq!(g.cumulative_score_of(Player::Nick, 1).unwrap(), 33);
    assert_eq!(g.hits_of(Player::Matt, 1).unwrap(), Some(1));
    assert_eq!(g.hits_of(Player::Nick, 1).unwrap(), Some(3));
    assert_eq!(
        g.cumulative_score_of(Player::Matt, 0).unwrap_err(),
        GameError::RoundOutOfRange
    );
}

#[test]
fn turn_with_bad_target_is_refused() {
    let mut g = ActiveGame::new(0, vec![Player::Matt]);
    let mut bull = SingleTarget::new(3, twentyseven::BoardSection::Bull(true));
    bull.declare_hits(1).unwrap();
    assert_eq!(
        g.apply_turn_result(Player::Matt, &bull).unwrap_err(),
        GameError::RoundOutOfRange
    );
    let mut off = SingleTarget::new(
        3,
        twentyseven::BoardSection::Number(21, twentyseven::Ring::Double),
    );
    off.declare_hits(1).unwrap();
    assert_eq!(
        g.apply_turn_result(Player::Matt, &off).unwrap_err(),
        GameError::RoundOutOfRange
    );
    // Nothing was recorded.
    assert_eq!(g.current_round_of(Player::Matt).unwrap(), 1);
}

#[test]
fn game_wrapper_dispatches() {
    let g = Game::new_dated(7, vec![Player::Kasia, Player::Cathy]);
    assert_eq!(g.date_played(), 7);
    assert!(!g.is_complete());
    assert_eq!(g.players(), vec![Player::Kasia, Player::Cathy]);
    match g {
        Game::Active(a) => {
            assert_eq!(a.state(), GameEnd::Continue);
        }
        Game::Completed(_) => panic!("a new game is active"),
    }
    let now_game = Game::new(vec![Player::Steve]);
    assert_eq!(now_game.players(), vec![Player::Steve]);
}

#[test]
fn game_end_default_is_continue() {
    assert_eq!(GameEnd::default(), GameEnd::Continue);
}
