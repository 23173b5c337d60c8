use bg_core::position::Position;
use bg_core::rollout::rollout_o;

#[test]
fn test_rollout_counts() -> () {
    // A race position near the end: games finish in a handful of turns.
    // Every trial ends with exactly one winner and the gammon and
    // backgammon counts are nested refinements.
    let start = Position::make(&[(1, 2), (2, 1)], &[(23, 1), (24, 2)], 0, 0, 12, 12);
    let stats = rollout_o(&start);

    assert_eq!(1000, stats.rolls);
    assert_eq!(stats.rolls, stats.o_win + stats.x_win);
    assert!(stats.o_backgammon <= stats.o_gammon && stats.o_gammon <= stats.o_win);
    assert!(stats.x_backgammon <= stats.x_gammon && stats.x_gammon <= stats.x_win);

    // Both sides have borne checkers off already, so neither can be
    // gammoned in any trial.
    assert_eq!(0, stats.o_gammon);
    assert_eq!(0, stats.x_gammon);

    let o_rate = stats.o_win as f64 / stats.rolls as f64;
    let x_rate = stats.x_win as f64 / stats.rolls as f64;
    assert!((o_rate + x_rate - 1.0).abs() < 1e-9);

    // The mover draws first in an even race, so it should win most trials.
    assert!(stats.o_win > stats.x_win);
}

#[test]
fn test_rollout_opponent_won_position() -> () {
    // The opponent has already borne everything off and the mover, far
    // from home, cannot finish in the single turn it gets: the opponent
    // takes every trial, and always as a gammon since the mover never
    // bears off.
    let start = Position::make(&[(12, 10), (18, 5)], &[], 0, 0, 0, 15);
    let stats = rollout_o(&start);

    assert_eq!(1000, stats.rolls);
    assert_eq!(1000, stats.x_win);
    assert_eq!(0, stats.o_win);
    assert_eq!(1000, stats.x_gammon);
    assert_eq!(0, stats.x_backgammon);
}

#[test]
fn test_rollout_initial() -> () {
    let stats = rollout_o(&Position::initial());

    assert_eq!(1000, stats.rolls);
    assert_eq!(stats.rolls, stats.o_win + stats.x_win);
    assert!(stats.o_backgammon <= stats.o_gammon && stats.o_gammon <= stats.o_win);
    assert!(stats.x_backgammon <= stats.x_gammon && stats.x_gammon <= stats.x_win);

    let o_rate = stats.o_win as f64 / stats.rolls as f64;
    let x_rate = stats.x_win as f64 / stats.rolls as f64;
    assert!((o_rate + x_rate - 1.0).abs() < 1e-9);
}

#[test]
fn test_rollout_won_position() -> () {
    // Starting from a board the mover has already won, every trial is an
    // immediate gammon-free win for the mover.
    let start = Position::make(&[], &[(12, 10), (18, 5)], 0, 0, 15, 0);
    let stats = rollout_o(&start);

    assert_eq!(1000, stats.rolls);
    assert_eq!(1000, stats.o_win);
    assert_eq!(0, stats.x_win);
    assert_eq!(1000, stats.o_gammon);
    assert_eq!(0, stats.o_backgammon);
}
