use bg_core::dice::Dice;
use bg_core::game::Game;
use bg_core::game::Match;
use bg_core::moves::apply_o_checker_move;
use bg_core::moves::apply_o_move;
use bg_core::moves::apply_x_move;
use bg_core::moves::CheckerMove;
use bg_core::moves::Move;
use bg_core::position::Position;

#[test]
fn test_checker_move_accessors() -> () {
    let m = CheckerMove::make(13, 7, false);
    assert_eq!(12, m.src_point());
    assert_eq!(6, m.dst_point());
    assert!(!m.is_entering());
    assert!(!m.is_bearing_off());

    let enter = CheckerMove::make(25, 20, true);
    assert!(enter.is_entering());
    assert!(!enter.is_bearing_off());

    let off = CheckerMove::make(4, 0, false);
    assert!(!off.is_entering());
    assert!(off.is_bearing_off());
}

#[test]
fn test_apply_o_move_opening() -> () {
    // The common opening play of a (2, 1): 24/23 and 13/11.
    let p = Position::initial();
    let mv = Move::make(
        Dice::make(2, 1),
        vec![CheckerMove::make(24, 23, false), CheckerMove::make(13, 11, false)],
    );
    let after = apply_o_move(&p, &mv).unwrap();
    assert!(after.is_valid());
    assert_eq!(1, after.point_o_value(22));
    assert_eq!(1, after.point_o_value(23));
    assert_eq!(1, after.point_o_value(10));
    assert_eq!(4, after.point_o_value(12));
}

#[test]
fn test_apply_o_move_rejects_illegal() -> () {
    // Point 19 is held by five opposing checkers: moving there must fail.
    let p = Position::initial();
    let blocked = CheckerMove::make(24, 19, false);
    assert!(apply_o_checker_move(&p, &blocked).is_none());

    // No checker stands on point 3.
    let empty_source = CheckerMove::make(3, 2, false);
    assert!(apply_o_checker_move(&p, &empty_source).is_none());

    // The bar is empty, so entering must fail.
    let enter = CheckerMove::make(25, 20, false);
    assert!(apply_o_checker_move(&p, &enter).is_none());

    // Bearing off is not allowed with checkers outside the home board.
    let off = CheckerMove::make(6, 0, false);
    assert!(apply_o_checker_move(&p, &off).is_none());

    // A turn whose second move lands on a made point fails as a whole.
    let mv = Move::make(
        Dice::make(6, 6),
        vec![CheckerMove::make(24, 18, false), CheckerMove::make(18, 12, false)],
    );
    assert!(apply_o_move(&p, &mv).is_none());
}

#[test]
fn test_apply_x_move_mirrors() -> () {
    // The opponent plays 24/23, 13/11 in its own numbering; the result
    // seen from the mover's side moves the checkers on points 1 and 12.
    let p = Position::initial();
    let mv = Move::make(
        Dice::make(2, 1),
        vec![CheckerMove::make(24, 23, false), CheckerMove::make(13, 11, false)],
    );
    let after = apply_x_move(&p, &mv).unwrap();
    assert!(after.is_valid());
    assert_eq!(1, after.point_x_value(1));
    assert_eq!(1, after.point_x_value(13));
    assert_eq!(4, after.point_x_value(11));
}

#[test]
fn test_game_and_match_make() -> () {
    let mv = Move::make(Dice::make(3, 1), vec![CheckerMove::make(8, 5, false)]);
    let game = Game::make(vec![(Some(mv), None)]);
    assert_eq!(1, game.turns.len());
    assert!(game.turns[0].0.is_some());
    assert!(game.turns[0].1.is_none());

    let m = Match::make(vec![game]);
    assert_eq!(1, m.games.len());
}
