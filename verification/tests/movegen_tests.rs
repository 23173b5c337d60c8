use bg_core::dice::Dice;
use bg_core::movegen::generate_o_moves;
use bg_core::position::Position;

#[test]
fn test_play_both() -> () {
    // Only one ordering of the two dice can be played in full, so the
    // result is unique: the runner moves 24/18 and then 18/14.
    let x_checkers = [(2, 2), (3, 2), (9, 2), (19, 3), (20, 2), (22, 2), (23, 2)];

    let start = Position::make(&[(6, 5), (7, 3), (13, 5), (24, 2)], &x_checkers, 0, 0, 0, 0);

    let roll = Dice::make(6, 4);

    let expected = Position::make(
        &[(6, 5), (7, 3), (13, 5), (14, 1), (24, 1)],
        &x_checkers,
        0,
        0,
        0,
        0,
    );

    let moves = generate_o_moves(&start, &roll);

    assert_eq!(1, moves.len());
    assert_eq!(moves.iter().next(), Some(&expected));
}

#[test]
fn test_movegen_play_highest() -> () {
    // Only one die can be played at all, so the higher one must be used.
    let x_checkers = [
        (2, 2),
        (7, 2),
        (9, 2),
        (11, 2),
        (14, 2),
        (19, 2),
        (20, 1),
        (21, 2),
    ];

    let start = Position::make(
        &[(6, 5), (13, 5), (15, 4), (24, 1)],
        &x_checkers,
        0,
        0,
        0,
        0,
    );

    let roll = Dice::make(6, 4);

    let expected = Position::make(
        &[(6, 5), (13, 5), (15, 4), (18, 1)],
        &x_checkers,
        0,
        0,
        0,
        0,
    );

    let moves = generate_o_moves(&start, &roll);

    assert_eq!(1, moves.len());
    assert_eq!(moves.iter().next(), Some(&expected));
}

#[test]
fn test_movegen_entering() -> () {
    let start = Position::make(
        &[(6, 5), (8, 3), (13, 5), (24, 1)],
        &[(1, 2), (7, 2), (12, 2), (17, 2), (18, 2), (19, 5)],
        1,
        0,
        0,
        0,
    );

    let roll = Dice::make(6, 6);
    let moves = generate_o_moves(&start, &roll);
    assert_eq!(0, moves.len());

    let roll = Dice::make(6, 5);

    let expected_1 = Position::make(
        &[(2, 1), (6, 5), (8, 2), (13, 5), (20, 1), (24, 1)],
        &[(1, 2), (7, 2), (12, 2), (17, 2), (18, 2), (19, 5)],
        0,
        0,
        0,
        0,
    );

    let expected_2 = Position::make(
        &[(6, 5), (8, 3), (13, 5), (14, 1), (24, 1)],
        &[(1, 2), (7, 2), (12, 2), (17, 2), (18, 2), (19, 5)],
        0,
        0,
        0,
        0,
    );

    let moves = generate_o_moves(&start, &roll);

    assert_eq!(2, moves.len());
    assert!(moves.contains(&expected_1));
    assert!(moves.contains(&expected_2));
}

#[test]
fn test_movegen_bearing_off_1() -> () {
    // With twelve already off, the roll (4, 1) can clear the four point or
    // play inside first: exactly two end positions.
    let start = Position::make(
        &[(2, 2), (4, 1)],
        &[(1, 1), (19, 4), (20, 2), (21, 2), (22, 2), (23, 2), (24, 2)],
        0,
        0,
        12,
        0,
    );

    let roll = Dice::make(4, 1);

    let expected_1 = Position::make(
        &[(1, 1), (2, 1)],
        &[(19, 4), (20, 2), (21, 2), (22, 2), (23, 2), (24, 2)],
        0,
        1,
        13,
        0,
    );

    let expected_2 = Position::make(
        &[(2, 2)],
        &[(1, 1), (19, 4), (20, 2), (21, 2), (22, 2), (23, 2), (24, 2)],
        0,
        0,
        13,
        0,
    );

    let moves = generate_o_moves(&start, &roll);

    assert_eq!(2, moves.len());
    assert!(moves.contains(&expected_1));
    assert!(moves.contains(&expected_2));
}

#[test]
fn test_movegen_bearing_off_2() -> () {
    let start = Position::make(&[(1, 1), (3, 3), (6, 1)], &[(23, 3), (24, 2)], 0, 0, 10, 10);

    let roll = Dice::make(5, 4);

    let expected_1 = Position::make(&[(1, 2), (3, 2)], &[(23, 3), (24, 2)], 0, 0, 11, 10);

    let expected_2 =
        Position::make(&[(1, 1), (2, 1), (3, 2)], &[(23, 3), (24, 2)], 0, 0, 11, 10);

    let moves = generate_o_moves(&start, &roll);

    assert_eq!(2, moves.len());
    assert!(moves.contains(&expected_1));
    assert!(moves.contains(&expected_2));
}

#[test]
fn test_movegen_doubles() -> () {
    // A double is played as many times as it can be: both checkers on the
    // two point bear off exactly, then no third use is possible, so the
    // unique result is the finished board.
    let start = Position::make(&[(2, 2)], &[(24, 15)], 0, 0, 13, 0);

    let roll = Dice::make(2, 2);

    let expected = Position::make(&[], &[(24, 15)], 0, 0, 15, 0);

    let moves = generate_o_moves(&start, &roll);

    assert_eq!(1, moves.len());
    assert_eq!(moves.iter().next(), Some(&expected));
    assert!(expected.o_has_won());

    // Four uses of the die when the board allows them: four checkers each
    // step one pip down from the six point onto the five point.
    let start = Position::make(&[(6, 4), (13, 5), (19, 6)], &[(24, 15)], 0, 0, 0, 0);
    let roll = Dice::make(1, 1);
    let moves = generate_o_moves(&start, &roll);
    let expected_full =
        Position::make(&[(5, 4), (13, 5), (19, 6)], &[(24, 15)], 0, 0, 0, 0);
    assert!(moves.contains(&expected_full));
    // Every result of a (1, 1) uses the die four times: total pip distance
    // drops by exactly four in each returned position.
    for m in &moves {
        let pips = |p: &Position| -> u32 {
            let mut total: u32 = 0;
            for i in 0..24u8 {
                total += (i as u32 + 1) * p.point_o_value(i) as u32;
            }
            total
        };
        assert_eq!(pips(&start), pips(m) + 4);
    }
}
