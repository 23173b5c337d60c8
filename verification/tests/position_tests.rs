use bg_core::position::Position;

#[test]
fn test_flip_initial() -> () {
    let p1 = Position::initial();
    let p2 = p1.flip();

    assert_eq!(p1, p2);
}

#[test]
fn test_flip_twice() -> () {
    let p1 = Position::make(
        &[(6, 5), (8, 3), (13, 5), (24, 1)],
        &[(1, 2), (7, 2), (12, 2), (17, 2), (18, 2), (19, 5)],
        1,
        0,
        0,
        0,
    );

    assert_ne!(p1, p1.flip());
    assert_eq!(p1, p1.flip().flip());
}

#[test]
fn test_initial_layout() -> () {
    let p = Position::initial();
    assert_eq!(5, p.point_o_value(5));
    assert_eq!(3, p.point_o_value(7));
    assert_eq!(5, p.point_o_value(12));
    assert_eq!(2, p.point_o_value(23));
    assert_eq!(2, p.point_x_value(0));
    assert_eq!(5, p.point_x_value(11));
    assert_eq!(3, p.point_x_value(16));
    assert_eq!(5, p.point_x_value(18));
    assert_eq!(0, p.o_bar_value());
    assert_eq!(0, p.x_bar_value());
    assert!(p.is_valid());
    assert!(!p.o_can_bear_off());
    assert!(!p.is_over());
}

#[test]
fn test_transitions_preserve_validity() -> () {
    // A move, an entry, and a bear-off each return a valid board with all
    // thirty checkers accounted for.
    let p = Position::initial();
    let moved = p.with_o_move(23, 13);
    assert!(moved.is_valid());
    assert_eq!(1, moved.point_o_value(23));
    assert_eq!(1, moved.point_o_value(13));

    let barred = Position::make(
        &[(6, 5), (8, 3), (13, 5), (24, 1)],
        &[(1, 2), (7, 2), (12, 2), (17, 2), (18, 2), (19, 5)],
        1,
        0,
        0,
        0,
    );
    let entered = barred.with_o_entering(19);
    assert!(entered.is_valid());
    assert_eq!(0, entered.o_bar_value());
    assert_eq!(1, entered.point_o_value(19));

    let home = Position::make(&[(2, 2), (4, 1)], &[(24, 15)], 0, 0, 12, 0);
    assert!(home.o_can_bear_off());
    let off = home.with_o_bearing_off(3);
    assert!(off.is_valid());
    assert_eq!(0, off.point_o_value(3));
}

#[test]
fn test_move_hits_lone_checker() -> () {
    // Moving onto a point held by a single opposing checker sends it to
    // the bar.
    let p = Position::make(
        &[(6, 5), (8, 3), (13, 5), (24, 2)],
        &[(1, 2), (12, 5), (17, 3), (19, 3), (20, 1)],
        0,
        0,
        0,
        1,
    );
    let hit = p.with_o_move(23, 19);
    assert!(hit.is_valid());
    assert_eq!(1, hit.point_o_value(19));
    assert_eq!(0, hit.point_x_value(19));
    assert_eq!(1, hit.x_bar_value());
}

#[test]
fn test_win_predicates() -> () {
    // The mover has borne off everything; the opponent has nothing off and
    // a checker in the mover's home board: a backgammon.
    let p = Position::make(&[], &[(3, 1), (19, 14)], 0, 0, 15, 0);
    assert!(p.o_has_won());
    assert!(!p.x_has_won());
    assert!(p.is_over());
    assert!(p.o_has_gammoned());
    assert!(p.o_has_backgammoned());

    // The opponent has borne one checker off: a plain win only.
    let q = Position::make(&[], &[(3, 1), (19, 13)], 0, 0, 15, 1);
    assert!(q.o_has_won());
    assert!(q.is_over());
    assert!(!q.o_has_gammoned());
    assert!(!q.o_has_backgammoned());

    // The opponent's checkers are all outside the mover's home board: a
    // gammon but no backgammon.
    let r = Position::make(&[], &[(12, 5), (19, 10)], 0, 0, 15, 0);
    assert!(r.o_has_gammoned());
    assert!(!r.o_has_backgammoned());
}

#[test]
fn test_is_valid_rejects_bad_boards() -> () {
    // Fourteen checkers for the mover: invalid.
    let mut o_points = [0u8; 24];
    o_points[5] = 5;
    o_points[7] = 3;
    o_points[12] = 5;
    o_points[23] = 1;
    let mut x_points = [0u8; 24];
    x_points[0] = 15;
    let p = Position { o_points, x_points, o_bar: 0, x_bar: 0, o_home: 0, x_home: 0 };
    assert!(!p.is_valid());

    // Both sides on one point: invalid even though the totals are right.
    let mut o2 = [0u8; 24];
    o2[10] = 15;
    let mut x2 = [0u8; 24];
    x2[10] = 15;
    let q = Position { o_points: o2, x_points: x2, o_bar: 0, x_bar: 0, o_home: 0, x_home: 0 };
    assert!(!q.is_valid());
}
