use vstd::prelude::*;

use crate::dice::Dice;
use crate::position::Position;
use crate::position::is_flip_of;

verus! {

/// One checker displacement in match notation: points are 1-indexed,
/// source 25 means entering from the bar, destination 0 means bearing off.
#[derive(Clone, Copy, Debug, PartialEq, Eq, Structural)]
pub struct CheckerMove {
    pub from: u8,
    pub to: u8,
    pub hits: bool,
}

impl CheckerMove {
    pub fn make(from: u8, to: u8, hits: bool) -> (m: CheckerMove)
        ensures
            m == (CheckerMove { from, to, hits }),
    {
        CheckerMove { from, to, hits }
    }

    /// The 0-indexed source point.
    pub fn src_point(&self) -> (r: u8)
        requires
            self.from >= 1,
        ensures
            r == self.from - 1,
    {
        self.from - 1
    }

    /// The 0-indexed destination point.
    pub fn dst_point(&self) -> (r: u8)
        requires
            self.to >= 1,
        ensures
            r == self.to - 1,
    {
        self.to - 1
    }

    pub fn is_entering(&self) -> (b: bool)
        ensures
            b == (self.from == 25),
    {
        self.from == 25
    }

    pub fn is_bearing_off(&self) -> (b: bool)
        ensures
            b == (self.to == 0),
    {
        self.to == 0
    }
}

/// A full turn in match notation: the roll and the checker moves played.
#[derive(Debug)]
pub struct Move {
    pub roll: Dice,
    pub checker_moves: Vec<CheckerMove>,
}

impl Move {
    pub fn make(roll: Dice, checker_moves: Vec<CheckerMove>) -> (m: Move)
        ensures
            m.roll == roll,
            m.checker_moves == checker_moves,
    {
        Move { roll, checker_moves }
    }

    pub fn moves(&self) -> (r: &Vec<CheckerMove>)
        ensures
            r@ == self.checker_moves@,
    {
        &self.checker_moves
    }
}

/// The notated checker move names a transition that `Position` allows.
pub open spec fn checker_move_legal(p: Position, m: CheckerMove) -> bool {
    if m.from == 25 {
        &&& 1 <= m.to <= 24
        &&& p.o_bar >= 1
        &&& p.x_points[m.to - 1] <= 1
    } else if m.to == 0 {
        &&& 1 <= m.from <= 24
        &&& p.o_can_bear_off_spec()
        &&& p.o_points[m.from - 1] >= 1
    } else {
        &&& 1 <= m.from <= 24
        &&& 1 <= m.to < m.from
        &&& p.o_points[m.from - 1] >= 1
        &&& p.x_points[m.to - 1] <= 1
    }
}

/// The board after the notated checker move.
pub open spec fn checker_move_result(p: Position, m: CheckerMove) -> Position {
    if m.from == 25 {
        p.o_enter_result(m.to - 1)
    } else if m.to == 0 {
        p.o_bear_off_result(m.from - 1)
    } else {
        p.o_move_result(m.from - 1, m.to - 1)
    }
}

/// The board after a sequence of notated checker moves, applied in order;
/// `None` as soon as one of them is illegal.
pub open spec fn move_seq_result(p: Position, ms: Seq<CheckerMove>) -> Option<Position>
    decreases ms.len(),
{
    if ms.len() == 0 {
        Some(p)
    } else if checker_move_legal(p, ms[0]) {
        move_seq_result(checker_move_result(p, ms[0]), ms.drop_first())
    } else {
        None
    }
}

/// Applies one notated checker move for the mover, or reports that it is
/// illegal on this board.
pub fn apply_o_checker_move(p: &Position, m: &CheckerMove) -> (r: Option<Position>)
    requires
        p.is_valid_spec(),
    ensures
        r.is_some() == checker_move_legal(*p, *m),
        r.is_some() ==> r.unwrap() == checker_move_result(*p, *m) && r.unwrap().is_valid_spec(),
{
    if m.is_entering() {
        if 1 <= m.to && m.to <= 24 && p.o_bar_value() >= 1 && p.point_x_value(m.to - 1) <= 1 {
            Some(p.with_o_entering(m.to - 1))
        } else {
            None
        }
    } else if m.is_bearing_off() {
        if 1 <= m.from && m.from <= 24 && p.o_can_bear_off() && p.point_o_value(m.from - 1)
            >= 1 {
            Some(p.with_o_bearing_off(m.from - 1))
        } else {
            None
        }
    } else {
        if 1 <= m.from && m.from <= 24 && 1 <= m.to && m.to < m.from && p.point_o_value(
            m.from - 1,
        ) >= 1 && p.point_x_value(m.to - 1) <= 1 {
            Some(p.with_o_move(m.from - 1, m.to - 1))
        } else {
            None
        }
    }
}

/// Applies a full notated turn for the mover, move by move; `None` as soon
/// as one checker move is illegal.
pub fn apply_o_move(p: &Position, mv: &Move) -> (r: Option<Position>)
    requires
        p.is_valid_spec(),
    ensures
        r == move_seq_result(*p, mv.checker_moves@),
        r.is_some() ==> r.unwrap().is_valid_spec(),
{
    let ghost ms = mv.checker_moves@;
    let mut cur = *p;
    let mut i: usize = 0;
    proof {
        assert(ms.skip(0) =~= ms);
    }
    while i < mv.checker_moves.len()
        invariant
            i <= ms.len(),
            mv.checker_moves@ == ms,
            cur.is_valid_spec(),
            move_seq_result(*p, ms) == move_seq_result(cur, ms.skip(i as int)),
        decreases ms.len() - i,
    {
        let ghost ii = i as int;
        proof {
            assert(ms.skip(ii)[0] == ms[ii]);
            assert(ms.skip(ii).drop_first() =~= ms.skip(ii + 1));
        }
        let step = apply_o_checker_move(&cur, &mv.checker_moves[i]);
        match step {
            Some(next) => {
                cur = next;
            },
            None => {
                proof {
                    assert(move_seq_result(cur, ms.skip(ii)) is None);
                }
                return None;
            },
        }
        i = i + 1;
    }
    proof {
        assert(ms.skip(i as int) =~= Seq::<CheckerMove>::empty());
        assert(move_seq_result(cur, ms.skip(i as int)) == Some(cur));
    }
    Some(cur)
}

/// The outcome of applying a notated turn for the opponent: the turn is
/// played on the flipped board, and the result is flipped back.
pub open spec fn x_move_outcome(p: Position, ms: Seq<CheckerMove>, r: Option<Position>) -> bool {
    exists|pf: Position|
        #[trigger] is_flip_of(pf, p) && (match move_seq_result(pf, ms) {
            Some(qf) => match r {
                Some(q) => is_flip_of(q, qf),
                None => false,
            },
            None => r is None,
        })
}

/// Applies a full notated turn for the opponent by flipping the board,
/// playing the turn as the mover, and flipping back.
pub fn apply_x_move(p: &Position, mv: &Move) -> (r: Option<Position>)
    requires
        p.is_valid_spec(),
    ensures
        x_move_outcome(*p, mv.checker_moves@, r),
        r.is_some() ==> r.unwrap().is_valid_spec(),
{
    let flipped = p.flip();
    let o_result = apply_o_move(&flipped, mv);
    match o_result {
        Some(qf) => {
            let q = qf.flip();
            proof {
                assert(is_flip_of(q, qf));
            }
            Some(q)
        },
        None => {
            proof {
                assert(is_flip_of(flipped, *p));
            }
            None
        },
    }
}

} // verus!
