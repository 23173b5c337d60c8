use vstd::prelude::*;

use crate::dice::Dice;
use crate::position::Position;
use crate::position::is_flip_of;

verus! {

/// No position occurs twice in the sequence.
pub open spec fn nodup(s: Seq<Position>) -> bool {
    forall|i: int, j: int| 0 <= i < j < s.len() ==> s[i] != s[j]
}

/// Every position in the sequence satisfies the board invariants.
pub open spec fn all_valid(s: Seq<Position>) -> bool {
    forall|i: int| 0 <= i < s.len() ==> (#[trigger] s[i]).is_valid_spec()
}

/// A single die can be used to enter a checker from the bar.
pub open spec fn one_die_entry_legal(p: Position, die: u8) -> bool {
    &&& p.o_bar > 0
    &&& p.x_points[24 - die] <= 1
}

/// A single die can be used to move a checker from `from` down `die` pips.
pub open spec fn one_die_move_legal(p: Position, die: u8, from: int) -> bool {
    &&& p.o_bar == 0
    &&& 0 <= from < 24
    &&& p.o_points[from] > 0
    &&& from >= die
    &&& p.x_points[from - die] <= 1
}

/// A single die can be used to bear a checker off point `from`: either the
/// die matches the point exactly, or the die is larger and no higher home
/// point is occupied.
pub open spec fn one_die_bear_off_legal(p: Position, die: u8, from: int) -> bool {
    &&& p.o_bar == 0
    &&& p.o_can_bear_off_spec()
    &&& 0 <= from < 6
    &&& p.o_points[from] > 0
    &&& (from + 1 == die || (from + 1 < die && (forall|j: int|
        from < j < 6 ==> p.o_points[j] == 0)))
}

/// `q` is reachable from `p` by one legal use of a single die.
pub open spec fn one_die_legal(p: Position, die: u8, q: Position) -> bool {
    ||| (one_die_entry_legal(p, die) && q == p.o_enter_result(24 - die))
    ||| (exists|from: int|
        one_die_move_legal(p, die, from) && q == #[trigger] p.o_move_result(from, from - die))
    ||| (exists|from: int|
        one_die_bear_off_legal(p, die, from) && q == #[trigger] p.o_bear_off_result(from))
}

/// `q` only joins a pushed sequence if it was already there or is the
/// pushed element.
proof fn lemma_push_contains(s: Seq<Position>, v: Position, q: Position)
    ensures
        s.push(v).contains(q) <==> s.contains(q) || q == v,
{
    if s.push(v).contains(q) {
        let i = choose|i: int| 0 <= i < s.push(v).len() && s.push(v)[i] == q;
        if i < s.len() {
            assert(s[i] == q);
        }
    }
    if s.contains(q) {
        let i = choose|i: int| 0 <= i < s.len() && s[i] == q;
        assert(s.push(v)[i] == q);
    }
    if q == v {
        assert(s.push(v)[s.len() as int] == q);
    }
}

/// Linear search by structural equality.
fn contains_pos(v: &Vec<Position>, q: &Position) -> (b: bool)
    ensures
        b == v@.contains(*q),
{
    let mut i: usize = 0;
    while i < v.len()
        invariant
            i <= v@.len(),
            forall|j: int| 0 <= j < i ==> v@[j] != *q,
        decreases v@.len() - i,
    {
        if v[i] == *q {
            return true;
        }
        i = i + 1;
    }
    false
}

/// Adds `p` unless an equal position is already present.
fn insert_pos(v: Vec<Position>, p: Position) -> (r: Vec<Position>)
    requires
        nodup(v@),
    ensures
        nodup(r@),
        forall|q: Position| r@.contains(q) <==> v@.contains(q) || q == p,
        r@ == v@ || r@ == v@.push(p),
{
    if contains_pos(&v, &p) {
        v
    } else {
        let ghost prev = v@;
        let mut v2 = v;
        v2.push(p);
        proof {
            assert forall|q: Position| v2@.contains(q) <==> prev.contains(q) || q == p by {
                lemma_push_contains(prev, p, q);
            }
        }
        v2
    }
}

/// Adds every position of `items` that is not yet present.
fn union_pos(acc: Vec<Position>, items: &Vec<Position>) -> (r: Vec<Position>)
    requires
        nodup(acc@),
        all_valid(acc@),
        all_valid(items@),
    ensures
        nodup(r@),
        all_valid(r@),
        forall|q: Position| r@.contains(q) <==> acc@.contains(q) || items@.contains(q),
{
    let ghost orig = acc@;
    let mut cur = acc;
    let mut k: usize = 0;
    proof {
        assert(items@.take(0) =~= Seq::<Position>::empty());
    }
    while k < items.len()
        invariant
            k <= items@.len(),
            nodup(cur@),
            all_valid(cur@),
            all_valid(items@),
            forall|q: Position| #[trigger] cur@.contains(q) ==> orig.contains(q)
                || items@.take(k as int).contains(q),
            forall|q: Position| #[trigger] orig.contains(q) ==> cur@.contains(q),
            forall|j: int| 0 <= j < k ==> cur@.contains(#[trigger] items@[j]),
        decreases items@.len() - k,
    {
        let ghost before = cur@;
        cur = insert_pos(cur, items[k]);
        let ghost ki = k as int;
        k = k + 1;
        proof {
            assert(items@[ki].is_valid_spec());
            assert(items@.take(k as int) =~= items@.take(ki).push(items@[ki]));
            assert forall|q: Position| #[trigger] cur@.contains(q) implies orig.contains(q)
                || items@.take(k as int).contains(q) by {
                lemma_push_contains(items@.take(ki), items@[ki], q);
                if before.contains(q) {
                    assert(orig.contains(q) || items@.take(ki).contains(q));
                } else {
                    assert(q == items@[ki]);
                }
            }
            assert forall|q: Position| #[trigger] orig.contains(q) implies cur@.contains(q) by {
                assert(before.contains(q));
            }
            assert forall|j: int| 0 <= j < k implies cur@.contains(#[trigger] items@[j]) by {
                if j < ki {
                    assert(before.contains(items@[j]));
                } else {
                    assert(cur@.contains(items@[ki]));
                }
            }
            assert forall|i: int| 0 <= i < cur@.len() implies (#[trigger] cur@[i]).is_valid_spec()
                by {
                if i < before.len() {
                    assert(cur@[i] == before[i]);
                } else {
                    assert(cur@[i] == items@[ki]);
                }
            }
        }
    }
    proof {
        assert(items@.take(k as int) =~= items@);
        assert forall|q: Position| cur@.contains(q) <==> orig.contains(q) || items@.contains(q)
            by {
            if cur@.contains(q) {
                assert(orig.contains(q) || items@.take(k as int).contains(q));
            }
            if items@.contains(q) {
                let j = choose|j: int| 0 <= j < items@.len() && items@[j] == q;
                assert(cur@.contains(items@[j]));
            }
        }
    }
    cur
}

/// Positions reachable while `from` ranges over `lo..24` with an ordinary
/// point-to-point move.
pub open spec fn move_candidate_from(p: Position, die: u8, q: Position, lo: int) -> bool {
    exists|from: int|
        lo <= from && one_die_move_legal(p, die, from) && q == #[trigger] p.o_move_result(
            from,
            from - die,
        )
}

/// Positions reachable while `from` ranges over `lo..6` with a bear-off.
pub open spec fn bear_off_candidate_from(p: Position, die: u8, q: Position, lo: int) -> bool {
    exists|from: int|
        lo <= from && one_die_bear_off_legal(p, die, from) && q == #[trigger] p.o_bear_off_result(
            from,
        )
}

/// All positions reachable from `position` by one legal use of one die.
pub fn generate_one_die_moves(position: &Position, die: u8) -> (r: Vec<Position>)
    requires
        position.is_valid_spec(),
        1 <= die <= 6,
    ensures
        forall|q: Position| r@.contains(q) <==> one_die_legal(*position, die, q),
        nodup(r@),
        all_valid(r@),
{
    let mut results: Vec<Position> = Vec::new();

    if position.o_bar_value() > 0 {
        // A checker on the bar must enter before anything else may move.
        if position.point_x_value(24 - die) <= 1 {
            let new_position = position.with_o_entering(24 - die);
            let ghost prev = results@;
            results.push(new_position);
            proof {
                assert forall|q: Position| results@.contains(q) <==> one_die_legal(
                    *position,
                    die,
                    q,
                ) by {
                    lemma_push_contains(prev, new_position, q);
                }
            }
        }
    } else {
        // Ordinary moves: scan the points from the top down.
        let mut point: usize = 24;
        while point > 0
            invariant
                point <= 24,
                position.is_valid_spec(),
                position.o_bar == 0,
                1 <= die <= 6,
                nodup(results@),
                all_valid(results@),
                forall|q: Position| results@.contains(q) <==> move_candidate_from(
                    *position,
                    die,
                    q,
                    point as int,
                ),
            decreases point,
        {
            let pt = point - 1;
            if position.point_o_value(pt as u8) > 0 && pt >= die as usize
                && position.point_x_value((pt - die as usize) as u8) <= 1 {
                let new_position = position.with_o_move(pt as u8, (pt - die as usize) as u8);
                let ghost prev = results@;
                results = insert_pos(results, new_position);
                proof {
                    assert(one_die_move_legal(*position, die, pt as int));
                    assert forall|i2: int| 0 <= i2 < results@.len() implies (#[trigger]
                    results@[i2]).is_valid_spec() by {
                        if i2 < prev.len() {
                            assert(results@[i2] == prev[i2]);
                        } else {
                            assert(results@[i2] == new_position);
                        }
                    }
                    assert forall|q: Position| results@.contains(q) <==> move_candidate_from(
                        *position,
                        die,
                        q,
                        pt as int,
                    ) by {
                        if prev.contains(q) || q == new_position {
                            assert(move_candidate_from(*position, die, q, pt as int));
                        }
                        if move_candidate_from(*position, die, q, pt as int) && q
                            != new_position {
                            let from = choose|from: int|
                                pt <= from && one_die_move_legal(*position, die, from) && q
                                    == position.o_move_result(from, from - die);
                            if from == pt {
                                assert(q == new_position);
                            } else {
                                assert(point <= from);
                            }
                        }
                    }
                }
            } else {
                proof {
                    assert forall|q: Position| results@.contains(q) <==> move_candidate_from(
                        *position,
                        die,
                        q,
                        pt as int,
                    ) by {
                        if move_candidate_from(*position, die, q, pt as int) {
                            let from = choose|from: int|
                                pt <= from && one_die_move_legal(*position, die, from) && q
                                    == position.o_move_result(from, from - die);
                            assert(from != pt);
                        }
                    }
                }
            }
            point = pt;
        }

        // Bear-offs, if every checker is home: scan the home board from the
        // top down, remembering whether a higher occupied point was seen.
        if position.o_can_bear_off() {
            let mut seen_higher: bool = false;
            let mut hpoint: usize = 6;
            while hpoint > 0
                invariant
                    hpoint <= 6,
                    position.is_valid_spec(),
                    position.o_bar == 0,
                    position.o_can_bear_off_spec(),
                    1 <= die <= 6,
                    nodup(results@),
                    all_valid(results@),
                    seen_higher == exists|j: int|
                        hpoint <= j < 6 && position.o_points[j] > 0,
                    forall|q: Position| results@.contains(q) <==> move_candidate_from(
                        *position,
                        die,
                        q,
                        0,
                    ) || bear_off_candidate_from(*position, die, q, hpoint as int),
                decreases hpoint,
            {
                let pt = hpoint - 1;
                let occupied = position.point_o_value(pt as u8) > 0;
                if occupied && (pt + 1 == die as usize || (pt + 1 < die as usize
                    && !seen_higher)) {
                    let new_position = position.with_o_bearing_off(pt as u8);
                    let ghost prev = results@;
                    results = insert_pos(results, new_position);
                    proof {
                        let p = *position;
                        assert(one_die_bear_off_legal(p, die, pt as int));
                        assert forall|i2: int| 0 <= i2 < results@.len() implies (#[trigger]
                        results@[i2]).is_valid_spec() by {
                            if i2 < prev.len() {
                                assert(results@[i2] == prev[i2]);
                            } else {
                                assert(results@[i2] == new_position);
                            }
                        }
                        assert forall|q: Position| results@.contains(q) <==> move_candidate_from(
                            p,
                            die,
                            q,
                            0,
                        ) || bear_off_candidate_from(p, die, q, pt as int) by {
                            if bear_off_candidate_from(p, die, q, pt as int) {
                                let from = choose|from: int|
                                    pt <= from && one_die_bear_off_legal(p, die, from) && q
                                        == p.o_bear_off_result(from);
                                if from > pt {
                                    assert(bear_off_candidate_from(p, die, q, hpoint as int));
                                } else {
                                    assert(q == new_position);
                                }
                            }
                            if q == new_position {
                                assert(one_die_bear_off_legal(p, die, pt as int) && q
                                    == p.o_bear_off_result(pt as int));
                            }
                        }
                    }
                } else {
                    proof {
                        let p = *position;
                        assert forall|q: Position| results@.contains(q) <==> move_candidate_from(
                            p,
                            die,
                            q,
                            0,
                        ) || bear_off_candidate_from(p, die, q, pt as int) by {
                            if bear_off_candidate_from(p, die, q, pt as int) {
                                let from = choose|from: int|
                                    pt <= from && one_die_bear_off_legal(p, die, from) && q
                                        == p.o_bear_off_result(from);
                                if from == pt {
                                    assert(p.o_points[pt as int] > 0);
                                    if pt + 1 < die {
                                        assert(forall|j: int|
                                            pt < j < 6 ==> p.o_points[j] == 0);
                                        assert(!(exists|j: int|
                                            hpoint <= j < 6 && p.o_points[j] > 0));
                                        assert(false);
                                    } else {
                                        assert(false);
                                    }
                                } else {
                                    assert(bear_off_candidate_from(p, die, q, hpoint as int));
                                }
                            }
                        }
                    }
                }
                proof {
                    let p = *position;
                    if occupied {
                        assert(pt <= pt < 6 && p.o_points[pt as int] > 0);
                        assert(exists|j: int| pt <= j < 6 && p.o_points[j] > 0);
                    } else {
                        assert forall|j: int| pt <= j < 6 && p.o_points[j] > 0 implies hpoint
                            <= j by {}
                    }
                }
                seen_higher = seen_higher || occupied;
                hpoint = pt;
            }
        }
    }

    proof {
        let p = *position;
        assert forall|q: Position| results@.contains(q) <==> one_die_legal(p, die, q) by {
            if p.o_bar > 0 {
                if one_die_legal(p, die, q) {
                    assert(one_die_entry_legal(p, die) && q == p.o_enter_result(24 - die));
                }
            } else {
                if one_die_legal(p, die, q) {
                    if one_die_entry_legal(p, die) && q == p.o_enter_result(24 - die) {
                        assert(false);
                    }
                }
                if results@.contains(q) {
                    assert(move_candidate_from(p, die, q, 0) || bear_off_candidate_from(
                        p,
                        die,
                        q,
                        0,
                    ));
                }
            }
        }
    }
    results
}


/// `q` is reachable from `p` by one use of die `d1` and then one of `d2`.
pub open spec fn seq2_legal(p: Position, d1: u8, d2: u8, q: Position) -> bool {
    exists|m: Position| #[trigger] one_die_legal(p, d1, m) && one_die_legal(m, d2, q)
}

/// Some position is reachable by using `d1` and then `d2`.
pub open spec fn some_seq2(p: Position, d1: u8, d2: u8) -> bool {
    exists|q: Position| #[trigger] seq2_legal(p, d1, d2, q)
}

/// Some position is reachable by one use of `d`.
pub open spec fn some_one(p: Position, d: u8) -> bool {
    exists|q: Position| #[trigger] one_die_legal(p, d, q)
}

/// `q` is reachable from `p` by two uses of `die` in sequence.
pub open spec fn chain2_legal(p: Position, die: u8, q: Position) -> bool {
    seq2_legal(p, die, die, q)
}

/// `q` is reachable from `p` by three uses of `die` in sequence.
pub open spec fn chain3_legal(p: Position, die: u8, q: Position) -> bool {
    exists|m: Position| #[trigger] chain2_legal(p, die, m) && one_die_legal(m, die, q)
}

/// `q` is reachable from `p` by four uses of `die` in sequence.
pub open spec fn chain4_legal(p: Position, die: u8, q: Position) -> bool {
    exists|m: Position| #[trigger] chain3_legal(p, die, m) && one_die_legal(m, die, q)
}

pub open spec fn some_chain2(p: Position, die: u8) -> bool {
    exists|q: Position| #[trigger] chain2_legal(p, die, q)
}

pub open spec fn some_chain3(p: Position, die: u8) -> bool {
    exists|q: Position| #[trigger] chain3_legal(p, die, q)
}

pub open spec fn some_chain4(p: Position, die: u8) -> bool {
    exists|q: Position| #[trigger] chain4_legal(p, die, q)
}

/// The set of full turns for a double roll: the die is used as many times
/// as possible, up to four.
pub open spec fn doubles_legal(p: Position, die: u8, q: Position) -> bool {
    if some_chain4(p, die) {
        chain4_legal(p, die, q)
    } else if some_chain3(p, die) {
        chain3_legal(p, die, q)
    } else if some_chain2(p, die) {
        chain2_legal(p, die, q)
    } else {
        one_die_legal(p, die, q)
    }
}

/// The set of full turns for the mover: for a non-double roll, both dice
/// are played in either order when possible; otherwise the higher die is
/// preferred for a single-die turn. For a double, the die is used up to
/// four times.
pub open spec fn o_turn_legal(p: Position, dice: Dice, q: Position) -> bool {
    if dice.first == dice.second {
        doubles_legal(p, dice.first, q)
    } else {
        if some_seq2(p, dice.first, dice.second) || some_seq2(p, dice.second, dice.first) {
            seq2_legal(p, dice.first, dice.second, q) || seq2_legal(
                p,
                dice.second,
                dice.first,
                q,
            )
        } else if some_one(p, dice.first) {
            one_die_legal(p, dice.first, q)
        } else {
            one_die_legal(p, dice.second, q)
        }
    }
}

/// The set of full turns for the opponent: flip, take a mover's turn, and
/// flip back.
pub open spec fn x_turn_legal(p: Position, dice: Dice, q: Position) -> bool {
    exists|pf: Position, qf: Position|
        is_flip_of(pf, p) && is_flip_of(qf, q) && #[trigger] o_turn_legal(pf, dice, qf)
}

/// Every position reachable from some member of `set` by one use of `die`.
fn expand_one_die(set: &Vec<Position>, die: u8) -> (r: Vec<Position>)
    requires
        1 <= die <= 6,
        all_valid(set@),
    ensures
        nodup(r@),
        all_valid(r@),
        forall|q: Position| r@.contains(q) <==> exists|i: int|
            0 <= i < set@.len() && one_die_legal(set@[i], die, q),
{
    let mut out: Vec<Position> = Vec::new();
    let mut i: usize = 0;
    while i < set.len()
        invariant
            i <= set@.len(),
            1 <= die <= 6,
            all_valid(set@),
            nodup(out@),
            all_valid(out@),
            forall|q: Position| out@.contains(q) <==> exists|j: int|
                0 <= j < i && one_die_legal(set@[j], die, q),
        decreases set@.len() - i,
    {
        let ghost before = out@;
        proof {
            assert(forall|q: Position| before.contains(q) <==> exists|j: int|
                0 <= j < i && one_die_legal(set@[j], die, q));
        }
        let pos = set[i];
        proof {
            assert(set@[i as int].is_valid_spec());
        }
        let moves = generate_one_die_moves(&pos, die);
        out = union_pos(out, &moves);
        let ghost ii = i as int;
        i = i + 1;
        proof {
            assert forall|q: Position| out@.contains(q) <==> exists|j: int|
                0 <= j < i && one_die_legal(set@[j], die, q) by {
                if out@.contains(q) {
                    if before.contains(q) {
                        let j = choose|j: int| 0 <= j < ii && one_die_legal(set@[j], die, q);
                        assert(0 <= j < i && one_die_legal(set@[j], die, q));
                    } else {
                        assert(moves@.contains(q));
                        assert(one_die_legal(set@[ii], die, q));
                        assert(0 <= ii < i);
                    }
                }
                if exists|j: int| 0 <= j < i && one_die_legal(set@[j], die, q) {
                    let j = choose|j: int| 0 <= j < i && one_die_legal(set@[j], die, q);
                    if j < ii {
                        assert(before.contains(q));
                    } else {
                        assert(j == ii);
                        assert(moves@.contains(q));
                    }
                    assert(out@.contains(q));
                }
            }
        }
    }
    proof {
        assert forall|q: Position| out@.contains(q) <==> exists|i2: int|
            0 <= i2 < set@.len() && one_die_legal(set@[i2], die, q) by {
            assert(out@.contains(q) <==> exists|j: int|
                0 <= j < i && one_die_legal(set@[j], die, q));
        }
    }
    out
}

/// A set characterized by two uses of the die, expanded by one more use,
/// is characterized by three uses.
proof fn lemma_chain3_step(p: Position, die: u8, prevs: Seq<Position>, nexts: Seq<Position>)
    requires
        forall|m: Position| prevs.contains(m) <==> chain2_legal(p, die, m),
        forall|q: Position| nexts.contains(q) <==> exists|i: int|
            0 <= i < prevs.len() && one_die_legal(prevs[i], die, q),
    ensures
        forall|q: Position| nexts.contains(q) <==> chain3_legal(p, die, q),
{
    assert forall|q: Position| nexts.contains(q) <==> chain3_legal(p, die, q) by {
        if nexts.contains(q) {
            let i = choose|i: int| 0 <= i < prevs.len() && one_die_legal(prevs[i], die, q);
            let m = prevs[i];
            assert(prevs.contains(m));
            assert(chain2_legal(p, die, m) && one_die_legal(m, die, q));
            assert(chain3_legal(p, die, q));
        }
        if chain3_legal(p, die, q) {
            let m = choose|m: Position|
                #[trigger] chain2_legal(p, die, m) && one_die_legal(m, die, q);
            assert(prevs.contains(m));
            let i = choose|i: int| 0 <= i < prevs.len() && prevs[i] == m;
            assert(one_die_legal(prevs[i], die, q));
            assert(nexts.contains(q));
        }
    }
}

/// A set characterized by three uses of the die, expanded by one more use,
/// is characterized by four uses.
proof fn lemma_chain4_step(p: Position, die: u8, prevs: Seq<Position>, nexts: Seq<Position>)
    requires
        forall|m: Position| prevs.contains(m) <==> chain3_legal(p, die, m),
        forall|q: Position| nexts.contains(q) <==> exists|i: int|
            0 <= i < prevs.len() && one_die_legal(prevs[i], die, q),
    ensures
        forall|q: Position| nexts.contains(q) <==> chain4_legal(p, die, q),
{
    assert forall|q: Position| nexts.contains(q) <==> chain4_legal(p, die, q) by {
        if nexts.contains(q) {
            let i = choose|i: int| 0 <= i < prevs.len() && one_die_legal(prevs[i], die, q);
            let m = prevs[i];
            assert(prevs.contains(m));
            assert(chain3_legal(p, die, m) && one_die_legal(m, die, q));
            assert(chain4_legal(p, die, q));
        }
        if chain4_legal(p, die, q) {
            let m = choose|m: Position|
                #[trigger] chain3_legal(p, die, m) && one_die_legal(m, die, q);
            assert(prevs.contains(m));
            let i = choose|i: int| 0 <= i < prevs.len() && prevs[i] == m;
            assert(one_die_legal(prevs[i], die, q));
            assert(nexts.contains(q));
        }
    }
}

/// Longer chains need shorter ones: each emptiness propagates upward.
proof fn lemma_no_one_no_chain2(p: Position, die: u8)
    requires
        !some_one(p, die),
    ensures
        !some_chain2(p, die),
{
    if some_chain2(p, die) {
        let q = choose|q: Position| #[trigger] chain2_legal(p, die, q);
        let m = choose|m: Position|
            #[trigger] one_die_legal(p, die, m) && one_die_legal(m, die, q);
        assert(one_die_legal(p, die, m));
        assert(some_one(p, die));
    }
}

proof fn lemma_no_chain2_no_chain3(p: Position, die: u8)
    requires
        !some_chain2(p, die),
    ensures
        !some_chain3(p, die),
{
    if some_chain3(p, die) {
        let q = choose|q: Position| #[trigger] chain3_legal(p, die, q);
        let m = choose|m: Position|
            #[trigger] chain2_legal(p, die, m) && one_die_legal(m, die, q);
        assert(chain2_legal(p, die, m));
        assert(some_chain2(p, die));
    }
}

proof fn lemma_no_chain3_no_chain4(p: Position, die: u8)
    requires
        !some_chain3(p, die),
    ensures
        !some_chain4(p, die),
{
    if some_chain4(p, die) {
        let q = choose|q: Position| #[trigger] chain4_legal(p, die, q);
        let m = choose|m: Position|
            #[trigger] chain3_legal(p, die, m) && one_die_legal(m, die, q);
        assert(chain3_legal(p, die, m));
        assert(some_chain3(p, die));
    }
}

/// A set characterized by one use of `d1`, expanded by one use of `d2`,
/// is characterized by the two-die sequences.
proof fn lemma_seq2_step(p: Position, d1: u8, d2: u8, firsts: Seq<Position>, seconds: Seq<Position>)
    requires
        forall|m: Position| firsts.contains(m) <==> one_die_legal(p, d1, m),
        forall|q: Position| seconds.contains(q) <==> exists|i: int|
            0 <= i < firsts.len() && one_die_legal(firsts[i], d2, q),
    ensures
        forall|q: Position| seconds.contains(q) <==> seq2_legal(p, d1, d2, q),
{
    assert forall|q: Position| seconds.contains(q) <==> seq2_legal(p, d1, d2, q) by {
        if seconds.contains(q) {
            let i = choose|i: int| 0 <= i < firsts.len() && one_die_legal(firsts[i], d2, q);
            let m = firsts[i];
            assert(firsts.contains(m));
            assert(one_die_legal(p, d1, m) && one_die_legal(m, d2, q));
            assert(seq2_legal(p, d1, d2, q));
        }
        if seq2_legal(p, d1, d2, q) {
            let m = choose|m: Position|
                #[trigger] one_die_legal(p, d1, m) && one_die_legal(m, d2, q);
            assert(firsts.contains(m));
            let i = choose|i: int| 0 <= i < firsts.len() && firsts[i] == m;
            assert(one_die_legal(firsts[i], d2, q));
            assert(seconds.contains(q));
        }
    }
}

/// One legal use of a die keeps the board invariants, never changes the
/// opponent's borne-off count, and raises the mover's by at most one.
pub proof fn lemma_one_die_step(p: Position, die: u8, q: Position)
    requires
        p.is_valid_spec(),
        1 <= die <= 6,
        one_die_legal(p, die, q),
    ensures
        q.is_valid_spec(),
        q.x_home == p.x_home,
        p.o_home <= q.o_home <= p.o_home + 1,
{
    crate::position::lemma_count_sum_bounds(p.o_points@);
    if one_die_entry_legal(p, die) && q == p.o_enter_result(24 - die) {
        crate::position::lemma_o_enter_result_valid(p, 24 - die);
    } else if exists|from: int|
        one_die_move_legal(p, die, from) && q == #[trigger] p.o_move_result(from, from - die) {
        let from = choose|from: int|
            one_die_move_legal(p, die, from) && q == #[trigger] p.o_move_result(
                from,
                from - die,
            );
        crate::position::lemma_o_move_result_valid(p, from, from - die);
    } else {
        let from = choose|from: int|
            one_die_bear_off_legal(p, die, from) && q == #[trigger] p.o_bear_off_result(from);
        crate::position::lemma_o_bear_off_result_valid(p, from);
    }
}

/// Two uses in sequence raise the mover's borne-off count by at most two.
proof fn lemma_seq2_homes(p: Position, d1: u8, d2: u8, q: Position)
    requires
        p.is_valid_spec(),
        1 <= d1 <= 6,
        1 <= d2 <= 6,
        seq2_legal(p, d1, d2, q),
    ensures
        q.is_valid_spec(),
        q.x_home == p.x_home,
        p.o_home <= q.o_home <= p.o_home + 2,
{
    let m = choose|m: Position| #[trigger] one_die_legal(p, d1, m) && one_die_legal(m, d2, q);
    lemma_one_die_step(p, d1, m);
    lemma_one_die_step(m, d2, q);
}

/// Three uses in sequence raise the mover's borne-off count by at most
/// three.
proof fn lemma_chain3_homes(p: Position, die: u8, q: Position)
    requires
        p.is_valid_spec(),
        1 <= die <= 6,
        chain3_legal(p, die, q),
    ensures
        q.is_valid_spec(),
        q.x_home == p.x_home,
        p.o_home <= q.o_home <= p.o_home + 3,
{
    let m = choose|m: Position| #[trigger] chain2_legal(p, die, m) && one_die_legal(m, die, q);
    lemma_seq2_homes(p, die, die, m);
    lemma_one_die_step(m, die, q);
}

/// Four uses in sequence raise the mover's borne-off count by at most four.
proof fn lemma_chain4_homes(p: Position, die: u8, q: Position)
    requires
        p.is_valid_spec(),
        1 <= die <= 6,
        chain4_legal(p, die, q),
    ensures
        q.is_valid_spec(),
        q.x_home == p.x_home,
        p.o_home <= q.o_home <= p.o_home + 4,
{
    let m = choose|m: Position| #[trigger] chain3_legal(p, die, m) && one_die_legal(m, die, q);
    lemma_chain3_homes(p, die, m);
    lemma_one_die_step(m, die, q);
}

/// A full turn of the mover keeps the board invariants, never changes the
/// opponent's borne-off count, and raises the mover's by at most four.
pub proof fn lemma_o_turn_step(p: Position, dice: Dice, q: Position)
    requires
        p.is_valid_spec(),
        dice.is_valid_spec(),
        o_turn_legal(p, dice, q),
    ensures
        q.is_valid_spec(),
        q.x_home == p.x_home,
        p.o_home <= q.o_home <= p.o_home + 4,
{
    let d1 = dice.first;
    let d2 = dice.second;
    if d1 == d2 {
        if some_chain4(p, d1) {
            lemma_chain4_homes(p, d1, q);
        } else if some_chain3(p, d1) {
            lemma_chain3_homes(p, d1, q);
        } else if some_chain2(p, d1) {
            lemma_seq2_homes(p, d1, d1, q);
        } else {
            lemma_one_die_step(p, d1, q);
        }
    } else {
        if some_seq2(p, d1, d2) || some_seq2(p, d2, d1) {
            if seq2_legal(p, d1, d2, q) {
                lemma_seq2_homes(p, d1, d2, q);
            } else {
                lemma_seq2_homes(p, d2, d1, q);
            }
        } else if some_one(p, d1) {
            lemma_one_die_step(p, d1, q);
        } else {
            lemma_one_die_step(p, d2, q);
        }
    }
}

/// A full turn of the opponent keeps the board invariants, never changes
/// the mover's borne-off count, and raises the opponent's by at most four.
pub proof fn lemma_x_turn_step(p: Position, dice: Dice, q: Position)
    requires
        p.is_valid_spec(),
        dice.is_valid_spec(),
        x_turn_legal(p, dice, q),
    ensures
        q.is_valid_spec(),
        q.o_home == p.o_home,
        p.x_home <= q.x_home <= p.x_home + 4,
{
    let (pf, qf) = choose|pf: Position, qf: Position|
        is_flip_of(pf, p) && is_flip_of(qf, q) && #[trigger] o_turn_legal(pf, dice, qf);
    crate::position::lemma_flip_valid(p, pf);
    lemma_o_turn_step(pf, dice, qf);
    crate::position::lemma_flip_symmetric(qf, q);
    crate::position::lemma_flip_valid(qf, q);
}

/// A side with all fifteen checkers borne off has no legal turn left.
pub proof fn lemma_no_turn_when_borne_off(p: Position, dice: Dice)
    requires
        p.is_valid_spec(),
        p.o_home == 15,
    ensures
        forall|q: Position| !o_turn_legal(p, dice, q),
{
    crate::position::lemma_count_sum_bounds(p.o_points@);
    assert(p.o_bar == 0);
    assert forall|i: int| 0 <= i < 24 implies p.o_points[i] == 0 by {
        crate::position::lemma_count_sum_element(p.o_points@, i);
    }
    assert forall|d: u8, q2: Position| !(#[trigger] one_die_legal(p, d, q2)) by {
        assert(p.o_bar == 0);
    }
    let d1 = dice.first;
    let d2 = dice.second;
    assert(!some_one(p, d1)) by {
        if some_one(p, d1) {
            let q2 = choose|q2: Position| #[trigger] one_die_legal(p, d1, q2);
        }
    }
    assert(!some_one(p, d2)) by {
        if some_one(p, d2) {
            let q2 = choose|q2: Position| #[trigger] one_die_legal(p, d2, q2);
        }
    }
    assert(!some_seq2(p, d1, d2)) by {
        if some_seq2(p, d1, d2) {
            let q2 = choose|q2: Position| #[trigger] seq2_legal(p, d1, d2, q2);
            let m = choose|m: Position|
                #[trigger] one_die_legal(p, d1, m) && one_die_legal(m, d2, q2);
        }
    }
    assert(!some_seq2(p, d2, d1)) by {
        if some_seq2(p, d2, d1) {
            let q2 = choose|q2: Position| #[trigger] seq2_legal(p, d2, d1, q2);
            let m = choose|m: Position|
                #[trigger] one_die_legal(p, d2, m) && one_die_legal(m, d1, q2);
        }
    }
    lemma_no_one_no_chain2(p, d1);
    lemma_no_chain2_no_chain3(p, d1);
    lemma_no_chain3_no_chain4(p, d1);
}

/// All distinct positions reachable by a legal full turn of the mover.
pub fn generate_o_moves(position: &Position, dice: &Dice) -> (r: Vec<Position>)
    requires
        position.is_valid_spec(),
        dice.is_valid_spec(),
    ensures
        forall|q: Position| r@.contains(q) <==> o_turn_legal(*position, *dice, q),
        nodup(r@),
        all_valid(r@),
{
    let ghost p = *position;
    if dice.is_double() {
        let die = dice.high();
        let raw1 = generate_one_die_moves(position, die);
        let s1 = union_pos(Vec::new(), &raw1);
        proof {
            assert forall|q: Position| s1@.contains(q) <==> one_die_legal(p, die, q) by {
                assert(!Seq::<Position>::empty().contains(q));
            }
        }
        if s1.len() == 0 {
            proof {
                assert(!some_one(p, die)) by {
                    if some_one(p, die) {
                        let q = choose|q: Position| #[trigger] one_die_legal(p, die, q);
                        assert(s1@.contains(q));
                    }
                }
                lemma_no_one_no_chain2(p, die);
                lemma_no_chain2_no_chain3(p, die);
                lemma_no_chain3_no_chain4(p, die);
            }
            return s1;
        }
        let s2 = expand_one_die(&s1, die);
        proof {
            lemma_seq2_step(p, die, die, s1@, s2@);
        }
        if s2.len() == 0 {
            proof {
                assert(!some_chain2(p, die)) by {
                    if some_chain2(p, die) {
                        let q = choose|q: Position| #[trigger] chain2_legal(p, die, q);
                        assert(s2@.contains(q));
                    }
                }
                lemma_no_chain2_no_chain3(p, die);
                lemma_no_chain3_no_chain4(p, die);
            }
            return s1;
        }
        let s3 = expand_one_die(&s2, die);
        proof {
            lemma_chain3_step(p, die, s2@, s3@);
        }
        if s3.len() == 0 {
            proof {
                assert(!some_chain3(p, die)) by {
                    if some_chain3(p, die) {
                        let q = choose|q: Position| #[trigger] chain3_legal(p, die, q);
                        assert(s3@.contains(q));
                    }
                }
                lemma_no_chain3_no_chain4(p, die);
                assert(s2@.contains(s2@[0]));
                assert(chain2_legal(p, die, s2@[0]));
                assert(some_chain2(p, die));
            }
            return s2;
        }
        let s4 = expand_one_die(&s3, die);
        proof {
            lemma_chain4_step(p, die, s3@, s4@);
        }
        if s4.len() == 0 {
            proof {
                assert(!some_chain4(p, die)) by {
                    if some_chain4(p, die) {
                        let q = choose|q: Position| #[trigger] chain4_legal(p, die, q);
                        assert(s4@.contains(q));
                    }
                }
                assert(s3@.contains(s3@[0]));
                assert(chain3_legal(p, die, s3@[0]));
                assert(some_chain3(p, die));
            }
            return s3;
        }
        proof {
            assert(s4@.contains(s4@[0]));
            assert(chain4_legal(p, die, s4@[0]));
            assert(some_chain4(p, die));
        }
        s4
    } else {
        let high = dice.high();
        let low = dice.low();
        let high_raw = generate_one_die_moves(position, high);
        let low_raw = generate_one_die_moves(position, low);
        let hl = expand_one_die(&high_raw, low);
        let lh = expand_one_die(&low_raw, high);
        proof {
            lemma_seq2_step(p, high, low, high_raw@, hl@);
            lemma_seq2_step(p, low, high, low_raw@, lh@);
        }
        let both = union_pos(Vec::new(), &hl);
        let both = union_pos(both, &lh);
        proof {
            assert forall|q: Position| both@.contains(q) <==> seq2_legal(p, high, low, q)
                || seq2_legal(p, low, high, q) by {
                assert(!Seq::<Position>::empty().contains(q));
            }
        }
        if both.len() > 0 {
            proof {
                assert(both@.contains(both@[0]));
                assert(seq2_legal(p, high, low, both@[0]) || seq2_legal(p, low, high, both@[0]));
                assert(some_seq2(p, high, low) || some_seq2(p, low, high));
            }
            both
        } else {
            proof {
                assert(!some_seq2(p, high, low)) by {
                    if some_seq2(p, high, low) {
                        let q = choose|q: Position| #[trigger] seq2_legal(p, high, low, q);
                        assert(both@.contains(q));
                    }
                }
                assert(!some_seq2(p, low, high)) by {
                    if some_seq2(p, low, high) {
                        let q = choose|q: Position| #[trigger] seq2_legal(p, low, high, q);
                        assert(both@.contains(q));
                    }
                }
            }
            if high_raw.len() > 0 {
                let r = union_pos(Vec::new(), &high_raw);
                proof {
                    assert(high_raw@.contains(high_raw@[0]));
                    assert(one_die_legal(p, high, high_raw@[0]));
                    assert(some_one(p, high));
                    assert forall|q: Position| r@.contains(q) <==> o_turn_legal(p, *dice, q) by {
                        assert(!Seq::<Position>::empty().contains(q));
                    }
                }
                r
            } else {
                let r = union_pos(Vec::new(), &low_raw);
                proof {
                    assert(!some_one(p, high)) by {
                        if some_one(p, high) {
                            let q = choose|q: Position| #[trigger] one_die_legal(p, high, q);
                            assert(high_raw@.contains(q));
                        }
                    }
                    assert forall|q: Position| r@.contains(q) <==> o_turn_legal(p, *dice, q) by {
                        assert(!Seq::<Position>::empty().contains(q));
                    }
                }
                r
            }
        }
    }
}

/// All distinct positions reachable by a legal full turn of the opponent.
pub fn generate_x_moves(position: &Position, dice: &Dice) -> (r: Vec<Position>)
    requires
        position.is_valid_spec(),
        dice.is_valid_spec(),
    ensures
        forall|q: Position| r@.contains(q) <==> x_turn_legal(*position, *dice, q),
        nodup(r@),
        all_valid(r@),
{
    let ghost p = *position;
    let flipped = position.flip();
    let o_moves = generate_o_moves(&flipped, dice);
    let ghost pf = flipped;
    let mut out: Vec<Position> = Vec::new();
    let mut i: usize = 0;
    while i < o_moves.len()
        invariant
            i <= o_moves@.len(),
            out@.len() == i,
            forall|j: int| 0 <= j < i ==> is_flip_of(#[trigger] out@[j], o_moves@[j]),
            all_valid(o_moves@),
            all_valid(out@),
        decreases o_moves@.len() - i,
    {
        proof {
            assert(o_moves@[i as int].is_valid_spec());
        }
        let f = o_moves[i].flip();
        out.push(f);
        i = i + 1;
    }
    proof {
        crate::position::lemma_flip_symmetric(pf, p);
        assert forall|q: Position| out@.contains(q) <==> x_turn_legal(p, *dice, q) by {
            if out@.contains(q) {
                let j = choose|j: int| 0 <= j < out@.len() && out@[j] == q;
                let qf = o_moves@[j];
                assert(is_flip_of(q, qf));
                crate::position::lemma_flip_symmetric(q, qf);
                assert(o_moves@.contains(qf));
                assert(o_turn_legal(pf, *dice, qf));
                assert(is_flip_of(pf, p) && is_flip_of(qf, q) && o_turn_legal(pf, *dice, qf));
            }
            if x_turn_legal(p, *dice, q) {
                let (pf2, qf2) = choose|pf2: Position, qf2: Position|
                    is_flip_of(pf2, p) && is_flip_of(qf2, q) && #[trigger] o_turn_legal(
                        pf2,
                        *dice,
                        qf2,
                    );
                crate::position::lemma_flip_unique(pf2, pf, p);
                assert(o_turn_legal(pf, *dice, qf2));
                assert(o_moves@.contains(qf2));
                let j = choose|j: int| 0 <= j < o_moves@.len() && o_moves@[j] == qf2;
                assert(is_flip_of(out@[j], qf2));
                crate::position::lemma_flip_symmetric(qf2, q);
                crate::position::lemma_flip_unique(out@[j], q, qf2);
                assert(out@[j] == q);
                assert(out@.contains(q));
            }
        }
        assert forall|a: int, b: int| 0 <= a < b < out@.len() implies out@[a] != out@[b] by {
            if out@[a] == out@[b] {
                crate::position::lemma_flip_symmetric(out@[a], o_moves@[a]);
                crate::position::lemma_flip_symmetric(out@[b], o_moves@[b]);
                assert(is_flip_of(o_moves@[a], out@[a]));
                assert(is_flip_of(o_moves@[b], out@[a]));
                crate::position::lemma_flip_unique(o_moves@[a], o_moves@[b], out@[a]);
            }
        }
    }
    out
}

} // verus!
