use vstd::prelude::*;

use crate::dice::Dice;
use crate::movegen::generate_o_moves;
use crate::movegen::generate_x_moves;
use crate::movegen::lemma_no_turn_when_borne_off;
use crate::movegen::lemma_o_turn_step;
use crate::movegen::lemma_x_turn_step;
use crate::movegen::o_turn_legal;
use crate::movegen::x_turn_legal;
use crate::position::Position;
use crate::position::lemma_count_sum_bounds;

verus! {

/// Outcome counts over a batch of random games, each out of `rolls`
/// trials. A backgammon counts as a gammon, and a gammon as a win, so the
/// counts are nested.
#[derive(Clone, Copy, Debug, PartialEq, Eq, Structural)]
pub struct RolloutStats {
    pub rolls: u64,
    pub o_win: u64,
    pub o_gammon: u64,
    pub o_backgammon: u64,
    pub x_win: u64,
    pub x_gammon: u64,
    pub x_backgammon: u64,
}

pub const ROLLOUT_ROLLS: u64 = 1000;

/// Hard cap on the turns of a single simulated game. Random games end
/// within a few hundred turns, so the cap is never reached in practice; a
/// game cut off by it is scored as a plain win for the opponent.
pub const GAME_TURN_CAP: u64 = 100000;

/// Plays `ROLLOUT_ROLLS` independent random games from `position`, the
/// mover drawing first, each side picking uniformly among its legal turns,
/// and counts the outcomes. Every trial ends with exactly one winner, and
/// the gammon and backgammon counts refine the win counts. A start the
/// mover has already won is classified, not played, so its whole table is
/// fixed; a start the opponent has already won is scored for the opponent
/// whenever the mover cannot bear off its last five checkers in the single
/// turn it gets; and a side that has already borne a checker off can no
/// longer be gammoned, since borne-off counts never decrease.
pub fn rollout_o(position: &Position) -> (s: RolloutStats)
    requires
        position.is_valid_spec(),
    ensures
        s.rolls == ROLLOUT_ROLLS,
        s.o_win + s.x_win == s.rolls,
        s.o_backgammon <= s.o_gammon <= s.o_win,
        s.x_backgammon <= s.x_gammon <= s.x_win,
        position.o_has_won_spec() ==> s.o_win == s.rolls && s.x_win == 0 && s.o_gammon == (
        if position.o_has_gammoned_spec() {
            s.rolls
        } else {
            0u64
        }) && s.o_backgammon == (
        if position.o_has_backgammoned_spec() {
            s.rolls
        } else {
            0u64
        }),
        position.x_has_won_spec() && position.o_home <= 10 ==> s.x_win == s.rolls && s.o_win
            == 0,
        position.x_home >= 1 ==> s.o_gammon == 0,
        position.o_home >= 1 ==> s.x_gammon == 0,
{
    let mut o_wins: u64 = 0;
    let mut o_gammons: u64 = 0;
    let mut o_backgammons: u64 = 0;
    let mut x_wins: u64 = 0;
    let mut x_gammons: u64 = 0;
    let mut x_backgammons: u64 = 0;

    let ghost start = *position;
    let mut trial: u64 = 0;
    while trial < ROLLOUT_ROLLS
        invariant
            trial <= ROLLOUT_ROLLS,
            o_wins + x_wins == trial,
            o_backgammons <= o_gammons <= o_wins,
            x_backgammons <= x_gammons <= x_wins,
            position.is_valid_spec(),
            start == *position,
            start.o_has_won_spec() ==> o_wins == trial && x_wins == 0 && o_gammons == (
            if start.o_has_gammoned_spec() {
                trial
            } else {
                0u64
            }) && o_backgammons == (
            if start.o_has_backgammoned_spec() {
                trial
            } else {
                0u64
            }),
            start.x_has_won_spec() && start.o_home <= 10 ==> x_wins == trial && o_wins == 0,
            start.x_home >= 1 ==> o_gammons == 0,
            start.o_home >= 1 ==> x_gammons == 0,
        decreases ROLLOUT_ROLLS - trial,
    {
        let mut p = *position;
        let mut o_turn: bool = true;
        let mut turns_left: u64 = GAME_TURN_CAP;

        while turns_left > 0
            invariant_except_break
                position.is_valid_spec(),
                start == *position,
                p.is_valid_spec(),
                p.o_home >= start.o_home,
                p.x_home >= start.x_home,
                start.o_has_won_spec() ==> o_turn && p == start,
                start.x_has_won_spec() && start.o_home <= 10 ==> p == start,
            ensures
                p.is_valid_spec(),
                p.o_home >= start.o_home,
                p.x_home >= start.x_home,
                start.o_has_won_spec() ==> p == start,
                start.x_has_won_spec() && start.o_home <= 10 ==> p.x_home == 15 && p.o_home
                    < 15,
            decreases turns_left,
        {
            let roll = Dice::roll();

            let moves = if o_turn {
                proof {
                    if start.o_has_won_spec() {
                        lemma_no_turn_when_borne_off(p, roll);
                    }
                }
                generate_o_moves(&p, &roll)
            } else {
                generate_x_moves(&p, &roll)
            };

            if moves.len() > 0 {
                let idx = crate::rng::random_below(moves.len());
                proof {
                    let q = moves@[idx as int];
                    assert(moves@.contains(q));
                    if o_turn {
                        assert(o_turn_legal(p, roll, q));
                        lemma_o_turn_step(p, roll, q);
                    } else {
                        assert(x_turn_legal(p, roll, q));
                        lemma_x_turn_step(p, roll, q);
                    }
                    lemma_count_sum_bounds(q.o_points@);
                    lemma_count_sum_bounds(q.x_points@);
                }
                p = moves[idx];
            }

            if p.o_has_won() {
                break;
            }
            if p.x_has_won() {
                break;
            }

            o_turn = !o_turn;
            turns_left = turns_left - 1;
        }

        if p.o_has_won() {
            o_wins = o_wins + 1;
            if p.o_has_gammoned() {
                o_gammons = o_gammons + 1;
                if p.o_has_backgammoned() {
                    o_backgammons = o_backgammons + 1;
                }
            }
        } else {
            x_wins = x_wins + 1;
            if p.x_has_gammoned() {
                x_gammons = x_gammons + 1;
                if p.x_has_backgammoned() {
                    x_backgammons = x_backgammons + 1;
                }
            }
        }
        trial = trial + 1;
    }

    RolloutStats {
        rolls: ROLLOUT_ROLLS,
        o_win: o_wins,
        o_gammon: o_gammons,
        o_backgammon: o_backgammons,
        x_win: x_wins,
        x_gammon: x_gammons,
        x_backgammon: x_backgammons,
    }
}

} // verus!
