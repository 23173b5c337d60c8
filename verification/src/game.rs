use vstd::prelude::*;

use crate::moves::Move;

verus! {

/// The turns of one game, each with the mover's move and then the
/// opponent's move, either of which may be absent.
#[derive(Debug)]
pub struct Game {
    pub turns: Vec<(Option<Move>, Option<Move>)>,
}

impl Game {
    pub fn make(turns: Vec<(Option<Move>, Option<Move>)>) -> (g: Game)
        ensures
            g.turns == turns,
    {
        Game { turns }
    }
}

/// A recorded match: a sequence of games.
#[derive(Debug)]
pub struct Match {
    pub games: Vec<Game>,
}

impl Match {
    pub fn make(games: Vec<Game>) -> (m: Match)
        ensures
            m.games == games,
    {
        Match { games }
    }
}

} // verus!
