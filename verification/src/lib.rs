//! Backgammon core: immutable board positions, canonically ordered dice,
//! exhaustive legal-move generation, and random-play rollout statistics.

pub mod dice;
pub mod game;
pub mod movegen;
pub mod moves;
pub mod position;
pub mod rng;
pub mod rollout;
