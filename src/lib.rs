//! Connect Four: a board model with gravity, terminal-state detection, a
//! window-based heuristic, and a depth-bounded minimax search with alpha-beta
//! pruning.

pub mod player;
pub mod grid;
pub mod board;
pub mod search;
pub mod laws;
pub mod random_play;
