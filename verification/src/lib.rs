//! A small chess engine: board model, pseudo-legal move generation driven by a
//! rank-scan "virtual reach" transform, a static evaluator, and a recursive
//! negamax search with heuristic pruning and move reordering.
pub mod board;
pub mod codec;
pub mod engine;
pub mod game;
pub mod evaluation;
pub mod moves;
pub mod position;
