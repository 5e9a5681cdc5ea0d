//! A search engine for Breakthrough on an 8x8 board: bit-set positions and legal-move
//! generation, a static evaluator, a direct-mapped transposition table, and a
//! depth-bounded negamax search with alpha-beta pruning, each with its contract.

pub mod board;
pub mod evaluation;
pub mod game;
pub mod notation;
pub mod pruning;
pub mod random;
pub mod search;
pub mod table;
