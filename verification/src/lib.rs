//! Rules engine and search players for a two-player Jungle chess variant
//! on a 9 x 7 grid: board state with legal-move generation, incremental
//! position hashing, move/undo history, a negamax alpha-beta searcher and
//! a Monte-Carlo tree-search player built on the same board primitives.

pub mod board;
pub mod chess;
pub mod player;
pub mod fen;
pub mod rules;
pub mod zobrist;
mod clock;
mod rng;
