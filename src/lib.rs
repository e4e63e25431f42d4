//! Tic-tac-toe game state and an exhaustive, memoised minimax player.
pub mod board;
pub mod engine;
