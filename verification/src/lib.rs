//! A tic-tac-toe position model and an exact minimax evaluator, with
//! machine-checked contracts for every operation.

pub mod game;
pub mod search;
