//! Conway's Game of Life on a fixed rectangular grid, advanced one generation
//! at a time by a two-pass lane-wise neighbour count.

mod board;
mod engine;
mod lane;
mod random;
pub mod laws;
pub mod rules;

pub use board::{fits, Board, BoardSize};
pub use engine::{Life, LifeError};
