//! Rules engine of a sliding-tile merge puzzle on a square grid, with a
//! bounded undo history over successive grid snapshots.

pub mod chance;
pub mod grid;
pub mod laws;
pub mod tiles;
pub mod game;
pub mod game_state;
