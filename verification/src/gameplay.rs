//! The board and the game: two state machines whose phases are types.

pub mod board;
pub mod branch;
pub mod game;
pub mod raster;
mod sealed;
