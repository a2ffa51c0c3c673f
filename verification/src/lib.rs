//! Rules engine of a falling-tile puzzle played on a five by five playfield.
//!
//! [`geometry`] holds the tiles with their rotations and displacements and the
//! bit-packed grids that they are drawn on. [`gameplay`] holds the two state
//! machines built on top of them: the board, which takes a tile or processes
//! its rows, and the game, which leads a tile from its placement to the rows it
//! completes. [`rendering`] turns the layers that a board or a game shows into
//! rows of flags.
//!
//! Every function of the crate is verified against its contract. The
//! contracts speak of tiles as sets of points, of grids and boards as sets of
//! cells `(row, col)`, and of a game as a phase with a board, a tile and the
//! record of what it has signalled.

pub mod gameplay;
pub mod geometry;
pub mod rendering;
