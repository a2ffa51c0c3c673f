//! Tiles as sets of integer points, and the bit-packed grids they are drawn on.

mod bits;
pub mod grid;
pub mod raster;
pub mod tile;
