//! The two layers in which a board or a game shows itself.

use crate::geometry::grid::Grid;
use vstd::prelude::*;

verus! {

/// The layer of what is in motion: the falling tile, or the row under
/// examination while rows are processed.
pub struct Active;

/// The layer of everything else that has settled on the board.
pub struct Passive;

pub trait Rasterization<Role> {
    /// The cells of the playfield that belong to the layer `Role`.
    spec fn layer(&self) -> Set<(int, int)>;

    fn rasterize_buf(&self, out: &mut Grid)
        ensures
            final(out)@ == self.layer(),
    ;
}

pub trait RasterizationExt<Role> {
    /// The cells of the playfield that belong to the layer `Role`.
    spec fn raster(&self) -> Set<(int, int)>;

    fn rasterize(&self) -> (grid: Grid)
        ensures
            grid@ == self.raster(),
    ;
}

impl<Role, T> RasterizationExt<Role> for T where T: Rasterization<Role> {
    open spec fn raster(&self) -> Set<(int, int)> {
        self.layer()
    }

    fn rasterize(&self) -> (grid: Grid) {
        let mut grid = Grid::default();
        self.rasterize_buf(&mut grid);
        assert(self.raster() == self.layer());
        grid
    }
}

} // verus!
