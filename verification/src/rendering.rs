//! Rendering the layers of a board or of a game into rows of flags.

use crate::gameplay::raster::{Rasterization, RasterizationExt};
use vstd::prelude::*;

pub use crate::gameplay::raster::{Active, Passive};

verus! {

/// Things that render the layer `T` of themselves into `M` rows of `N` flags,
/// row 0 first.
pub trait Rendering<const M: usize, const N: usize, T> {
    /// Whether the cell `col` of row `row` is set in the layer.
    spec fn shows(&self, row: int, col: int) -> bool;

    fn render_buf(&self, buffer: &mut [[bool; N]; M])
        ensures
            forall|row: int, col: int|
                0 <= row < M && 0 <= col < N ==> final(buffer)[row][col] == self.shows(row, col),
    ;
}

pub trait RenderingExt<const M: usize, const N: usize, T>: Rendering<M, N, T> {
    fn render(&self) -> (rendered: [[bool; N]; M])
        ensures
            forall|row: int, col: int|
                0 <= row < M && 0 <= col < N ==> rendered[row][col] == self.shows(row, col),
    ;
}

impl<const M: usize, const N: usize, R, T> RenderingExt<M, N, T> for R where R: Rendering<M, N, T> {
    fn render(&self) -> (rendered: [[bool; N]; M]) {
        let mut buf = [[false; N]; M];
        self.render_buf(&mut buf);
        buf
    }
}

/// Whatever shows a layer as a grid renders it into five rows of five flags.
impl<R, T> Rendering<5, 5, T> for R where R: Rasterization<T> {
    open spec fn shows(&self, row: int, col: int) -> bool {
        self.layer().contains((row, col))
    }

    fn render_buf(&self, buffer: &mut [[bool; 5]; 5]) {
        let grid = self.rasterize();
        assert(self.raster() == self.layer());
        for row in 0..5usize
            invariant
                grid@ == self.layer(),
                forall|r: int, c: int|
                    0 <= r < row && 0 <= c < 5 ==> buffer[r][c] == self.shows(r, c),
        {
            let mut flags = [false; 5];
            for col in 0..5usize
                invariant
                    row < 5,
                    grid@ == self.layer(),
                    forall|c: int| 0 <= c < col ==> flags[c] == self.shows(row as int, c),
            {
                flags[col] = grid.is_element_set(row, col).unwrap();
            }
            buffer[row] = flags;
        }
    }
}

} // verus!
