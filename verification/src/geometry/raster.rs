//! Drawing a set of points as an array of flags.

use super::tile::Discrete2DSet;
use array_init::array_init;
use vstd::prelude::*;

verus! {

/// Builds an array with `array_init::array_init`.
///
/// Not proved, taken from the documentation of `array_init`: it calls the
/// initializer once for every index below `N`, from the lowest to the highest,
/// and stores what the call at index `i` returned at position `i`. The
/// initializer is a `Fn`, so every one of these calls is a call of the value
/// that was handed in.
#[verifier::external_body]
fn init_array<T, F: Fn(usize) -> T, const N: usize>(initializer: F) -> (array: [T; N])
    requires
        forall|i: usize| i < N ==> call_requires(initializer, (i,)),
    ensures
        forall|i: int| 0 <= i < N ==> call_ensures(initializer, (i as usize,), #[trigger] array[i]),
{
    array_init(initializer)
}

/// Shapes that can be drawn on `M` rows of `N` cells, row 0 first.
pub trait Rasterization<const M: usize, const N: usize> {
    /// Whether the shape covers the cell `col` of row `row`.
    spec fn covers(&self, row: int, col: int) -> bool;

    /// Whether every cell of the raster can be tested within the machine's
    /// integers.
    spec fn rasterizable(&self) -> bool;

    #[must_use]
    fn rasterize(&self) -> (raster: [[bool; N]; M])
        requires
            self.rasterizable(),
        ensures
            forall|row: int, col: int|
                0 <= row < M && 0 <= col < N ==> raster[row][col] == self.covers(row, col),
    ;
}

impl<const M: usize, const N: usize, T> Rasterization<M, N> for T where T: Discrete2DSet {
    /// The cell `col` of row `row` shows the point `(col, row)`.
    open spec fn covers(&self, row: int, col: int) -> bool {
        self.occupies(col, row)
    }

    open spec fn rasterizable(&self) -> bool {
        &&& M <= i32::MAX
        &&& N <= i32::MAX
        &&& forall|row: int, col: int|
            0 <= row < M && 0 <= col < N ==> self.within_reach(col, row)
    }

    fn rasterize(&self) -> (raster: [[bool; N]; M]) {
        let raster: [[bool; N]; M] = init_array(|r: usize| -> (row: [bool; N])
            requires r < M,
            ensures forall|c: int| 0 <= c < N ==> row[c] == self.occupies(c, r as int),
            {
                let row: [bool; N] = init_array(|c: usize| -> (b: bool)
                    requires c < N,
                    ensures b == self.occupies(c as int, r as int),
                    { self.contains(c as i32, r as i32) });
                row
            });
        raster
    }
}

} // verus!
