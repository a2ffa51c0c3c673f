//! The board: the playfield with its rim, in one of two phases.
//!
//! A board that takes a tile answers whether a tile fits and freezes a tile
//! into its cells. Freezing turns it into a board that processes its rows, one
//! step at a time, until it takes a tile again.

use super::branch::Branch;
use super::raster::{Active, Passive, Rasterization};
use super::sealed::Seal;
use crate::geometry::grid::{ExtGrid, Grid};
use crate::geometry::tile::{vacant, Discrete2DSet};
use vstd::prelude::*;

verus! {

// The dimensions of a board are fixed: its grids are packed into machine words.
pub const BOARD_ROWS: usize = 5;

pub const BOARD_COLS: usize = 5;

pub trait State: Seal {

}

#[derive(Debug)]
pub struct TakesTile;

impl Seal for TakesTile {

}

impl State for TakesTile {

}

#[derive(Debug)]
pub struct ProcessesRows {
    /// 1-indexed: the row of the board's grid that is examined next.
    current: usize,
}

impl ProcessesRows {
    /// The row under examination is a row of the playfield.
    #[verifier::type_invariant]
    pub closed spec fn in_playfield(&self) -> bool {
        1 <= self.current <= BOARD_ROWS
    }

    /// The row under examination, counted from 1 at the bottom.
    pub closed spec fn row(&self) -> int {
        self.current as int
    }

    fn new(current: usize) -> (state: Self)
        requires
            1 <= current <= BOARD_ROWS,
        ensures
            state.row() == current,
    {
        Self { current }
    }
}

impl Seal for ProcessesRows {

}

impl State for ProcessesRows {

}

impl Default for ProcessesRows {
    fn default() -> (state: Self)
        ensures
            state.row() == 1,
    {
        Self::new(1)
    }
}

#[derive(Debug)]
pub enum BoardError {
    InvalidPosition,
}

#[derive(Debug)]
pub struct Board<S> {
    state: S,
    grid: ExtGrid,
}

/// Whether every cell of the playfield in row `row` of `cells` is set.
pub open spec fn row_full(cells: Set<(int, int)>, row: int) -> bool {
    forall|col: int| 1 <= col <= 5 ==> cells.contains((row, col))
}

/// Whether no cell of the playfield in row `row` of `cells` is set.
pub open spec fn row_empty(cells: Set<(int, int)>, row: int) -> bool {
    forall|col: int| 1 <= col <= 5 ==> !cells.contains((row, col))
}

/// The cells of a board after row `row` has been cleared: the rows of the
/// playfield above it have moved down by one, its top row is empty, and the rim
/// stands.
pub open spec fn collapsed(cells: Set<(int, int)>, row: int) -> Set<(int, int)> {
    Set::new(
        |p: (int, int)|
            ExtGrid::on_rim(p) || (ExtGrid::in_window(p) && if p.0 < row {
                cells.contains(p)
            } else {
                p.0 < 5 && cells.contains((p.0 + 1, p.1))
            }),
    )
}

/// One for a row of the playfield that holds a set cell, none for an empty row.
pub open spec fn row_weight(cells: Set<(int, int)>, row: int) -> int {
    if row_empty(cells, row) {
        0
    } else {
        1
    }
}

/// Row by row, what clearing a row does to the rows of the playfield.
proof fn lemma_collapsed_rows(cells: Set<(int, int)>, row: int)
    requires
        1 <= row <= 5,
    ensures
        forall|r: int| 1 <= r < row ==> row_empty(collapsed(cells, row), r) == row_empty(cells, r),
        forall|r: int|
            row <= r < 5 ==> row_empty(collapsed(cells, row), r) == row_empty(cells, r + 1),
        row_empty(collapsed(cells, row), 5),
{
    let after = collapsed(cells, row);
    assert forall|r: int| 1 <= r < row implies row_empty(after, r) == row_empty(cells, r) by {
        if row_empty(cells, r) {
            assert forall|col: int| 1 <= col <= 5 implies !after.contains((r, col)) by {
                assert(!cells.contains((r, col)));
            }
        }
        if row_empty(after, r) {
            assert forall|col: int| 1 <= col <= 5 implies !cells.contains((r, col)) by {
                assert(!after.contains((r, col)));
            }
        }
    }
    assert forall|r: int| row <= r < 5 implies row_empty(after, r) == row_empty(cells, r + 1) by {
        let above = r + 1;
        if row_empty(cells, above) {
            assert forall|col: int| 1 <= col <= 5 implies !after.contains((r, col)) by {
                assert(!cells.contains((above, col)));
            }
        }
        if row_empty(after, r) {
            assert forall|col: int| 1 <= col <= 5 implies !cells.contains((above, col)) by {
                assert(!after.contains((r, col)));
            }
        }
    }
}

impl<S> Board<S> {
    /// The cells of the board that are set, rim included, as `(row, col)`
    /// pairs of its seven by seven grid.
    pub closed spec fn cells(&self) -> Set<(int, int)> {
        self.grid@
    }

    /// The rim is part of every board.
    #[verifier::type_invariant]
    pub open spec fn rimmed(&self) -> bool {
        ExtGrid::rim_cells().subset_of(self.cells())
    }

    /// The phase that the board is in.
    pub closed spec fn phase(&self) -> S {
        self.state
    }

    /// The settled cells, as cells of the playfield.
    pub open spec fn playfield(&self) -> Set<(int, int)> {
        ExtGrid::center_of(self.cells())
    }

    /// The grid of the board, rim included.
    pub fn grid(&self) -> (grid: &ExtGrid)
        ensures
            grid@ == self.cells(),
            ExtGrid::rim_cells().subset_of(grid@),
    {
        proof {
            use_type_invariant(self);
        }
        &self.grid
    }
}

impl Board<TakesTile> {
    /// Whether the tile can be where it is: it shows in the window of the
    /// board, unless it has no points at all, and no cell that it covers is
    /// set or lies on the rim. The rim is set on every board, so that one test
    /// for set cells answers both.
    pub open spec fn admits<T: Discrete2DSet>(&self, tile: &T) -> bool {
        &&& vacant(tile) || ExtGrid::covered_by(tile) != Set::<(int, int)>::empty()
        &&& ExtGrid::covered_by(tile).disjoint(self.cells())
        &&& ExtGrid::covered_by(tile).disjoint(ExtGrid::rim_cells())
    }

    #[must_use]
    pub fn new() -> (board: Self)
        ensures
            board.cells() == ExtGrid::rim_cells(),
    {
        Self { state: TakesTile {  }, grid: ExtGrid::rim() }
    }

    #[must_use]
    pub fn is_position_valid<T>(&self, tile: &T) -> (valid: bool) where T: Discrete2DSet
        requires
            ExtGrid::reaches(tile),
        ensures
            valid == self.admits(tile),
    {
        proof {
            use_type_invariant(self);
        }
        if let Ok(raster) = ExtGrid::try_from_discrete_2d_set(tile) {
            !self.grid.overlaps(&raster)
        } else {
            false
        }
    }

    /// # Errors
    ///
    /// Returns [`BoardError::InvalidPosition`] iff the specified tile overlaps with occupied
    /// cells.
    pub fn freeze_tile<T>(self, tile: T) -> (frozen: Result<Board<ProcessesRows>, BoardError>) where
        T: Discrete2DSet,

        requires
            ExtGrid::reaches(&tile),
        ensures
            match frozen {
                Ok(board) => {
                    &&& self.admits(&tile)
                    &&& board.cells() == self.cells().union(ExtGrid::covered_by(&tile))
                    &&& self.cells().subset_of(board.cells())
                    &&& ExtGrid::rim_cells().subset_of(board.cells())
                    &&& board.current() == 1
                },
                Err(e) => !self.admits(&tile) && e == BoardError::InvalidPosition,
            },
    {
        if !self.is_position_valid(&tile) {
            return Err(BoardError::InvalidPosition);
        }
        Ok(self.freeze_tile_assume_valid(tile))
    }

    /// Freezes the tile without asking whether it fits: the cells that it
    /// covers are set, whatever was there.
    #[must_use]
    pub fn freeze_tile_assume_valid<T>(self, tile: T) -> (board: Board<ProcessesRows>) where
        T: Discrete2DSet,

        requires
            ExtGrid::reaches(&tile),
        ensures
            board.cells() == self.cells().union(ExtGrid::covered_by(&tile)),
            self.cells().subset_of(board.cells()),
            ExtGrid::rim_cells().subset_of(board.cells()),
            board.current() == 1,
    {
        proof {
            use_type_invariant(&self);
        }
        let raster = match ExtGrid::try_from_discrete_2d_set(&tile) {
            Ok(raster) => raster,
            Err(_) => ExtGrid::default(),
        };
        Board { state: ProcessesRows::default(), grid: self.grid.union(raster) }
    }
}

impl Default for Board<TakesTile> {
    fn default() -> (board: Self)
        ensures
            board.cells() == ExtGrid::rim_cells(),
    {
        Self::new()
    }
}

impl Rasterization<Passive> for Board<TakesTile> {
    /// All that has settled on the playfield.
    open spec fn layer(&self) -> Set<(int, int)> {
        self.playfield()
    }

    fn rasterize_buf(&self, out: &mut Grid) {
        *out = self.grid.clone().center();
    }
}

impl Board<ProcessesRows> {
    /// The row under examination, counted from 1 at the bottom of the
    /// playfield: a row of the board's grid.
    pub open spec fn current(&self) -> int {
        self.phase().row()
    }

    /// The cells of the board after the next step of the scan: the row under
    /// examination is cleared if it is full, and nothing changes if it is not.
    pub open spec fn cells_after_step(&self) -> Set<(int, int)> {
        if row_full(self.cells(), self.current()) {
            collapsed(self.cells(), self.current())
        } else {
            self.cells()
        }
    }

    /// The row to examine after the next step of the scan, or `None` where the
    /// scan ends with that step. After a full row has been cleared the same
    /// row is examined again, unless it is empty now: then the rows above are
    /// empty too, and the scan ends. After any other row the scan goes on with
    /// the row above, and ends at the top of the playfield.
    pub open spec fn row_after_step(&self) -> Option<int> {
        if row_full(self.cells(), self.current()) {
            if row_empty(collapsed(self.cells(), self.current()), self.current()) {
                None
            } else {
                Some(self.current())
            }
        } else if self.current() < BOARD_ROWS {
            Some(self.current() + 1)
        } else {
            None
        }
    }

    /// The board with the cells of `grid`, and with the rim, that is about to
    /// process its rows from the bottom row on.
    #[must_use]
    pub fn from_grid(grid: ExtGrid) -> (board: Self)
        ensures
            board.cells() == grid@.union(ExtGrid::rim_cells()),
            board.current() == 1,
    {
        Board { state: ProcessesRows::default(), grid: grid.union(ExtGrid::rim()) }
    }

    /// A bound on the steps that the scan has left: one for every row from
    /// the row under examination to the top of the playfield, and one for
    /// every row of the playfield that is not empty, as only such a row can be
    /// cleared. Every step that does not end the scan lowers the bound.
    pub open spec fn steps_bound(&self) -> int {
        BOARD_ROWS + 1 - self.current() + row_weight(self.cells(), 1) + row_weight(
            self.cells(),
            2,
        ) + row_weight(self.cells(), 3) + row_weight(self.cells(), 4) + row_weight(
            self.cells(),
            5,
        )
    }

    /// One step of the scan for full rows.
    #[must_use]
    pub fn process_row(self) -> (next: Branch<Board<ProcessesRows>, Board<TakesTile>>)
        ensures
            match next {
                Branch::Left(board) => {
                    &&& self.row_after_step() == Some(board.current())
                    &&& board.cells() == self.cells_after_step()
                    &&& ExtGrid::rim_cells().subset_of(board.cells())
                    &&& 1 <= board.current() <= BOARD_ROWS
                    &&& 1 <= board.steps_bound() < self.steps_bound()
                },
                Branch::Right(board) => {
                    &&& self.row_after_step() is None
                    &&& board.cells() == self.cells_after_step()
                    &&& ExtGrid::rim_cells().subset_of(board.cells())
                },
            },
    {
        proof {
            use_type_invariant(&self);
            use_type_invariant(&self.state);
        }
        let current = self.state.current;
        let row = ExtGrid::from(Grid::row(current - 1));
        assert(row@.subset_of(self.grid@) == row_full(self.grid@, current as int)) by {
            if row_full(self.grid@, current as int) {
                assert(row@.subset_of(self.grid@));
            }
            if row@.subset_of(self.grid@) {
                assert forall|col: int| 1 <= col <= 5 implies self.grid@.contains(
                    (current as int, col),
                ) by {
                    assert(Grid::row_cells(current - 1).contains((current - 1, col - 1)));
                    assert(row@.contains((current as int, col)));
                }
            }
        }

        // Check current row for being fully populated
        if self.grid.contains(&row) {
            // Move all rows by one and clear the topmost row
            let shifted = self.grid.center().discard_and_shift(current - 1).unwrap();
            // The row that used to be above might be fully populated, too: it
            // is examined next.
            let pruned = ExtGrid::from(shifted).union(ExtGrid::rim());
            assert(pruned@ =~= collapsed(self.grid@, current as int));
            proof {
                lemma_collapsed_rows(self.grid@, current as int);
                assert(self.grid@.contains((current as int, 1)));
            }
            assert(row@.disjoint(pruned@) == row_empty(pruned@, current as int)) by {
                if row_empty(pruned@, current as int) {
                    assert(row@.disjoint(pruned@));
                }
                if row@.disjoint(pruned@) {
                    assert forall|col: int| 1 <= col <= 5 implies !pruned@.contains(
                        (current as int, col),
                    ) by {
                        assert(Grid::row_cells(current - 1).contains((current - 1, col - 1)));
                        assert(row@.contains((current as int, col)));
                    }
                }
            }
            // Rows above an empty row are empty: nothing is left to examine.
            if !pruned.overlaps(&row) {
                Branch::Right(Board { state: TakesTile {  }, grid: pruned })
            } else {
                Branch::Left(Board { state: ProcessesRows::new(current), grid: pruned })
            }
        } else if current < BOARD_ROWS {
            Branch::Left(Board { state: ProcessesRows::new(current + 1), grid: self.grid })
        } else {
            Branch::Right(Board { state: TakesTile {  }, grid: self.grid })
        }
    }
}

impl Rasterization<Passive> for Board<ProcessesRows> {
    /// All that has settled on the playfield, but for the row under
    /// examination.
    open spec fn layer(&self) -> Set<(int, int)> {
        self.playfield().difference(Grid::row_cells(self.current() - 1))
    }

    fn rasterize_buf(&self, out: &mut Grid) {
        proof {
            use_type_invariant(&self.state);
        }
        *out = self.grid.clone().center().subtract(&Grid::row(self.state.current - 1));
    }
}

impl Rasterization<Active> for Board<ProcessesRows> {
    /// What has settled on the row under examination.
    open spec fn layer(&self) -> Set<(int, int)> {
        self.playfield().intersect(Grid::row_cells(self.current() - 1))
    }

    fn rasterize_buf(&self, out: &mut Grid) {
        proof {
            use_type_invariant(&self.state);
        }
        *out = self.grid.clone().center().intersect(&Grid::row(self.state.current - 1));
    }
}

} // verus!
