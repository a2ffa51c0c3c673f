//! Bit-packed grids: the five by five playfield and the seven by seven grid
//! that surrounds it with a rim.
//!
//! Both grids are sets of cells. A cell is a pair `(row, col)`, row 0 at the
//! bottom, and the view of a grid is the set of its cells.

use super::bits::{
    bit32, bit64, lemma_bitwise32, lemma_bitwise64, lemma_covers32, lemma_covers64,
    lemma_low_half_bits, lemma_meets32, lemma_meets64, lemma_one_bit32, lemma_one_bit64,
    lemma_rim_mask_bits, lemma_row_mask_bits, lemma_same32, lemma_same64, lemma_widened_bits,
    lemma_without_row_bits, lemma_zero32, lemma_zero64, rim_mask, row_mask, rows_above_mask,
    rows_below_mask, without_row,
};
use super::tile::{vacant, Discrete2DSet};
use vstd::prelude::*;

verus! {

#[derive(Debug)]
pub enum GridError {
    /// Access using invalid index `(row, col)`
    InvalidIndex(Option<usize>, Option<usize>),
    /// Non-empty set lead to an empty grid representation
    EmptyIntersection,
}

/// 5 by 5 grid encoded in an `u32`
#[derive(Debug, PartialEq, Eq, Structural)]
pub struct Grid(u32);

impl View for Grid {
    type V = Set<(int, int)>;

    /// The cells that are set, as `(row, col)` pairs.
    closed spec fn view(&self) -> Set<(int, int)> {
        Set::new(|p: (int, int)| Grid::in_playfield(p) && bit32(self.0, Grid::index_of(p)))
    }
}

impl Clone for Grid {
    fn clone(&self) -> (grid: Self)
        ensures
            grid == *self,
    {
        proof {
            use_type_invariant(self);
        }
        Grid(self.0)
    }
}

impl Default for Grid {
    fn default() -> (grid: Self)
        ensures
            grid@ == Set::<(int, int)>::empty(),
    {
        proof {
            lemma_bitwise32(0, 0);
        }
        Self::new(0)
    }
}

impl Grid {
    pub const NUM_ROWS: usize = 5;

    pub const NUM_COLS: usize = 5;

    const R0_RAW: u32 = 0x0000_001f;

    const R1_RAW: u32 = 0x0000_03e0;

    const R2_RAW: u32 = 0x0000_7c00;

    const R3_RAW: u32 = 0x000f_8000;

    const R4_RAW: u32 = 0x01f0_0000;

    /// Whether `p` is a cell of the playfield.
    pub open spec fn in_playfield(p: (int, int)) -> bool {
        0 <= p.0 < 5 && 0 <= p.1 < 5
    }

    /// Cells are encoded row major.
    pub open spec fn index_of(p: (int, int)) -> int {
        p.0 * 5 + p.1
    }

    /// Only the bits that stand for cells are ever set.
    #[verifier::type_invariant]
    pub closed spec fn well_formed(&self) -> bool {
        forall|i: int| bit32(self.0, i) ==> i < 25
    }

    /// The five cells of a row.
    pub open spec fn row_cells(row: int) -> Set<(int, int)> {
        Set::new(|p: (int, int)| Grid::in_playfield(p) && p.0 == row)
    }

    proof fn lemma_cell_of_index(i: int)
        requires
            0 <= i < 25,
        ensures
            Grid::in_playfield((i / 5, i % 5)),
            Grid::index_of((i / 5, i % 5)) == i,
    {
    }

    /// A grid holds cells of the playfield only.
    pub proof fn lemma_cells_in_playfield(self)
        ensures
            forall|p: (int, int)| self@.contains(p) ==> Grid::in_playfield(p),
    {
    }

    /// Two well-formed grids with the same cells are the same grid.
    pub proof fn lemma_same_cells(self, other: Self)
        requires
            self.well_formed(),
            other.well_formed(),
            self@ == other@,
        ensures
            self == other,
    {
        assert forall|i: int| bit32(self.0, i) == bit32(other.0, i) by {
            if bit32(self.0, i) || bit32(other.0, i) {
                Grid::lemma_cell_of_index(i);
                let p = (i / 5, i % 5);
                assert(self@.contains(p) == bit32(self.0, i));
                assert(other@.contains(p) == bit32(other.0, i));
            }
        }
        lemma_same32(self.0, other.0);
    }

    fn new(grid: u32) -> (made: Self)
        requires
            forall|i: int| bit32(grid, i) ==> i < 25,
        ensures
            made.0 == grid,
    {
        Grid(grid)
    }

    fn element_to_bit_idx(row: usize, col: usize) -> (idx: Option<usize>)
        ensures
            idx == if Grid::in_playfield((row as int, col as int)) {
                Some(Grid::index_of((row as int, col as int)) as usize)
            } else {
                None::<usize>
            },
    {
        if row >= Self::NUM_ROWS || col >= Self::NUM_COLS {
            None
        } else {
            Some(row * Self::NUM_COLS + col)
        }
    }

    fn element_bit(row: usize, col: usize) -> (bit: Option<u32>)
        ensures
            bit == if Grid::in_playfield((row as int, col as int)) {
                Some(1u32 << (Grid::index_of((row as int, col as int)) as u32))
            } else {
                None::<u32>
            },
    {
        match Self::element_to_bit_idx(row, col) {
            None => None,
            Some(idx) => Some(1u32 << (idx as u32)),
        }
    }

    pub fn overlaps(&self, other: &Self) -> (b: bool)
        ensures
            b == !self@.disjoint(other@),
    {
        proof {
            use_type_invariant(self);
            lemma_meets32(self.0, other.0);
            if self.0 & other.0 != 0 {
                let i = choose|i: int| bit32(self.0, i) && bit32(other.0, i);
                Grid::lemma_cell_of_index(i);
                let p = (i / 5, i % 5);
                assert(self@.contains(p) && other@.contains(p));
            }
        }
        (self.0 & other.0) != 0
    }

    pub fn union(self, other: Self) -> (grid: Self)
        ensures
            grid@ == self@.union(other@),
    {
        proof {
            use_type_invariant(&self);
            use_type_invariant(&other);
            lemma_bitwise32(self.0, other.0);
        }
        Self::new(self.0 | other.0)
    }

    pub fn intersect(self, other: &Self) -> (grid: Self)
        ensures
            grid@ == self@.intersect(other@),
    {
        proof {
            use_type_invariant(&self);
            lemma_bitwise32(self.0, other.0);
        }
        Self::new(self.0 & other.0)
    }

    pub fn subtract(self, other: &Self) -> (grid: Self)
        ensures
            grid@ == self@.difference(other@),
    {
        proof {
            use_type_invariant(&self);
            lemma_bitwise32(self.0, other.0);
        }
        Self::new(self.0 & !other.0)
    }

    pub fn contains(&self, other: &Self) -> (b: bool)
        ensures
            b == other@.subset_of(self@),
    {
        proof {
            use_type_invariant(other);
            lemma_covers32(self.0, other.0);
            if other@.subset_of(self@) {
                assert forall|i: int| bit32(other.0, i) implies bit32(self.0, i) by {
                    Grid::lemma_cell_of_index(i);
                    assert(other@.contains((i / 5, i % 5)));
                }
            }
        }
        (self.0 & other.0) == other.0
    }

    pub fn is_empty(&self) -> (b: bool)
        ensures
            b == (self@ == Set::<(int, int)>::empty()),
    {
        proof {
            use_type_invariant(self);
            lemma_zero32(self.0);
            if self@ == Set::<(int, int)>::empty() {
                assert forall|i: int| !bit32(self.0, i) by {
                    if bit32(self.0, i) {
                        Grid::lemma_cell_of_index(i);
                        assert(self@.contains((i / 5, i % 5)));
                    }
                }
            }
            if self.0 == 0 {
                assert(self@ =~= Set::<(int, int)>::empty());
            }
        }
        self.0 == 0
    }

    pub fn set_element(self, row: usize, col: usize) -> (set: Result<Self, GridError>)
        ensures
            match set {
                Ok(grid) => Grid::in_playfield((row as int, col as int)) && grid@ == self@.insert(
                    (row as int, col as int),
                ),
                Err(e) => !Grid::in_playfield((row as int, col as int)) && e
                    == GridError::InvalidIndex(Some(row), Some(col)),
            },
    {
        match Self::element_bit(row, col) {
            Some(bit) => {
                proof {
                    use_type_invariant(&self);
                    lemma_one_bit32(Grid::index_of((row as int, col as int)));
                    lemma_bitwise32(self.0, bit);
                }
                let grid = Self::new(self.0 | bit);
                assert(grid@ =~= self@.insert((row as int, col as int)));
                Ok(grid)
            },
            None => Err(GridError::InvalidIndex(Some(row), Some(col))),
        }
    }

    pub fn clear_element(self, row: usize, col: usize) -> (cleared: Result<Self, GridError>)
        ensures
            match cleared {
                Ok(grid) => Grid::in_playfield((row as int, col as int)) && grid@ == self@.remove(
                    (row as int, col as int),
                ),
                Err(e) => !Grid::in_playfield((row as int, col as int)) && e
                    == GridError::InvalidIndex(Some(row), Some(col)),
            },
    {
        match Self::element_bit(row, col) {
            Some(bit) => {
                proof {
                    use_type_invariant(&self);
                    lemma_one_bit32(Grid::index_of((row as int, col as int)));
                    lemma_bitwise32(self.0, bit);
                }
                let grid = Self::new(self.0 & !bit);
                assert(grid@ =~= self@.remove((row as int, col as int)));
                Ok(grid)
            },
            None => Err(GridError::InvalidIndex(Some(row), Some(col))),
        }
    }

    pub fn is_element_set(&self, row: usize, col: usize) -> (set: Result<bool, GridError>)
        ensures
            match set {
                Ok(b) => Grid::in_playfield((row as int, col as int)) && b == self@.contains(
                    (row as int, col as int),
                ),
                Err(e) => !Grid::in_playfield((row as int, col as int)) && e
                    == GridError::InvalidIndex(Some(row), Some(col)),
            },
    {
        match Self::element_bit(row, col) {
            Some(bit) => Ok((self.0 & bit) != 0),
            None => Err(GridError::InvalidIndex(Some(row), Some(col))),
        }
    }

    /// The cells left when row `row` is taken out and the rows above it move
    /// down by one row; the top row is left empty.
    pub open spec fn without_row(cells: Set<(int, int)>, row: int) -> Set<(int, int)> {
        Set::new(
            |p: (int, int)|
                Grid::in_playfield(p) && if p.0 < row {
                    cells.contains(p)
                } else {
                    cells.contains((p.0 + 1, p.1))
                },
        )
    }

    fn rows_above(row: usize) -> (mask: u32)
        requires
            row < 5,
        ensures
            mask == rows_above_mask(row as u32),
    {
        if row == 0 {
            Self::R4_RAW | Self::R3_RAW | Self::R2_RAW | Self::R1_RAW
        } else if row == 1 {
            Self::R4_RAW | Self::R3_RAW | Self::R2_RAW
        } else if row == 2 {
            Self::R4_RAW | Self::R3_RAW
        } else if row == 3 {
            Self::R4_RAW
        } else {
            0
        }
    }

    fn rows_below(row: usize) -> (mask: u32)
        requires
            row < 5,
        ensures
            mask == rows_below_mask(row as u32),
    {
        if row == 0 {
            0
        } else if row == 1 {
            Self::R0_RAW
        } else if row == 2 {
            Self::R0_RAW | Self::R1_RAW
        } else if row == 3 {
            Self::R0_RAW | Self::R1_RAW | Self::R2_RAW
        } else {
            Self::R0_RAW | Self::R1_RAW | Self::R2_RAW | Self::R3_RAW
        }
    }

    /// The grid whose cells are those of row `row`.
    pub fn row(row: usize) -> (grid: Self)
        requires
            row < 5,
        ensures
            grid@ == Grid::row_cells(row as int),
    {
        let mask = if row == 0 {
            Self::R0_RAW
        } else if row == 1 {
            Self::R1_RAW
        } else if row == 2 {
            Self::R2_RAW
        } else if row == 3 {
            Self::R3_RAW
        } else {
            Self::R4_RAW
        };
        proof {
            assert(mask == row_mask(row as u32));
            lemma_row_mask_bits(row as int);
        }
        let grid = Self::new(mask);
        assert(grid@ =~= Grid::row_cells(row as int));
        grid
    }

    /// Discard specified row and shift all rows above downwards by one row
    pub fn discard_and_shift(self, row: usize) -> (shifted: Result<Self, GridError>)
        ensures
            match shifted {
                Ok(grid) => row < 5 && grid@ == Grid::without_row(self@, row as int),
                Err(e) => row >= 5 && e == GridError::InvalidIndex(Some(row), None),
            },
    {
        if row >= Self::NUM_ROWS {
            return Err(GridError::InvalidIndex(Some(row), None));
        }
        let above = self.0 & Self::rows_above(row);
        let below = self.0 & Self::rows_below(row);
        proof {
            use_type_invariant(&self);
            lemma_without_row_bits(self.0, row as int);
            assert(((above >> 5) | below) == without_row(self.0, row as u32));
        }
        let grid = Self::new((above >> 5) | below);
        assert(grid@ =~= Grid::without_row(self@, row as int));
        Ok(grid)
    }

    /// The cells that a five by five array of flags marks, `value[row][col]`
    /// standing for the cell `(row, col)`.
    pub open spec fn cells_of(value: [[bool; 5]; 5]) -> Set<(int, int)> {
        Set::new(|p: (int, int)| Grid::in_playfield(p) && value[p.0][p.1])
    }

    /// The grid that holds exactly the cells `cells` of the playfield.
    pub closed spec fn with_cells(cells: Set<(int, int)>) -> Grid {
        choose|grid: Grid| grid.well_formed() && grid@ == cells
    }
}

impl From<[[bool; 5]; 5]> for Grid {
    fn from(value: [[bool; 5]; 5]) -> (grid: Self)
        ensures
            grid@ == Grid::cells_of(value),
    {
        let mut grid = Self::default();

        for row in 0..5usize
            invariant
                forall|p: (int, int)|
                    grid@.contains(p) == (Grid::in_playfield(p) && p.0 < row && value[p.0][p.1]),
        {
            for col in 0..5usize
                invariant
                    row < 5,
                    forall|p: (int, int)|
                        grid@.contains(p) == (Grid::in_playfield(p) && (p.0 < row || (p.0 == row
                            && p.1 < col)) && value[p.0][p.1]),
            {
                if value[row][col] {
                    grid = grid.set_element(row, col).unwrap();
                } else {
                    grid = grid.clear_element(row, col).unwrap();
                }
            }
        }
        proof {
            use_type_invariant(&grid);
            assert(grid@ =~= Grid::cells_of(value));
            grid.lemma_same_cells(Grid::with_cells(Grid::cells_of(value)));
        }
        grid
    }
}

impl vstd::std_specs::convert::FromSpecImpl<[[bool; 5]; 5]> for Grid {
    open spec fn obeys_from_spec() -> bool {
        true
    }

    open spec fn from_spec(value: [[bool; 5]; 5]) -> Grid {
        Grid::with_cells(Grid::cells_of(value))
    }
}

/// 7 by 7 grid encoded in an `u64`
#[derive(Debug, PartialEq, Eq, Structural)]
pub struct ExtGrid(u64);

impl View for ExtGrid {
    type V = Set<(int, int)>;

    /// The cells that are set, as `(row, col)` pairs.
    closed spec fn view(&self) -> Set<(int, int)> {
        Set::new(|p: (int, int)| ExtGrid::in_window(p) && bit64(self.0, ExtGrid::index_of(p)))
    }
}

impl Clone for ExtGrid {
    fn clone(&self) -> (grid: Self)
        ensures
            grid == *self,
    {
        proof {
            use_type_invariant(self);
        }
        ExtGrid(self.0)
    }
}

impl Default for ExtGrid {
    fn default() -> (grid: Self)
        ensures
            grid@ == Set::<(int, int)>::empty(),
    {
        proof {
            lemma_bitwise64(0, 0);
        }
        Self::new(0)
    }
}

impl ExtGrid {
    pub const NUM_ROWS: usize = Grid::NUM_ROWS + 2;

    pub const NUM_COLS: usize = Grid::NUM_COLS + 2;

    // rim is encoded in upper half of u64
    const OFFSET_BOTTOM_EDGE: usize = 32;

    const OFFSET_FIRST_CENTER_EDGE: usize = Self::OFFSET_BOTTOM_EDGE + Self::NUM_COLS;

    const OFFSET_TOP_EDGE: usize = Self::OFFSET_FIRST_CENTER_EDGE + 2 * (Self::NUM_ROWS - 2);

    const TOP_ROW_IDX: usize = Self::NUM_ROWS - 1;

    const RIGHT_COL_IDX: usize = Self::NUM_COLS - 1;

    const RIM_RAW: u64 = 0x00ff_ffff_0000_0000;

    /// Whether `p` is a cell of the window that the grid spans.
    pub open spec fn in_window(p: (int, int)) -> bool {
        0 <= p.0 < 7 && 0 <= p.1 < 7
    }

    /// Whether `p` is a cell of the rim: of the bottom or top row, or of the
    /// left or right column.
    pub open spec fn on_rim(p: (int, int)) -> bool {
        ExtGrid::in_window(p) && (p.0 == 0 || p.0 == 6 || p.1 == 0 || p.1 == 6)
    }

    /// The cells of the rim.
    pub open spec fn rim_cells() -> Set<(int, int)> {
        Set::new(|p: (int, int)| ExtGrid::on_rim(p))
    }

    /// The playfield inside `cells`: the cell `(row, col)` of the playfield is
    /// the cell `(row + 1, col + 1)` of the grid.
    pub open spec fn center_of(cells: Set<(int, int)>) -> Set<(int, int)> {
        Set::new(|p: (int, int)| Grid::in_playfield(p) && cells.contains((p.0 + 1, p.1 + 1)))
    }

    /// The cells of a playfield, placed inside the grid.
    pub open spec fn embedded(cells: Set<(int, int)>) -> Set<(int, int)> {
        Set::new(
            |p: (int, int)|
                Grid::in_playfield((p.0 - 1, p.1 - 1)) && cells.contains((p.0 - 1, p.1 - 1)),
        )
    }

    /// The playfield is encoded as in a `Grid`, in the lower half of the word;
    /// the rim follows in the upper half: bottom edge, then the two cells of
    /// each row in between, then the top edge.
    pub open spec fn index_of(p: (int, int)) -> int {
        if p.0 == 0 {
            32 + p.1
        } else if p.0 == 6 {
            49 + p.1
        } else if p.1 == 0 {
            39 + (p.0 - 1) * 2
        } else if p.1 == 6 {
            40 + (p.0 - 1) * 2
        } else {
            Grid::index_of((p.0 - 1, p.1 - 1))
        }
    }

    /// Whether a cell is encoded at bit `i`.
    spec fn encodes(i: int) -> bool {
        0 <= i < 25 || 32 <= i < 56
    }

    /// The cell that is encoded at bit `i`.
    spec fn cell_at(i: int) -> (int, int) {
        if i < 25 {
            (i / 5 + 1, i % 5 + 1)
        } else if i < 39 {
            (0, i - 32)
        } else if i < 49 {
            ((i - 39) / 2 + 1, if (i - 39) % 2 == 0 { 0 } else { 6 })
        } else {
            (6, i - 49)
        }
    }

    proof fn lemma_cell_at(i: int)
        requires
            ExtGrid::encodes(i),
        ensures
            ExtGrid::in_window(ExtGrid::cell_at(i)),
            ExtGrid::index_of(ExtGrid::cell_at(i)) == i,
    {
    }

    proof fn lemma_index_of(p: (int, int))
        requires
            ExtGrid::in_window(p),
        ensures
            ExtGrid::encodes(ExtGrid::index_of(p)),
            ExtGrid::cell_at(ExtGrid::index_of(p)) == p,
            ExtGrid::on_rim(p) <==> ExtGrid::index_of(p) >= 32,
    {
    }

    /// Only the bits that stand for cells are ever set.
    #[verifier::type_invariant]
    pub closed spec fn well_formed(&self) -> bool {
        forall|i: int| bit64(self.0, i) ==> ExtGrid::encodes(i)
    }

    /// A grid holds cells of the seven by seven window only.
    pub proof fn lemma_cells_in_window(self)
        ensures
            forall|p: (int, int)| self@.contains(p) ==> ExtGrid::in_window(p),
    {
    }

    /// Two well-formed grids with the same cells are the same grid.
    pub proof fn lemma_same_cells(self, other: Self)
        requires
            self.well_formed(),
            other.well_formed(),
            self@ == other@,
        ensures
            self == other,
    {
        assert forall|i: int| bit64(self.0, i) == bit64(other.0, i) by {
            if bit64(self.0, i) || bit64(other.0, i) {
                ExtGrid::lemma_cell_at(i);
                let p = ExtGrid::cell_at(i);
                assert(self@.contains(p) == bit64(self.0, i));
                assert(other@.contains(p) == bit64(other.0, i));
            }
        }
        lemma_same64(self.0, other.0);
    }

    fn new(grid: u64) -> (made: Self)
        requires
            forall|i: int| bit64(grid, i) ==> ExtGrid::encodes(i),
        ensures
            made.0 == grid,
    {
        ExtGrid(grid)
    }

    /// The rim: every cell of the border, and no cell of the playfield.
    pub fn rim() -> (grid: Self)
        ensures
            grid@ == ExtGrid::rim_cells(),
    {
        proof {
            assert(Self::RIM_RAW == rim_mask());
            lemma_rim_mask_bits();
        }
        let grid = Self::new(Self::RIM_RAW);
        assert forall|p: (int, int)| grid@.contains(p) == ExtGrid::on_rim(p) by {
            if ExtGrid::in_window(p) {
                ExtGrid::lemma_index_of(p);
            }
        }
        assert(grid@ =~= ExtGrid::rim_cells());
        grid
    }

    // bit indices for the "inner" (that is not the corners) part of vertical edges
    fn vertical_rim_element_to_bit_idx(row: usize, col: usize) -> (idx: Option<usize>)
        ensures
            idx == if 0 < row < 6 && (col == 0 || col == 6) {
                Some(ExtGrid::index_of((row as int, col as int)) as usize)
            } else {
                None::<usize>
            },
    {
        if row > 0 && row < Self::TOP_ROW_IDX {
            let offset = Self::OFFSET_FIRST_CENTER_EDGE + (row - 1) * 2;
            if col == 0 {
                Some(offset)
            } else if col == Self::RIGHT_COL_IDX {
                Some(offset + 1)
            } else {
                None
            }
        } else {
            None
        }
    }

    fn element_to_bit_idx(row: usize, col: usize) -> (idx: Option<usize>)
        ensures
            idx == if ExtGrid::in_window((row as int, col as int)) {
                Some(ExtGrid::index_of((row as int, col as int)) as usize)
            } else {
                None::<usize>
            },
    {
        if row == 0 {
            // bottom edge
            if col < Self::NUM_COLS {
                Some(Self::OFFSET_BOTTOM_EDGE + col)
            } else {
                None
            }
        } else if row == Self::TOP_ROW_IDX {
            // top edge
            if col < Self::NUM_COLS {
                Some(Self::OFFSET_TOP_EDGE + col)
            } else {
                None
            }
        } else if col == 0 {
            // left edge
            Self::vertical_rim_element_to_bit_idx(row, 0)
        } else if col == Self::RIGHT_COL_IDX {
            // right edge
            Self::vertical_rim_element_to_bit_idx(row, Self::RIGHT_COL_IDX)
        } else {
            // inner (or outside, but handled the same way)
            Grid::element_to_bit_idx(row - 1, col - 1)
        }
    }

    fn element_bit(row: usize, col: usize) -> (bit: Option<u64>)
        ensures
            bit == if ExtGrid::in_window((row as int, col as int)) {
                Some(1u64 << (ExtGrid::index_of((row as int, col as int)) as u64))
            } else {
                None::<u64>
            },
    {
        match Self::element_to_bit_idx(row, col) {
            Some(val) => {
                proof {
                    ExtGrid::lemma_index_of((row as int, col as int));
                }
                Some(1u64 << (val as u64))
            },
            None => None,
        }
    }

    pub fn overlaps(&self, other: &Self) -> (b: bool)
        ensures
            b == !self@.disjoint(other@),
    {
        proof {
            use_type_invariant(self);
            lemma_meets64(self.0, other.0);
            if self.0 & other.0 != 0 {
                let i = choose|i: int| bit64(self.0, i) && bit64(other.0, i);
                ExtGrid::lemma_cell_at(i);
                let p = ExtGrid::cell_at(i);
                assert(self@.contains(p) && other@.contains(p));
            }
        }
        (self.0 & other.0) != 0
    }

    pub fn union(self, other: Self) -> (grid: Self)
        ensures
            grid@ == self@.union(other@),
    {
        proof {
            use_type_invariant(&self);
            use_type_invariant(&other);
            lemma_bitwise64(self.0, other.0);
        }
        Self::new(self.0 | other.0)
    }

    pub fn intersect(self, other: &Self) -> (grid: Self)
        ensures
            grid@ == self@.intersect(other@),
    {
        proof {
            use_type_invariant(&self);
            lemma_bitwise64(self.0, other.0);
        }
        Self::new(self.0 & other.0)
    }

    pub fn subtract(self, other: &Self) -> (grid: Self)
        ensures
            grid@ == self@.difference(other@),
    {
        proof {
            use_type_invariant(&self);
            lemma_bitwise64(self.0, other.0);
        }
        Self::new(self.0 & !other.0)
    }

    pub fn contains(&self, other: &Self) -> (b: bool)
        ensures
            b == other@.subset_of(self@),
    {
        proof {
            use_type_invariant(other);
            lemma_covers64(self.0, other.0);
            if other@.subset_of(self@) {
                assert forall|i: int| bit64(other.0, i) implies bit64(self.0, i) by {
                    ExtGrid::lemma_cell_at(i);
                    assert(other@.contains(ExtGrid::cell_at(i)));
                }
            }
        }
        (self.0 & other.0) == other.0
    }

    pub fn is_empty(&self) -> (b: bool)
        ensures
            b == (self@ == Set::<(int, int)>::empty()),
    {
        proof {
            use_type_invariant(self);
            lemma_zero64(self.0);
            if self@ == Set::<(int, int)>::empty() {
                assert forall|i: int| !bit64(self.0, i) by {
                    if bit64(self.0, i) {
                        ExtGrid::lemma_cell_at(i);
                        assert(self@.contains(ExtGrid::cell_at(i)));
                    }
                }
            }
            if self.0 == 0 {
                assert(self@ =~= Set::<(int, int)>::empty());
            }
        }
        self.0 == 0
    }

    pub fn set_element(self, row: usize, col: usize) -> (set: Result<Self, GridError>)
        ensures
            match set {
                Ok(grid) => ExtGrid::in_window((row as int, col as int)) && grid@ == self@.insert(
                    (row as int, col as int),
                ),
                Err(e) => !ExtGrid::in_window((row as int, col as int)) && e
                    == GridError::InvalidIndex(Some(row), Some(col)),
            },
    {
        match Self::element_bit(row, col) {
            Some(bit) => {
                proof {
                    use_type_invariant(&self);
                    ExtGrid::lemma_index_of((row as int, col as int));
                    lemma_one_bit64(ExtGrid::index_of((row as int, col as int)));
                    lemma_bitwise64(self.0, bit);
                }
                let grid = Self::new(self.0 | bit);
                assert forall|p: (int, int)|
                    grid@.contains(p) == self@.insert((row as int, col as int)).contains(p) by {
                    if ExtGrid::in_window(p) {
                        ExtGrid::lemma_index_of(p);
                    }
                }
                assert(grid@ =~= self@.insert((row as int, col as int)));
                Ok(grid)
            },
            None => Err(GridError::InvalidIndex(Some(row), Some(col))),
        }
    }

    pub fn clear_element(self, row: usize, col: usize) -> (cleared: Result<Self, GridError>)
        ensures
            match cleared {
                Ok(grid) => ExtGrid::in_window((row as int, col as int)) && grid@ == self@.remove(
                    (row as int, col as int),
                ),
                Err(e) => !ExtGrid::in_window((row as int, col as int)) && e
                    == GridError::InvalidIndex(Some(row), Some(col)),
            },
    {
        match Self::element_bit(row, col) {
            Some(bit) => {
                proof {
                    use_type_invariant(&self);
                    ExtGrid::lemma_index_of((row as int, col as int));
                    lemma_one_bit64(ExtGrid::index_of((row as int, col as int)));
                    lemma_bitwise64(self.0, bit);
                }
                let grid = Self::new(self.0 & !bit);
                assert forall|p: (int, int)|
                    grid@.contains(p) == self@.remove((row as int, col as int)).contains(p) by {
                    if ExtGrid::in_window(p) {
                        ExtGrid::lemma_index_of(p);
                    }
                }
                assert(grid@ =~= self@.remove((row as int, col as int)));
                Ok(grid)
            },
            None => Err(GridError::InvalidIndex(Some(row), Some(col))),
        }
    }

    pub fn is_element_set(&self, row: usize, col: usize) -> (set: Result<bool, GridError>)
        ensures
            match set {
                Ok(b) => ExtGrid::in_window((row as int, col as int)) && b == self@.contains(
                    (row as int, col as int),
                ),
                Err(e) => !ExtGrid::in_window((row as int, col as int)) && e
                    == GridError::InvalidIndex(Some(row), Some(col)),
            },
    {
        match Self::element_bit(row, col) {
            Some(bit) => Ok((self.0 & bit) != 0),
            None => Err(GridError::InvalidIndex(Some(row), Some(col))),
        }
    }

    pub fn center(self) -> (grid: Grid)
        ensures
            grid@ == ExtGrid::center_of(self@),
    {
        proof {
            use_type_invariant(&self);
            lemma_low_half_bits(self.0);
        }
        // the center part is encoded at the lower half of `self.0`
        let low = (self.0 & 0xffff_ffff) as u32;
        assert forall|i: int| bit32(low, i) implies i < 25 by {
            assert(bit64(self.0, i));
            assert(ExtGrid::encodes(i));
        }
        let grid = Grid::new(low);
        assert(grid@ =~= ExtGrid::center_of(self@));
        grid
    }

    /// The cells that a seven by seven array of flags marks, `value[row][col]`
    /// standing for the cell `(row, col)`.
    pub open spec fn cells_of(value: [[bool; 7]; 7]) -> Set<(int, int)> {
        Set::new(|p: (int, int)| ExtGrid::in_window(p) && value[p.0][p.1])
    }

    /// The grid that holds exactly the cells `cells` of the window.
    pub closed spec fn with_cells(cells: Set<(int, int)>) -> ExtGrid {
        choose|grid: ExtGrid| grid.well_formed() && grid@ == cells
    }

    fn embed(value: &Grid) -> (grid: Self)
        ensures
            grid@ == ExtGrid::embedded(value@),
            grid == ExtGrid::with_cells(ExtGrid::embedded(value@)),
    {
        proof {
            use_type_invariant(value);
            lemma_widened_bits(value.0);
        }
        let grid = Self::new(value.0 as u64);
        proof {
            assert forall|p: (int, int)|
                grid@.contains(p) == ExtGrid::embedded(value@).contains(p) by {
                if ExtGrid::in_window(p) {
                    ExtGrid::lemma_index_of(p);
                }
            }
            assert(grid@ =~= ExtGrid::embedded(value@));
            use_type_invariant(&grid);
            grid.lemma_same_cells(ExtGrid::with_cells(ExtGrid::embedded(value@)));
        }
        grid
    }
}

impl From<Grid> for ExtGrid {
    fn from(value: Grid) -> (grid: Self)
        ensures
            grid@ == ExtGrid::embedded(value@),
    {
        Self::embed(&value)
    }
}

impl vstd::std_specs::convert::FromSpecImpl<Grid> for ExtGrid {
    open spec fn obeys_from_spec() -> bool {
        true
    }

    open spec fn from_spec(value: Grid) -> ExtGrid {
        ExtGrid::with_cells(ExtGrid::embedded(value@))
    }
}

impl From<&Grid> for ExtGrid {
    fn from(value: &Grid) -> (grid: Self)
        ensures
            grid@ == ExtGrid::embedded(value@),
    {
        Self::embed(value)
    }
}

impl vstd::std_specs::convert::FromSpecImpl<&Grid> for ExtGrid {
    open spec fn obeys_from_spec() -> bool {
        true
    }

    open spec fn from_spec(value: &Grid) -> ExtGrid {
        ExtGrid::with_cells(ExtGrid::embedded(value@))
    }
}

impl From<[[bool; 7]; 7]> for ExtGrid {
    fn from(value: [[bool; 7]; 7]) -> (grid: Self)
        ensures
            grid@ == ExtGrid::cells_of(value),
    {
        let mut grid = Self::default();

        for row in 0..7usize
            invariant
                forall|p: (int, int)|
                    grid@.contains(p) == (ExtGrid::in_window(p) && p.0 < row && value[p.0][p.1]),
        {
            for col in 0..7usize
                invariant
                    row < 7,
                    forall|p: (int, int)|
                        grid@.contains(p) == (ExtGrid::in_window(p) && (p.0 < row || (p.0 == row
                            && p.1 < col)) && value[p.0][p.1]),
            {
                if value[row][col] {
                    grid = grid.set_element(row, col).unwrap();
                } else {
                    grid = grid.clear_element(row, col).unwrap();
                }
            }
        }
        proof {
            use_type_invariant(&grid);
            assert(grid@ =~= ExtGrid::cells_of(value));
            grid.lemma_same_cells(ExtGrid::with_cells(ExtGrid::cells_of(value)));
        }
        grid
    }
}

impl vstd::std_specs::convert::FromSpecImpl<[[bool; 7]; 7]> for ExtGrid {
    open spec fn obeys_from_spec() -> bool {
        true
    }

    open spec fn from_spec(value: [[bool; 7]; 7]) -> ExtGrid {
        ExtGrid::with_cells(ExtGrid::cells_of(value))
    }
}

impl ExtGrid {
    /// The cells of the window that a set of points covers. The point `(x, y)`
    /// covers the cell of row `y` and column `x`.
    pub open spec fn covered_by<T: Discrete2DSet>(value: &T) -> Set<(int, int)> {
        Set::new(|p: (int, int)| ExtGrid::in_window(p) && value.occupies(p.1, p.0))
    }

    /// Whether every cell of the window can be tested against the set within
    /// the machine's integers.
    pub open spec fn reaches<T: Discrete2DSet>(value: &T) -> bool {
        forall|p: (int, int)| ExtGrid::in_window(p) ==> #[trigger] value.within_reach(p.1, p.0)
    }

    /// Draws a set of points on the grid: the cells of the window that the set
    /// covers. A set that has points, but none in the window, cannot be drawn.
    pub fn try_from_discrete_2d_set<T>(value: &T) -> (drawn: Result<Self, GridError>) where
        T: Discrete2DSet,

        requires
            ExtGrid::reaches(value),
        ensures
            match drawn {
                Ok(grid) => {
                    &&& grid@ == ExtGrid::covered_by(value)
                    &&& vacant(value) || ExtGrid::covered_by(value) != Set::<(int, int)>::empty()
                },
                Err(e) => {
                    &&& e == GridError::EmptyIntersection
                    &&& !vacant(value)
                    &&& ExtGrid::covered_by(value) == Set::<(int, int)>::empty()
                },
            },
    {
        let mut grid = ExtGrid::default();

        for row in 0..7usize
            invariant
                ExtGrid::reaches(value),
                forall|p: (int, int)|
                    grid@.contains(p) == (ExtGrid::in_window(p) && p.0 < row && value.occupies(
                        p.1,
                        p.0,
                    )),
        {
            for col in 0..7usize
                invariant
                    row < 7,
                    ExtGrid::reaches(value),
                    forall|p: (int, int)|
                        grid@.contains(p) == (ExtGrid::in_window(p) && (p.0 < row || (p.0 == row
                            && p.1 < col)) && value.occupies(p.1, p.0)),
            {
                assert(ExtGrid::in_window((row as int, col as int)));
                if value.contains(col as i32, row as i32) {
                    grid = grid.set_element(row, col).unwrap();
                }
            }
        }
        assert(grid@ =~= ExtGrid::covered_by(value));

        if !value.is_empty() && grid.is_empty() {
            return Err(GridError::EmptyIntersection);
        }
        Ok(grid)
    }
}

} // verus!
