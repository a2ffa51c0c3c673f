use microtile_engine::geometry::grid::{ExtGrid, Grid, GridError};
use microtile_engine::geometry::tile::{BasicTile, Displacee, Rotatee};

/// The grid with the cells `cells`, given as `(row, col)` pairs.
fn grid_of(cells: &[(usize, usize)]) -> Grid {
    let mut grid = Grid::default();
    for &(row, col) in cells {
        grid = grid.set_element(row, col).expect("a cell of the playfield");
    }
    grid
}

/// The grid with the cells `cells`, given as `(row, col)` pairs.
fn ext_grid_of(cells: &[(usize, usize)]) -> ExtGrid {
    let mut grid = ExtGrid::default();
    for &(row, col) in cells {
        grid = grid.set_element(row, col).expect("a cell of the window");
    }
    grid
}

/// The cells of `grid`, as `(row, col)` pairs, row by row.
fn cells_of(grid: &Grid) -> Vec<(usize, usize)> {
    let mut cells = Vec::new();
    for row in 0..Grid::NUM_ROWS {
        for col in 0..Grid::NUM_COLS {
            if grid.is_element_set(row, col).expect("a cell of the playfield") {
                cells.push((row, col));
            }
        }
    }
    cells
}

/// The cells of `grid`, as `(row, col)` pairs, row by row.
fn ext_cells_of(grid: &ExtGrid) -> Vec<(usize, usize)> {
    let mut cells = Vec::new();
    for row in 0..ExtGrid::NUM_ROWS {
        for col in 0..ExtGrid::NUM_COLS {
            if grid.is_element_set(row, col).expect("a cell of the window") {
                cells.push((row, col));
            }
        }
    }
    cells
}

#[test]
fn default_no_element_set() -> Result<(), GridError> {
    let grid = Grid::default();

    for row in 0..Grid::NUM_ROWS {
        for col in 0..Grid::NUM_COLS {
            assert!(!grid.is_element_set(row, col)?)
        }
    }
    Ok(())
}

#[test]
fn set_element_consistent_with_is_element_set() -> Result<(), GridError> {
    for row in 0..Grid::NUM_ROWS {
        for col in 0..Grid::NUM_COLS {
            assert!(Grid::default()
                .set_element(row, col)?
                .is_element_set(row, col)?);
        }
    }
    Ok(())
}

#[test]
fn default_no_element_set_ext() -> Result<(), GridError> {
    let grid = ExtGrid::default();

    for row in 0..ExtGrid::NUM_ROWS {
        for col in 0..ExtGrid::NUM_COLS {
            assert!(!grid.is_element_set(row, col)?)
        }
    }
    Ok(())
}

#[test]
fn set_element_consistent_with_is_element_set_ext() -> Result<(), GridError> {
    for row in 0..ExtGrid::NUM_ROWS {
        for col in 0..ExtGrid::NUM_COLS {
            assert!(ExtGrid::default()
                .set_element(row, col)?
                .is_element_set(row, col)?);
        }
    }
    Ok(())
}

#[test]
fn rim() -> Result<(), GridError> {
    let rim = ExtGrid::rim();

    for row in 1..(ExtGrid::NUM_ROWS - 1) {
        for col in 1..(ExtGrid::NUM_COLS - 1) {
            assert!(!rim.is_element_set(row, col)?);
        }
    }

    for col in 0..ExtGrid::NUM_COLS {
        assert!(rim.is_element_set(0, col)?);
        assert!(rim.is_element_set(ExtGrid::NUM_ROWS - 1, col)?);
    }

    for row in 0..ExtGrid::NUM_ROWS {
        assert!(rim.is_element_set(row, 0)?);
        assert!(rim.is_element_set(row, ExtGrid::NUM_COLS - 1)?);
    }
    Ok(())
}

#[test]
fn ext_center_matches_grid() -> Result<(), GridError> {
    let grid = Grid::default()
        .set_element(0, 0)?
        .set_element(1, 1)?
        .set_element(2, 2)?;
    let ext_grid = ExtGrid::default()
        .set_element(1, 1)?
        .set_element(2, 2)?
        .set_element(3, 3)?;

    assert_eq!(grid, ext_grid.center());
    Ok(())
}

#[test]
fn grid_dimensions() {
    assert_eq!((Grid::NUM_ROWS, Grid::NUM_COLS), (5, 5));
    assert_eq!((ExtGrid::NUM_ROWS, ExtGrid::NUM_COLS), (7, 7));
}

#[test]
fn set_element_sets_one_cell() {
    for row in 0..Grid::NUM_ROWS {
        for col in 0..Grid::NUM_COLS {
            let grid = Grid::default().set_element(row, col).unwrap();
            assert_eq!(cells_of(&grid), vec![(row, col)]);
        }
    }
}

#[test]
fn set_element_sets_one_cell_ext() {
    for row in 0..ExtGrid::NUM_ROWS {
        for col in 0..ExtGrid::NUM_COLS {
            let grid = ExtGrid::default().set_element(row, col).unwrap();
            assert_eq!(ext_cells_of(&grid), vec![(row, col)]);
        }
    }
}

#[test]
fn clear_element_clears_one_cell() {
    let full = Grid::from([[true; 5]; 5]);
    for row in 0..Grid::NUM_ROWS {
        for col in 0..Grid::NUM_COLS {
            let grid = full.clone().clear_element(row, col).unwrap();
            assert_eq!(cells_of(&grid).len(), 24);
            assert!(!grid.is_element_set(row, col).unwrap());
        }
    }
}

#[test]
fn clear_element_clears_one_cell_ext() {
    let full = ExtGrid::from([[true; 7]; 7]);
    for row in 0..ExtGrid::NUM_ROWS {
        for col in 0..ExtGrid::NUM_COLS {
            let grid = full.clone().clear_element(row, col).unwrap();
            assert_eq!(ext_cells_of(&grid).len(), 48);
            assert!(!grid.is_element_set(row, col).unwrap());
        }
    }
}

#[test]
fn cells_outside_the_playfield_are_refused() {
    for (row, col) in [(5, 0), (0, 5), (5, 5), (usize::MAX, 2), (2, usize::MAX)] {
        assert!(matches!(
            Grid::default().set_element(row, col),
            Err(GridError::InvalidIndex(Some(r), Some(c))) if r == row && c == col
        ));
        assert!(matches!(
            Grid::default().clear_element(row, col),
            Err(GridError::InvalidIndex(Some(r), Some(c))) if r == row && c == col
        ));
        assert!(matches!(
            Grid::default().is_element_set(row, col),
            Err(GridError::InvalidIndex(Some(r), Some(c))) if r == row && c == col
        ));
    }
}

#[test]
fn cells_outside_the_window_are_refused() {
    for (row, col) in [(7, 0), (0, 7), (7, 7), (3, 7), (7, 3), (usize::MAX, 2), (2, usize::MAX)] {
        assert!(matches!(
            ExtGrid::default().set_element(row, col),
            Err(GridError::InvalidIndex(Some(r), Some(c))) if r == row && c == col
        ));
        assert!(matches!(
            ExtGrid::default().clear_element(row, col),
            Err(GridError::InvalidIndex(Some(r), Some(c))) if r == row && c == col
        ));
        assert!(matches!(
            ExtGrid::default().is_element_set(row, col),
            Err(GridError::InvalidIndex(Some(r), Some(c))) if r == row && c == col
        ));
    }
}

#[test]
fn grid_set_operations() {
    let a = grid_of(&[(0, 0), (1, 2), (4, 4)]);
    let b = grid_of(&[(1, 2), (3, 3)]);

    assert_eq!(a.clone().union(b.clone()), grid_of(&[(0, 0), (1, 2), (3, 3), (4, 4)]));
    assert_eq!(a.clone().intersect(&b), grid_of(&[(1, 2)]));
    assert_eq!(a.clone().subtract(&b), grid_of(&[(0, 0), (4, 4)]));
    assert!(a.overlaps(&b));
    assert!(!a.overlaps(&grid_of(&[(3, 3), (0, 1)])));
    assert!(a.contains(&grid_of(&[(0, 0), (4, 4)])));
    assert!(a.contains(&Grid::default()));
    assert!(!a.contains(&b));
    assert!(!a.is_empty());
    assert!(a.clone().subtract(&a).is_empty());
    assert!(Grid::default().is_empty());
}

#[test]
fn ext_grid_set_operations() {
    let a = ext_grid_of(&[(0, 0), (1, 2), (6, 6), (3, 0)]);
    let b = ext_grid_of(&[(1, 2), (3, 6), (6, 0)]);

    assert_eq!(
        a.clone().union(b.clone()),
        ext_grid_of(&[(0, 0), (1, 2), (3, 0), (3, 6), (6, 0), (6, 6)])
    );
    assert_eq!(a.clone().intersect(&b), ext_grid_of(&[(1, 2)]));
    assert_eq!(a.clone().subtract(&b), ext_grid_of(&[(0, 0), (6, 6), (3, 0)]));
    assert!(a.overlaps(&b));
    assert!(!a.overlaps(&ext_grid_of(&[(3, 6), (6, 0)])));
    assert!(a.contains(&ext_grid_of(&[(0, 0), (6, 6)])));
    assert!(a.contains(&ExtGrid::default()));
    assert!(!a.contains(&b));
    assert!(!a.is_empty());
    assert!(a.clone().subtract(&a).is_empty());
    assert!(ExtGrid::default().is_empty());
}

#[test]
fn rows_of_the_playfield() {
    for row in 0..Grid::NUM_ROWS {
        let cells: Vec<(usize, usize)> = (0..Grid::NUM_COLS).map(|col| (row, col)).collect();
        assert_eq!(cells_of(&Grid::row(row)), cells);
    }
}

#[test]
fn discard_and_shift_moves_the_rows_above() {
    let grid = Grid::from([
        [true, false, false, false, false],
        [true, true, true, true, true],
        [false, true, false, true, false],
        [true, true, true, true, true],
        [false, false, false, false, true],
    ]);

    let shifted = grid.clone().discard_and_shift(1).unwrap();
    assert_eq!(
        shifted,
        Grid::from([
            [true, false, false, false, false],
            [false, true, false, true, false],
            [true, true, true, true, true],
            [false, false, false, false, true],
            [false; 5],
        ])
    );

    let shifted = grid.clone().discard_and_shift(0).unwrap();
    assert_eq!(
        shifted,
        Grid::from([
            [true, true, true, true, true],
            [false, true, false, true, false],
            [true, true, true, true, true],
            [false, false, false, false, true],
            [false; 5],
        ])
    );

    let shifted = grid.discard_and_shift(4).unwrap();
    assert_eq!(
        shifted,
        Grid::from([
            [true, false, false, false, false],
            [true, true, true, true, true],
            [false, true, false, true, false],
            [true, true, true, true, true],
            [false; 5],
        ])
    );
}

#[test]
fn discard_and_shift_refuses_rows_outside_the_playfield() {
    for row in [5, 6, usize::MAX] {
        assert!(matches!(
            Grid::from([[true; 5]; 5]).discard_and_shift(row),
            Err(GridError::InvalidIndex(Some(r), None)) if r == row
        ));
    }
}

#[test]
fn grid_from_flags() {
    let grid = Grid::from([
        [false, true, false, false, false],
        [false; 5],
        [false, false, false, false, true],
        [false; 5],
        [true, false, false, false, false],
    ]);
    assert_eq!(cells_of(&grid), vec![(0, 1), (2, 4), (4, 0)]);
}

#[test]
fn ext_grid_from_flags() {
    let mut flags = [[false; 7]; 7];
    flags[0][6] = true;
    flags[3][3] = true;
    flags[6][0] = true;
    flags[5][6] = true;
    let grid = ExtGrid::from(flags);
    assert_eq!(ext_cells_of(&grid), vec![(0, 6), (3, 3), (5, 6), (6, 0)]);
}

#[test]
fn the_playfield_is_the_center_of_the_window() {
    let grid = grid_of(&[(0, 0), (0, 4), (2, 3), (4, 0), (4, 4)]);
    let ext_grid = ExtGrid::from(grid.clone());
    assert_eq!(ext_cells_of(&ext_grid), vec![(1, 1), (1, 5), (3, 4), (5, 1), (5, 5)]);
    assert_eq!(ExtGrid::from(&grid), ext_grid);
    assert_eq!(ext_grid.center(), grid);
}

#[test]
fn center_leaves_the_rim_out() {
    assert!(ExtGrid::rim().center().is_empty());
    assert_eq!(ExtGrid::from([[true; 7]; 7]).center(), Grid::from([[true; 5]; 5]));
}

#[test]
fn the_rim_has_every_border_cell_once() {
    assert_eq!(ext_cells_of(&ExtGrid::rim()).len(), 24);
    // no two cells of the border share a bit
    for col in 0..ExtGrid::NUM_COLS {
        let top = ExtGrid::default().set_element(6, col).unwrap();
        assert_eq!(ext_cells_of(&top), vec![(6, col)]);
    }
}

#[test]
fn a_tile_is_drawn_where_it_is() {
    let line = BasicTile::Line.displace_by(2, 3);
    let grid = ExtGrid::try_from_discrete_2d_set(&line).unwrap();
    assert_eq!(ext_cells_of(&grid), vec![(3, 2), (4, 2)]);

    let diagonal = BasicTile::Diagonal.rotate_ccw().displace_by(6, 0);
    let grid = ExtGrid::try_from_discrete_2d_set(&diagonal).unwrap();
    assert_eq!(ext_cells_of(&grid), vec![(0, 6), (1, 5)]);
}

#[test]
fn a_tile_is_cut_at_the_window() {
    let line = BasicTile::Line.displace_by(3, 6);
    let grid = ExtGrid::try_from_discrete_2d_set(&line).unwrap();
    assert_eq!(ext_cells_of(&grid), vec![(6, 3)]);

    let line = BasicTile::Line.displace_by(0, -1);
    let grid = ExtGrid::try_from_discrete_2d_set(&line).unwrap();
    assert_eq!(ext_cells_of(&grid), vec![(0, 0)]);
}

#[test]
fn a_tile_outside_the_window_is_not_drawn() {
    for (x, y) in [(7, 0), (0, 7), (-1, 3), (3, -2), (100, 100), (-50, 2)] {
        let line = BasicTile::Line.displace_by(x, y);
        assert!(matches!(
            ExtGrid::try_from_discrete_2d_set(&line),
            Err(GridError::EmptyIntersection)
        ));
    }
}
