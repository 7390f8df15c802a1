use rdiff::grid::Grid;

#[test]
fn test_grid() {
    let n_rows: usize = 4;
    let n_cols: usize = 3;
    let mut grid = Grid::new(n_rows, n_cols);

    for r in 0..n_rows {
        for c in 0..n_cols {
            assert!(
                grid.set(r, c, r * n_cols + c).is_ok(),
                "Grid::set 返回 Err 即使提供的边界是有效的!"
            );
        }
    }

    for r in 0..n_rows {
        for c in 0..n_cols {
            assert!(
                grid.get(r, c).is_some(),
                "Grid::get 返回 None 即使提供的边界是有效的!"
            );
            assert_eq!(grid.get(r, c).unwrap(), r * n_cols + c);
        }
    }
}

#[test]
fn fresh_grid_reads_zero_everywhere() {
    let grid = Grid::new(3, 5);
    assert_eq!(grid.size(), (3, 5));
    for r in 0..3 {
        for c in 0..5 {
            assert_eq!(grid.get(r, c), Some(0));
        }
    }
}

#[test]
fn set_then_get_returns_the_value() {
    let mut grid = Grid::new(2, 2);
    assert!(grid.set(1, 0, 42).is_ok());
    assert_eq!(grid.get(1, 0), Some(42));
}

#[test]
fn out_of_bounds_set_fails_and_changes_nothing() {
    let mut grid = Grid::new(2, 3);
    assert!(grid.set(0, 1, 9).is_ok());
    let err = grid.set(2, 0, 7);
    assert_eq!(err, Err("Index out of bounds"));
    assert_eq!(grid.set(0, 3, 7), Err("Index out of bounds"));
    for r in 0..2 {
        for c in 0..3 {
            let expected: usize = if r == 0 && c == 1 { 9 } else { 0 };
            assert_eq!(grid.get(r, c), Some(expected));
        }
    }
    assert_eq!(grid.size(), (2, 3));
}

#[test]
fn out_of_bounds_get_returns_none() {
    let grid = Grid::new(2, 3);
    assert_eq!(grid.get(2, 0), None);
    assert_eq!(grid.get(0, 3), None);
    assert_eq!(grid.get(2, 3), None);
}

#[test]
fn clear_resets_cells_and_keeps_dimensions() {
    let mut grid = Grid::new(3, 2);
    for r in 0..3 {
        for c in 0..2 {
            assert!(grid.set(r, c, r + c + 1).is_ok());
        }
    }
    grid.clear();
    assert_eq!(grid.size(), (3, 2));
    for r in 0..3 {
        for c in 0..2 {
            assert_eq!(grid.get(r, c), Some(0));
        }
    }
}

#[test]
fn empty_grid_is_valid() {
    let grid = Grid::new(0, 4);
    assert_eq!(grid.size(), (0, 4));
    assert_eq!(grid.get(0, 0), None);
    let grid2 = Grid::new(4, 0);
    assert_eq!(grid2.size(), (4, 0));
    assert_eq!(grid2.get(0, 0), None);
}
