use life_grid::next_state;
use life_grid::Grid;
use life_grid::GridError;

/// Collects the coordinates of every alive cell, column-major.
fn live_cells(grid: &Grid) -> Vec<(usize, usize)> {
    let (w, h) = grid.dimensions();
    let mut alive = Vec::new();
    for x in 0..w {
        for y in 0..h {
            if grid.query(x, y).unwrap() {
                alive.push((x, y));
            }
        }
    }
    alive
}

/// Builds a grid with exactly the given cells alive.
fn grid_with(w: usize, h: usize, cells: &[(usize, usize)]) -> Grid {
    let mut grid = Grid::new(w, h).unwrap();
    for &(x, y) in cells {
        grid.toggle(x, y).unwrap();
    }
    grid
}

#[test]
fn rule_table_all_eighteen_combinations() {
    for n in 0u8..=8 {
        let survives = n == 2 || n == 3;
        let born = n == 3;
        assert_eq!(next_state(true, n), survives, "alive cell with {} neighbors", n);
        assert_eq!(next_state(false, n), born, "dead cell with {} neighbors", n);
    }
}

#[test]
fn new_grid_is_dead_and_shaped() {
    let grid = Grid::new(7, 4).unwrap();
    assert_eq!(grid.dimensions(), (7, 4));
    assert!(live_cells(&grid).is_empty());
}

#[test]
fn new_rejects_zero_dimensions() {
    assert_eq!(Grid::new(0, 5).unwrap_err(), GridError::InvalidDimension);
    assert_eq!(Grid::new(5, 0).unwrap_err(), GridError::InvalidDimension);
    assert_eq!(Grid::new(0, 0).unwrap_err(), GridError::InvalidDimension);
}

#[test]
fn lone_cell_on_three_by_three_torus_dies() {
    let mut grid = grid_with(3, 3, &[(0, 0)]);
    grid.tick();
    assert!(live_cells(&grid).is_empty());
}

#[test]
fn full_three_by_three_torus_dies_of_overcrowding() {
    let mut grid = Grid::new(3, 3).unwrap();
    for x in 0..3 {
        for y in 0..3 {
            grid.toggle(x, y).unwrap();
        }
    }
    grid.tick();
    assert!(live_cells(&grid).is_empty());
}

#[test]
fn neighbor_counts_wrap_around_the_edges() {
    // (0,0) and (3,3) are diagonal neighbors across the seam of a 4x4
    // torus: each sees exactly one alive neighbor, so both die, and no
    // cell sees three, so nothing is born.
    let mut grid = grid_with(4, 4, &[(0, 0), (3, 3)]);
    grid.tick();
    assert!(live_cells(&grid).is_empty());
}

#[test]
fn block_still_life_survives_many_ticks() {
    let block = [(1, 1), (2, 1), (1, 2), (2, 2)];
    let mut grid = grid_with(4, 4, &block);
    for _ in 0..6 {
        grid.tick();
        assert_eq!(live_cells(&grid), vec![(1, 1), (1, 2), (2, 1), (2, 2)]);
    }
}

#[test]
fn block_still_life_survives_on_larger_grid() {
    let block = [(3, 2), (4, 2), (3, 3), (4, 3)];
    let mut grid = grid_with(7, 6, &block);
    for _ in 0..4 {
        grid.tick();
        assert_eq!(live_cells(&grid), vec![(3, 2), (3, 3), (4, 2), (4, 3)]);
    }
}

#[test]
fn blinker_oscillates_with_period_two() {
    let mut grid = grid_with(5, 5, &[(1, 2), (2, 2), (3, 2)]);
    grid.tick();
    assert_eq!(live_cells(&grid), vec![(2, 1), (2, 2), (2, 3)]);
    grid.tick();
    assert_eq!(live_cells(&grid), vec![(1, 2), (2, 2), (3, 2)]);
}

#[test]
fn blinker_across_the_seam_oscillates_too() {
    // The blinker centered at (0, 2) spans the left-right seam of the
    // torus; one tick still turns it vertical at the same center.
    let mut grid = grid_with(5, 5, &[(4, 2), (0, 2), (1, 2)]);
    grid.tick();
    assert_eq!(live_cells(&grid), vec![(0, 1), (0, 2), (0, 3)]);
    grid.tick();
    assert_eq!(live_cells(&grid), vec![(0, 2), (1, 2), (4, 2)]);
}

#[test]
fn glider_translates_one_diagonal_step_every_four_ticks() {
    let mut grid = Grid::new(8, 8).unwrap();
    grid.glider(1, 1);
    let start = live_cells(&grid);
    assert_eq!(start, vec![(1, 1), (2, 2), (2, 3), (3, 1), (3, 2)]);
    for _ in 0..4 {
        grid.tick();
    }
    let translated: Vec<(usize, usize)> =
        vec![(2, 2), (3, 3), (3, 4), (4, 2), (4, 3)];
    assert_eq!(live_cells(&grid), translated);
}

#[test]
fn glider_stamp_wraps_at_the_edges() {
    let mut grid = Grid::new(5, 5).unwrap();
    grid.glider(4, 4);
    assert_eq!(live_cells(&grid), vec![(0, 0), (0, 1), (1, 0), (1, 4), (4, 4)]);
}

#[test]
fn glider_stamp_overwrites_alive_cells_without_toggling() {
    let mut grid = grid_with(8, 8, &[(1, 1), (2, 2)]);
    grid.glider(1, 1);
    assert_eq!(live_cells(&grid), vec![(1, 1), (2, 2), (2, 3), (3, 1), (3, 2)]);
}

#[test]
fn resize_growing_preserves_cells_and_adds_dead_ones() {
    let mut grid = grid_with(4, 4, &[(0, 0), (3, 3), (1, 2)]);
    grid.resize(6, 5).unwrap();
    assert_eq!(grid.dimensions(), (6, 5));
    assert_eq!(live_cells(&grid), vec![(0, 0), (1, 2), (3, 3)]);
}

#[test]
fn resize_shrinking_drops_cells_outside_the_new_bounds() {
    let mut grid = grid_with(5, 5, &[(0, 1), (2, 2), (4, 4), (1, 3)]);
    grid.resize(3, 4).unwrap();
    assert_eq!(grid.dimensions(), (3, 4));
    assert_eq!(live_cells(&grid), vec![(0, 1), (1, 3), (2, 2)]);
}

#[test]
fn resize_rejects_zero_dimensions_and_keeps_the_grid() {
    let mut grid = grid_with(4, 4, &[(2, 1)]);
    assert_eq!(grid.resize(0, 9).unwrap_err(), GridError::InvalidDimension);
    assert_eq!(grid.resize(9, 0).unwrap_err(), GridError::InvalidDimension);
    assert_eq!(grid.dimensions(), (4, 4));
    assert_eq!(live_cells(&grid), vec![(2, 1)]);
}

#[test]
fn toggle_twice_restores_the_cell() {
    let mut grid = Grid::new(6, 6).unwrap();
    assert!(!grid.query(2, 3).unwrap());
    grid.toggle(2, 3).unwrap();
    assert!(grid.query(2, 3).unwrap());
    grid.toggle(2, 3).unwrap();
    assert!(!grid.query(2, 3).unwrap());
    assert!(live_cells(&grid).is_empty());
}

#[test]
fn toggle_and_query_reject_out_of_bounds_coordinates() {
    let mut grid = Grid::new(4, 3).unwrap();
    assert_eq!(grid.toggle(4, 0).unwrap_err(), GridError::OutOfBounds);
    assert_eq!(grid.toggle(0, 3).unwrap_err(), GridError::OutOfBounds);
    assert_eq!(grid.query(9, 9).unwrap_err(), GridError::OutOfBounds);
    assert!(live_cells(&grid).is_empty());
}

#[test]
fn clear_kills_every_cell() {
    let mut grid = grid_with(5, 4, &[(0, 0), (2, 3), (4, 1)]);
    grid.clear();
    assert!(live_cells(&grid).is_empty());
}

#[test]
fn randomize_keeps_the_shape_and_clear_recovers() {
    let mut grid = Grid::new(10, 10).unwrap();
    grid.randomize();
    assert_eq!(grid.dimensions(), (10, 10));
    // Every queried state is a plain boolean; the grid stays usable.
    let _ = live_cells(&grid);
    grid.clear();
    assert!(live_cells(&grid).is_empty());
}
