use life_grid::Grid;
use life_grid::GridError;
use life_grid::grid::Mode;

fn live_cells(grid: &Grid) -> Vec<(usize, usize)> {
    let (w, h) = grid.dimensions();
    let mut alive = Vec::new();
    for x in 0..w {
        for y in 0..h {
            if grid.query(x, y).unwrap() {
                alive.push((x, y));
            }
        }
    }
    alive
}

#[test]
fn line_toggles_three_horizontal_cells() {
    let mut grid = Grid::new(5, 5).unwrap();
    grid.line(2, 3);
    assert_eq!(live_cells(&grid), vec![(1, 3), (2, 3), (3, 3)]);
}

#[test]
fn line_wraps_across_the_left_edge() {
    let mut grid = Grid::new(5, 5).unwrap();
    grid.line(0, 2);
    assert_eq!(live_cells(&grid), vec![(0, 2), (1, 2), (4, 2)]);
}

#[test]
fn line_toggles_rather_than_sets() {
    let mut grid = Grid::new(5, 5).unwrap();
    grid.toggle(2, 3).unwrap();
    grid.line(2, 3);
    assert_eq!(live_cells(&grid), vec![(1, 3), (3, 3)]);
}

#[test]
fn line_on_single_column_grid_nets_one_toggle() {
    // All three toggled positions collide, so the cell flips three times.
    let mut grid = Grid::new(1, 5).unwrap();
    grid.line(0, 2);
    assert_eq!(live_cells(&grid), vec![(0, 2)]);
}

#[test]
fn line_on_two_column_grid_cancels_the_colliding_pair() {
    // The left and right positions collide and cancel; only the anchor flips.
    let mut grid = Grid::new(2, 5).unwrap();
    grid.line(0, 2);
    assert_eq!(live_cells(&grid), vec![(0, 2)]);
}

#[test]
fn draw_dispatches_dot_glider_and_line() {
    let mut grid = Grid::new(8, 8).unwrap();
    grid.draw(4, 4, &Mode::Dot).unwrap();
    assert_eq!(live_cells(&grid), vec![(4, 4)]);
    grid.draw(4, 4, &Mode::Dot).unwrap();
    assert!(live_cells(&grid).is_empty());

    grid.draw(1, 1, &Mode::Glider).unwrap();
    assert_eq!(live_cells(&grid), vec![(1, 1), (2, 2), (2, 3), (3, 1), (3, 2)]);

    grid.clear();
    grid.draw(3, 3, &Mode::Line).unwrap();
    assert_eq!(live_cells(&grid), vec![(2, 3), (3, 3), (4, 3)]);
}

#[test]
fn draw_with_inactive_modes_changes_nothing() {
    let mut grid = Grid::new(6, 6).unwrap();
    grid.toggle(2, 2).unwrap();
    grid.draw(2, 2, &Mode::SmallCube).unwrap();
    grid.draw(4, 4, &Mode::SmallPlus).unwrap();
    assert_eq!(live_cells(&grid), vec![(2, 2)]);
}

#[test]
fn draw_dot_reports_out_of_bounds() {
    let mut grid = Grid::new(4, 4).unwrap();
    assert_eq!(grid.draw(4, 4, &Mode::Dot).unwrap_err(), GridError::OutOfBounds);
    assert!(live_cells(&grid).is_empty());
}

#[test]
fn stamps_then_ticks_interact_with_the_rule() {
    // A line stamp is a horizontal blinker: one tick turns it vertical.
    let mut grid = Grid::new(7, 7).unwrap();
    grid.line(3, 3);
    grid.tick();
    assert_eq!(live_cells(&grid), vec![(3, 2), (3, 3), (3, 4)]);
}
