use backtester::exchange::SCALE;
use backtester::grid::Grid;

fn units(whole: u64) -> u64 {
    whole * SCALE
}

#[test]
fn initialize_grid() {
    let grid = Grid::new(units(2), units(10), units(50));
    assert_eq!(grid.min, units(10));
    assert_eq!(grid.max, units(50));
    assert_eq!(grid.midpoint, units(30));
    // (max - min) / 2 + 1
    assert_eq!(grid.lines.len(), 21);
    assert_eq!(grid.lines[5], units(20));
}

#[test]
fn grid_with_uneven_last_step() {
    let grid = Grid::new(3, 10, 20);
    assert_eq!(grid.lines, vec![10, 13, 16, 19, 20]);
    assert_eq!(grid.midpoint, 15);
}

#[test]
fn grid_of_one_point_and_reversed_bounds() {
    assert_eq!(Grid::new(5, 7, 7).lines, vec![7, 7]);
    let reversed = Grid::new(5, 20, 10);
    assert_eq!(reversed.lines, vec![20, 10]);
    assert_eq!(reversed.midpoint, 15);
}

#[test]
fn position_relative_to_midpoint() {
    let grid = Grid::new(units(2), units(10), units(80));
    assert_eq!(grid.midpoint, units(45));
    assert_eq!(grid.relative_to_midpoint(1_499_990_000), -1);
    assert_eq!(grid.relative_to_midpoint(units(45)), 0);
    assert_eq!(grid.relative_to_midpoint(units(46)), 1);
}
