//! Spatial grid tests on cells: world positions map to cells of 64 units
//! (floor division), and a range `r` reaches `ceil(r / 64) + 1` cells.

use neon_command::spatial::SpatialGrid;

#[test]
fn test_insert_and_query_basic() {
    let mut grid = SpatialGrid::new();
    // (32, 32) lies in cell (0, 0); range 10 reaches 2 cells.
    grid.insert(1, (0, 0));
    let result = grid.query_cells((0, 0), 2);
    assert!(result.contains(&1));
}

#[test]
fn test_query_empty_grid() {
    let grid = SpatialGrid::new();
    // Range 100 reaches 3 cells.
    let result = grid.query_cells((0, 0), 3);
    assert!(result.is_empty());
}

#[test]
fn test_query_finds_nearby_entities() {
    let mut grid = SpatialGrid::new();
    // (10, 10), (30, 10) and (10, 30) all lie in cell (0, 0).
    grid.insert(1, (0, 0));
    grid.insert(2, (0, 0));
    grid.insert(3, (0, 0));
    // Query at (20, 20), cell (0, 0), range 100: 3 cells.
    let result = grid.query_cells((0, 0), 3);
    assert!(result.contains(&1));
    assert!(result.contains(&2));
    assert!(result.contains(&3));
}

#[test]
fn test_query_range_includes_adjacent_cells() {
    let mut grid = SpatialGrid::new();
    grid.insert(1, (0, 0)); // (10, 10)
    grid.insert(2, (1, 1)); // (100, 100)
    // Range 200 reaches 5 cells.
    let result = grid.query_cells((0, 0), 5);
    assert!(result.contains(&1));
    assert!(result.contains(&2));
}

#[test]
fn test_query_range_excludes_distant_cells() {
    let mut grid = SpatialGrid::new();
    grid.insert(1, (0, 0)); // (0, 0)
    grid.insert(2, (15, 0)); // (1000, 0)
    // Range 50 reaches 2 cells.
    let result = grid.query_cells((0, 0), 2);
    assert!(result.contains(&1));
    assert!(!result.contains(&2));
}

#[test]
fn test_multiple_entities_same_cell() {
    let mut grid = SpatialGrid::new();
    // (5, 5), (10, 10) and (15, 15) all lie in cell (0, 0).
    grid.insert(1, (0, 0));
    grid.insert(2, (0, 0));
    grid.insert(3, (0, 0));
    // Range 1 reaches 2 cells.
    let result = grid.query_cells((0, 0), 2);
    assert_eq!(result.len(), 3);
}

#[test]
fn test_clear_removes_entities() {
    let mut grid = SpatialGrid::new();
    grid.insert(1, (0, 0)); // (10, 10)
    grid.insert(2, (0, 0)); // (20, 20)
    grid.clear();
    // Range 1000 reaches 17 cells.
    let result = grid.query_cells((0, 0), 17);
    assert!(result.is_empty());
}

#[test]
fn test_clear_preserves_cell_allocation() {
    let mut grid = SpatialGrid::new();
    grid.insert(1, (0, 0)); // (10, 10)
    grid.clear();
    // The cell keeps its storage, emptied.
    assert!(grid.cell_has_storage((0, 0)));
    assert!(grid.query_cells((0, 0), 0).is_empty());
}

#[test]
fn test_insert_after_clear() {
    let mut grid = SpatialGrid::new();
    grid.insert(1, (0, 0)); // (10, 10)
    grid.clear();
    grid.insert(2, (0, 0)); // (10, 10)
    // Range 1 reaches 2 cells.
    let result = grid.query_cells((0, 0), 2);
    assert_eq!(result.len(), 1);
    assert!(result.contains(&2));
}

#[test]
fn test_zero_range_returns_same_cell() {
    let mut grid = SpatialGrid::new();
    grid.insert(1, (0, 0)); // (10, 10)
    // Range 0 still reaches 1 cell.
    let result = grid.query_cells((0, 0), 1);
    assert!(result.contains(&1));
}

#[test]
fn test_negative_positions() {
    let mut grid = SpatialGrid::new();
    // (-200, -300) lies in cell (-4, -5); range 10 reaches 2 cells.
    grid.insert(1, (-4, -5));
    let result = grid.query_cells((-4, -5), 2);
    assert!(result.contains(&1));
}

#[test]
fn test_entity_cells_tracking() {
    let mut grid = SpatialGrid::new();
    // (100, 100) lies in cell (1, 1).
    grid.insert(1, (1, 1));
    assert_eq!(grid.entity_cell(1), Some((1, 1)));
}

#[test]
fn entity_cells_forgotten_after_clear() {
    let mut grid = SpatialGrid::new();
    grid.insert(1, (1, 1));
    grid.insert(1, (2, 2));
    assert_eq!(grid.entity_cell(1), Some((2, 2)));
    grid.clear();
    assert_eq!(grid.entity_cell(1), None);
    assert!(grid.cell_has_storage((1, 1)));
    assert!(!grid.cell_has_storage((3, 3)));
}
