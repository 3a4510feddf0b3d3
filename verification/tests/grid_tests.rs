use game_of_life_reverse::grid::Grid;
use game_of_life_reverse::settings::BoundaryCondition;

#[test]
fn test_grid_creation() {
    let grid = Grid::new(3, 3, BoundaryCondition::Dead);
    assert_eq!(grid.width, 3);
    assert_eq!(grid.height, 3);
    assert_eq!(grid.cells.len(), 9);
    assert!(grid.is_empty());
}

#[test]
fn test_grid_from_cells() {
    let cells = vec![
        vec![true, false, true],
        vec![false, true, false],
        vec![true, false, true],
    ];
    let grid = Grid::from_cells(cells, BoundaryCondition::Dead).unwrap();
    assert_eq!(grid.width, 3);
    assert_eq!(grid.height, 3);
    assert_eq!(grid.living_count(), 5);
}

#[test]
fn test_neighbor_counting() {
    let cells = vec![
        vec![true, true, true],
        vec![true, false, true],
        vec![true, true, true],
    ];
    let grid = Grid::from_cells(cells, BoundaryCondition::Dead).unwrap();
    assert_eq!(grid.count_neighbors(1, 1), 8);
    assert_eq!(grid.count_neighbors(0, 0), 2);
}

#[test]
fn test_boundary_conditions() {
    let cells = vec![vec![true, false], vec![false, true]];
    let grid_dead = Grid::from_cells(cells.clone(), BoundaryCondition::Dead).unwrap();
    assert_eq!(grid_dead.count_neighbors(0, 0), 1);
    let grid_wrap = Grid::from_cells(cells, BoundaryCondition::Wrap).unwrap();
    assert_eq!(grid_wrap.count_neighbors(0, 0), 4);
}
