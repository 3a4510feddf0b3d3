use game_of_life_reverse::grid::Grid;
use game_of_life_reverse::rules::GameOfLifeRules;
use game_of_life_reverse::settings::BoundaryCondition;

#[test]
fn test_still_life_block() {
    let cells = vec![
        vec![false, false, false, false],
        vec![false, true, true, false],
        vec![false, true, true, false],
        vec![false, false, false, false],
    ];
    let grid = Grid::from_cells(cells, BoundaryCondition::Dead).unwrap();
    let evolved = GameOfLifeRules::evolve(&grid);
    assert!(GameOfLifeRules::grids_equal(&grid, &evolved));
}

#[test]
fn test_oscillator_blinker() {
    let cells = vec![
        vec![false, false, false],
        vec![true, true, true],
        vec![false, false, false],
    ];
    let grid = Grid::from_cells(cells, BoundaryCondition::Dead).unwrap();
    let evolved = GameOfLifeRules::evolve(&grid);
    let expected_cells = vec![
        vec![false, true, false],
        vec![false, true, false],
        vec![false, true, false],
    ];
    let expected = Grid::from_cells(expected_cells, BoundaryCondition::Dead).unwrap();
    assert!(GameOfLifeRules::grids_equal(&evolved, &expected));
    let evolved_twice = GameOfLifeRules::evolve(&evolved);
    assert!(GameOfLifeRules::grids_equal(&grid, &evolved_twice));
}

#[test]
fn test_rule_logic() {
    assert!(GameOfLifeRules::should_be_alive(true, 2));
    assert!(GameOfLifeRules::should_be_alive(true, 3));
    assert!(GameOfLifeRules::should_be_alive(false, 3));
    assert!(!GameOfLifeRules::should_be_alive(true, 1));
    assert!(!GameOfLifeRules::should_be_alive(true, 4));
    assert!(!GameOfLifeRules::should_be_alive(false, 2));
}

#[test]
fn test_validation() {
    let cells = vec![
        vec![false, true, false],
        vec![false, true, false],
        vec![false, true, false],
    ];
    let predecessor = Grid::from_cells(cells, BoundaryCondition::Dead).unwrap();
    let target_cells = vec![
        vec![false, false, false],
        vec![true, true, true],
        vec![false, false, false],
    ];
    let target = Grid::from_cells(target_cells, BoundaryCondition::Dead).unwrap();
    assert!(GameOfLifeRules::validate_evolution(&predecessor, &target, 1));
    assert!(!GameOfLifeRules::validate_evolution(&predecessor, &target, 2));
}

#[test]
fn test_neighbor_count_constants() {
    assert_eq!(GameOfLifeRules::max_neighbor_count(), 8);
    assert!(GameOfLifeRules::is_valid_neighbor_count(0));
    assert!(GameOfLifeRules::is_valid_neighbor_count(8));
    assert!(!GameOfLifeRules::is_valid_neighbor_count(9));
    assert_eq!(GameOfLifeRules::birth_neighbor_counts(), vec![3]);
    assert_eq!(GameOfLifeRules::survival_neighbor_counts(), vec![2, 3]);
}

#[test]
fn test_mirror_boundary_counts() {
    let cells = vec![vec![true, false], vec![false, false]];
    let grid = Grid::from_cells(cells, BoundaryCondition::Mirror).unwrap();
    // Under the mirror rule the corner cell reads its own reflections.
    assert_eq!(grid.count_neighbors(0, 0), 3);
}
