use game_of_life_reverse::grid::Grid;
use game_of_life_reverse::settings::BoundaryCondition;
use game_of_life_reverse::solution::{Solution, SolutionMetadata, StabilityAnalysis};

#[test]
fn test_solution_creation() {
    let cells = vec![
        vec![true, false, true],
        vec![false, true, false],
        vec![true, false, true],
    ];
    let predecessor = Grid::from_cells(cells.clone(), BoundaryCondition::Dead).unwrap();
    let target = Grid::from_cells(cells, BoundaryCondition::Dead).unwrap();
    let evolution_path = vec![predecessor.duplicate(), target.duplicate()];
    let solution = Solution::new(predecessor, target, 1, evolution_path, 100);
    assert_eq!(solution.generations, 1);
    assert_eq!(solution.metadata.predecessor_living_cells, 5);
    assert!(!solution.metadata.id.is_empty());
}

#[test]
fn test_blinker_detection() {
    let cells = vec![
        vec![false, false, false],
        vec![true, true, true],
        vec![false, false, false],
    ];
    let grid = Grid::from_cells(cells, BoundaryCondition::Dead).unwrap();
    assert!(SolutionMetadata::is_blinker_pattern(&grid));
}

#[test]
fn test_block_detection() {
    let cells = vec![
        vec![false, false, false, false],
        vec![false, true, true, false],
        vec![false, true, true, false],
        vec![false, false, false, false],
    ];
    let grid = Grid::from_cells(cells, BoundaryCondition::Dead).unwrap();
    assert!(SolutionMetadata::is_block_pattern(&grid));
}

#[test]
fn test_still_life_detection() {
    let cells = vec![vec![true, false], vec![false, true]];
    let grid1 = Grid::from_cells(cells.clone(), BoundaryCondition::Dead).unwrap();
    let grid2 = Grid::from_cells(cells, BoundaryCondition::Dead).unwrap();
    let evolution_path = vec![grid1, grid2];
    assert!(StabilityAnalysis::check_still_life(&evolution_path));
}

#[test]
fn test_solution_comparison() {
    let cells = vec![vec![true]];
    let grid = Grid::from_cells(cells, BoundaryCondition::Dead).unwrap();
    let evolution_path = vec![grid.duplicate()];
    let solution1 = Solution::new(
        grid.duplicate(),
        grid.duplicate(),
        1,
        evolution_path,
        100,
    );
    let solution2 = Solution::new(
        grid.duplicate(),
        grid,
        1,
        vec![],
        200,
    );
    assert!(solution1.is_equivalent_to(&solution2));
}

#[test]
fn test_solution_id_is_stable() {
    let cells = vec![vec![true, false], vec![false, true]];
    let g1 = Grid::from_cells(cells.clone(), BoundaryCondition::Dead).unwrap();
    let g2 = Grid::from_cells(cells, BoundaryCondition::Dead).unwrap();
    let m1 = SolutionMetadata::analyze(&g1, &g1, &vec![]);
    let m2 = SolutionMetadata::analyze(&g2, &g2, &vec![]);
    assert_eq!(m1.id, m2.id);
    assert!(m1.id.starts_with("sol_"));
}
