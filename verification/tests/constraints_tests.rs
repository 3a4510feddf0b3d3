use game_of_life_reverse::clauses::Clause;
use game_of_life_reverse::constraints::ConstraintGenerator;
use game_of_life_reverse::grid::Grid;
use game_of_life_reverse::settings::BoundaryCondition;

#[test]
fn test_clause_creation() {
    let clause = Clause::new(vec![1, -2, 3]);
    assert_eq!(clause.literals, vec![1, -2, 3]);
    assert!(!clause.is_empty());
    assert!(!clause.is_unit());
    let unit_clause = Clause::unit(5);
    assert!(unit_clause.is_unit());
    assert_eq!(unit_clause.literals, vec![5]);
}

#[test]
fn test_constraint_generator_creation() {
    let cg = ConstraintGenerator::new(3, 3, 2, BoundaryCondition::Dead, false);
    assert_eq!(cg.width, 3);
    assert_eq!(cg.height, 3);
    assert_eq!(cg.time_steps, 2);
    assert_eq!(cg.symmetry_breaking, false);
}

#[test]
fn test_target_constraints() {
    let mut cg = ConstraintGenerator::new(2, 2, 2, BoundaryCondition::Dead, false);
    let cells = vec![vec![true, false], vec![false, true]];
    let target_grid = Grid::from_cells(cells, BoundaryCondition::Dead).unwrap();
    let constraints = cg.generate_target_constraints(&target_grid).unwrap();
    assert_eq!(constraints.len(), 4);
    let v00 = cg.variable_manager().cell_variable(0, 0, 1).unwrap();
    assert!(constraints.iter().any(|c| c.literals == vec![v00]));
    let v10 = cg.variable_manager().cell_variable(1, 0, 1).unwrap();
    assert!(constraints.iter().any(|c| c.literals == vec![-v10]));
}

#[test]
fn test_transition_clause_count() {
    // A 1x1 dead-boundary cell has no neighbors: the family holds exactly
    // the two clauses over the cell and its successor.
    let mut cg = ConstraintGenerator::new(1, 1, 2, BoundaryCondition::Dead, false);
    let clauses = cg.generate_transition_constraints(0).unwrap();
    assert_eq!(clauses.len(), 2);
    // A 3x3 interior cell has eight neighbors: 2 * 2^8 clauses.
    let mut cg3 = ConstraintGenerator::new(3, 3, 2, BoundaryCondition::Wrap, false);
    let clauses3 = cg3.generate_cell_transition_constraints(1, 1, 0).unwrap();
    assert_eq!(clauses3.len(), 512);
}

#[test]
fn test_dimension_mismatch_error() {
    let mut cg = ConstraintGenerator::new(2, 2, 2, BoundaryCondition::Dead, false);
    let cells = vec![vec![true, false, true]];
    let wrong = Grid::from_cells(cells, BoundaryCondition::Dead).unwrap();
    assert!(cg.generate_all_constraints(&wrong).is_err());
}

#[test]
fn test_dense_identifier_assignment() {
    // On a fresh generator the cell at (x, y, t) receives the identifier
    // 1 + (t*h + y)*w + x, so two identical runs emit identical clauses.
    let mut cg = ConstraintGenerator::new(2, 2, 2, BoundaryCondition::Dead, false);
    let cells = vec![vec![true, false], vec![false, true]];
    let target = Grid::from_cells(cells, BoundaryCondition::Dead).unwrap();
    let clauses = cg.generate_all_constraints(&target).unwrap();
    assert_eq!(clauses[0].literals, vec![5]);
    assert_eq!(clauses[1].literals, vec![-6]);
    assert_eq!(clauses[2].literals, vec![-7]);
    assert_eq!(clauses[3].literals, vec![8]);
    let mut cg2 = ConstraintGenerator::new(2, 2, 2, BoundaryCondition::Dead, false);
    let clauses2 = cg2.generate_all_constraints(&target).unwrap();
    assert_eq!(clauses.len(), clauses2.len());
    for (a, b) in clauses.iter().zip(clauses2.iter()) {
        assert_eq!(a.literals, b.literals);
    }
}
