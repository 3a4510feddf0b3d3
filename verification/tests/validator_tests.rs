use game_of_life_reverse::grid::Grid;
use game_of_life_reverse::settings::{
    BoundaryCondition, EncodingConfig, InputConfig, OptimizationLevel, OutputConfig, OutputFormat,
    Settings, SimulationConfig, SolverBackend, SolverConfig,
};
use game_of_life_reverse::validator::SolutionValidator;

fn create_test_settings() -> Settings {
    Settings {
        simulation: SimulationConfig {
            generations: 1,
            boundary_condition: BoundaryCondition::Dead,
        },
        solver: SolverConfig {
            max_solutions: 5,
            timeout_seconds: 10,
            optimization_level: OptimizationLevel::Fast,
            backend: SolverBackend::Cadical,
            random_seed: None,
        },
        input: InputConfig { target_state_file: "test.txt".to_string() },
        output: OutputConfig {
            format: OutputFormat::Text,
            save_intermediate: false,
            output_directory: "output".to_string(),
        },
        encoding: EncodingConfig { symmetry_breaking: false },
    }
}

#[test]
fn test_valid_blinker_evolution() {
    let settings = create_test_settings();
    let validator = SolutionValidator::new(settings);
    let predecessor_cells = vec![
        vec![false, true, false],
        vec![false, true, false],
        vec![false, true, false],
    ];
    let target_cells = vec![
        vec![false, false, false],
        vec![true, true, true],
        vec![false, false, false],
    ];
    let predecessor = Grid::from_cells(predecessor_cells, BoundaryCondition::Dead).unwrap();
    let target = Grid::from_cells(target_cells, BoundaryCondition::Dead).unwrap();
    let result = validator.validate(&predecessor, &target).unwrap();
    assert!(result.is_valid);
    assert!(result.validation_details.final_state_matches);
    assert!(result.validation_details.intermediate_states_valid);
    assert_eq!(result.validation_details.rule_violations.len(), 0);
}

#[test]
fn test_invalid_evolution() {
    let settings = create_test_settings();
    let validator = SolutionValidator::new(settings);
    let predecessor = Grid::new(3, 3, BoundaryCondition::Dead);
    let target_cells = vec![
        vec![false, false, false],
        vec![false, true, false],
        vec![false, false, false],
    ];
    let target = Grid::from_cells(target_cells, BoundaryCondition::Dead).unwrap();
    let result = validator.validate(&predecessor, &target).unwrap();
    assert!(!result.is_valid);
    assert!(!result.validation_details.final_state_matches);
}

#[test]
fn test_dimension_mismatch() {
    let settings = create_test_settings();
    let validator = SolutionValidator::new(settings);
    let predecessor = Grid::new(3, 3, BoundaryCondition::Dead);
    let target = Grid::new(4, 4, BoundaryCondition::Dead);
    let result = validator.validate(&predecessor, &target).unwrap();
    assert!(!result.is_valid);
    assert!(result.error_message.is_some());
    assert!(result.error_message.unwrap().contains("dimension mismatch"));
}

#[test]
fn test_quick_validation() {
    let settings = create_test_settings();
    let validator = SolutionValidator::new(settings);
    let grid = Grid::new(3, 3, BoundaryCondition::Dead);
    let is_valid = validator.quick_validate(&grid, &grid).unwrap();
    assert!(is_valid);
}

#[test]
fn test_grid_state_validation() {
    let settings = create_test_settings();
    let validator = SolutionValidator::new(settings);
    let normal_cells = vec![
        vec![false, true, false],
        vec![true, false, true],
        vec![false, true, false],
    ];
    let normal_grid = Grid::from_cells(normal_cells, BoundaryCondition::Dead).unwrap();
    let result = validator.validate_grid_state(&normal_grid);
    assert!(result.is_valid);
    let isolated_cells = vec![
        vec![true, false, true],
        vec![false, false, false],
        vec![true, false, true],
    ];
    let isolated_grid = Grid::from_cells(isolated_cells, BoundaryCondition::Dead).unwrap();
    let result = validator.validate_grid_state(&isolated_grid);
    assert_eq!(result.isolated_cells, 4);
}

#[test]
fn test_rule_violation_detection() {
    let settings = create_test_settings();
    let validator = SolutionValidator::new(settings);
    let current_cells = vec![
        vec![false, false, false],
        vec![false, true, false],
        vec![false, false, false],
    ];
    let next_cells = vec![
        vec![false, false, false],
        vec![false, true, false],
        vec![false, false, false],
    ];
    let current = Grid::from_cells(current_cells, BoundaryCondition::Dead).unwrap();
    let next = Grid::from_cells(next_cells, BoundaryCondition::Dead).unwrap();
    let violations = validator.validate_transition(&current, &next, 0);
    assert!(!violations.is_empty());
    assert_eq!(violations[0].cell_position, (1, 1));
    assert_eq!(violations[0].neighbor_count, 0);
    assert_eq!(violations[0].expected_state, false);
    assert_eq!(violations[0].actual_state, true);
}
