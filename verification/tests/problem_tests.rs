use game_of_life_reverse::grid::Grid;
use game_of_life_reverse::problem::{ReverseProblem, SolvabilityLikelihood};
use game_of_life_reverse::settings::{
    BoundaryCondition, EncodingConfig, InputConfig, OptimizationLevel, OutputConfig, OutputFormat,
    Settings, SimulationConfig, SolverBackend, SolverConfig,
};

fn create_test_settings() -> Settings {
    Settings {
        simulation: SimulationConfig {
            generations: 1,
            boundary_condition: BoundaryCondition::Dead,
        },
        solver: SolverConfig {
            max_solutions: 5,
            timeout_seconds: 10,
            optimization_level: OptimizationLevel::Fast,
            backend: SolverBackend::Cadical,
            random_seed: None,
        },
        input: InputConfig { target_state_file: "test.txt".to_string() },
        output: OutputConfig {
            format: OutputFormat::Text,
            save_intermediate: false,
            output_directory: "output".to_string(),
        },
        encoding: EncodingConfig { symmetry_breaking: false },
    }
}

#[test]
fn test_problem_creation_with_grid() {
    let settings = create_test_settings();
    let cells = vec![
        vec![true, false, true],
        vec![false, true, false],
        vec![true, false, true],
    ];
    let target_grid = Grid::from_cells(cells, BoundaryCondition::Dead).unwrap();
    let problem = ReverseProblem::with_target_grid(settings, target_grid).unwrap();
    assert_eq!(problem.target_grid().living_count(), 5);
}

#[test]
fn test_solvability_estimation() {
    let settings = create_test_settings();
    let cells = vec![
        vec![false, false, false],
        vec![true, true, true],
        vec![false, false, false],
    ];
    let target_grid = Grid::from_cells(cells, BoundaryCondition::Dead).unwrap();
    let problem = ReverseProblem::with_target_grid(settings, target_grid).unwrap();
    let estimate = problem.estimate_solvability();
    assert_eq!(estimate.likelihood, SolvabilityLikelihood::High);
}

#[test]
fn test_pattern_detection() {
    let settings = create_test_settings();
    let blinker_cells = vec![
        vec![false, false, false],
        vec![true, true, true],
        vec![false, false, false],
    ];
    let blinker_grid = Grid::from_cells(blinker_cells, BoundaryCondition::Dead).unwrap();
    let problem = ReverseProblem::with_target_grid(settings, blinker_grid).unwrap();
    assert!(problem.detect_blinker_pattern());
}
