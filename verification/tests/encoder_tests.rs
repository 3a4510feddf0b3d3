use game_of_life_reverse::encoder::SatEncoder;
use game_of_life_reverse::grid::Grid;
use game_of_life_reverse::settings::{
    BoundaryCondition, EncodingConfig, InputConfig, OptimizationLevel, OutputConfig, OutputFormat,
    Settings, SimulationConfig, SolverBackend, SolverConfig,
};
use game_of_life_reverse::solver::SolverSolution;
use std::collections::HashMap;

fn create_test_settings() -> Settings {
    Settings {
        simulation: SimulationConfig {
            generations: 1,
            boundary_condition: BoundaryCondition::Dead,
        },
        solver: SolverConfig {
            max_solutions: 5,
            timeout_seconds: 10,
            optimization_level: OptimizationLevel::Fast,
            backend: SolverBackend::Cadical,
            random_seed: None,
        },
        input: InputConfig { target_state_file: "test.txt".to_string() },
        output: OutputConfig {
            format: OutputFormat::Text,
            save_intermediate: false,
            output_directory: "output".to_string(),
        },
        encoding: EncodingConfig { symmetry_breaking: false },
    }
}

fn target_grid() -> Grid {
    let cells = vec![
        vec![false, true, false],
        vec![true, false, true],
        vec![false, true, false],
    ];
    Grid::from_cells(cells, BoundaryCondition::Dead).unwrap()
}

#[test]
fn test_encoder_creation() {
    let settings = create_test_settings();
    let target = target_grid();
    let encoder = SatEncoder::new(settings, &target);
    let stats = encoder.statistics();
    assert_eq!(stats.grid_width, 3);
    assert_eq!(stats.grid_height, 3);
    assert_eq!(stats.generations, 1);
}

#[test]
fn test_complexity_estimation() {
    let settings = create_test_settings();
    let target = target_grid();
    let encoder = SatEncoder::new(settings, &target);
    let estimate = encoder.estimate_complexity(&target);
    assert_eq!(estimate.grid_size, 9);
    assert_eq!(estimate.time_steps, 2);
    assert!(estimate.living_cells > 0);
}

#[test]
fn test_grid_extraction() {
    let settings = create_test_settings();
    let target = target_grid();
    let mut encoder = SatEncoder::new(settings, &target);
    let mut assignment: HashMap<i32, bool> = HashMap::new();
    for y in 0..3 {
        for x in 0..3 {
            let var = encoder
                .constraint_generator
                .variable_manager()
                .cell_variable(x, y, 0)
                .unwrap();
            assignment.insert(var, x == 1 && y == 1);
        }
    }
    let solution = SolverSolution { assignment, solve_time_ms: 100 };
    let grid = encoder.extract_grid_from_solution(&solution, 0).unwrap();
    assert_eq!(grid.living_count(), 1);
    assert!(grid.get(1, 1));
    assert!(!grid.get(0, 0));
}
