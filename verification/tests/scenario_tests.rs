use game_of_life_reverse::errors::EngineError;
use game_of_life_reverse::grid::Grid;
use game_of_life_reverse::grid_text::parse_grid_from_string;
use game_of_life_reverse::problem::ReverseProblem;
use game_of_life_reverse::rules::GameOfLifeRules;
use game_of_life_reverse::settings::{
    BoundaryCondition, EncodingConfig, InputConfig, OptimizationLevel, OutputConfig, OutputFormat,
    Settings, SimulationConfig, SolverBackend, SolverConfig,
};
use game_of_life_reverse::solution::Solution;
use game_of_life_reverse::variables::VariableManager;

fn make_settings(generations: usize, boundary: BoundaryCondition, max_solutions: usize) -> Settings {
    Settings {
        simulation: SimulationConfig { generations, boundary_condition: boundary },
        solver: SolverConfig {
            max_solutions,
            timeout_seconds: 30,
            optimization_level: OptimizationLevel::Fast,
            backend: SolverBackend::Cadical,
            random_seed: None,
        },
        input: InputConfig { target_state_file: String::new() },
        output: OutputConfig {
            format: OutputFormat::Text,
            save_intermediate: false,
            output_directory: String::new(),
        },
        encoding: EncodingConfig { symmetry_breaking: false },
    }
}

fn solve(target_text: &str, generations: usize, boundary: BoundaryCondition, max_solutions: usize) -> Vec<Solution> {
    let target = parse_grid_from_string(target_text, boundary).unwrap();
    let settings = make_settings(generations, boundary, max_solutions);
    let mut problem = ReverseProblem::with_target_grid(settings, target).unwrap();
    problem.solve().unwrap()
}

#[test]
fn blinker_one_step_dead_boundary() {
    // Exhaustive simulation of all 512 grids shows the horizontal blinker
    // has exactly one predecessor inside a three-by-three dead-boundary
    // grid: the vertical blinker. The enumerator must find it.
    let target_text = "000\n111\n000\n";
    let solutions = solve(target_text, 1, BoundaryCondition::Dead, 10);
    assert_eq!(solutions.len(), 1);
    let vertical = parse_grid_from_string("010\n010\n010\n", BoundaryCondition::Dead).unwrap();
    assert!(solutions.iter().any(|s| s.predecessor.cells == vertical.cells));
    let target = parse_grid_from_string(target_text, BoundaryCondition::Dead).unwrap();
    for s in &solutions {
        let evolved = GameOfLifeRules::evolve(&s.predecessor);
        assert!(GameOfLifeRules::grids_equal(&evolved, &target));
    }
}

#[test]
fn block_still_life_is_own_predecessor() {
    // Exhaustive simulation of all 65536 grids shows the block has 51
    // predecessors inside a four-by-four dead-boundary grid. A budget
    // above that lets the enumerator exhaust them, so the block itself
    // must be among the returned predecessors.
    let target_text = "0000\n0110\n0110\n0000\n";
    let solutions = solve(target_text, 1, BoundaryCondition::Dead, 60);
    assert_eq!(solutions.len(), 51);
    let target = parse_grid_from_string(target_text, BoundaryCondition::Dead).unwrap();
    assert!(solutions.iter().any(|s| s.predecessor.cells == target.cells));
}

#[test]
fn empty_target_has_many_predecessors() {
    let target_text = "000\n000\n000\n";
    let solutions = solve(target_text, 1, BoundaryCondition::Dead, 3);
    assert!(solutions.len() >= 3);
}

#[test]
fn single_live_cell_is_garden_of_eden() {
    let solutions = solve("1\n", 1, BoundaryCondition::Dead, 5);
    assert!(solutions.is_empty());
}

#[test]
fn blinker_two_steps() {
    let target_text = "000\n111\n000\n";
    let solutions = solve(target_text, 2, BoundaryCondition::Dead, 10);
    let target = parse_grid_from_string(target_text, BoundaryCondition::Dead).unwrap();
    assert!(!solutions.is_empty());
    for s in &solutions {
        let once = GameOfLifeRules::evolve(&s.predecessor);
        let twice = GameOfLifeRules::evolve(&once);
        assert!(GameOfLifeRules::grids_equal(&twice, &target));
    }
    assert!(solutions.iter().any(|s| s.predecessor.cells == target.cells));
}

#[test]
fn wrap_all_ones_predecessors_validate() {
    // On the three-by-three torus a single full column lights every cell:
    // each dead cell sees exactly three live neighbors and each live cell
    // two, so the all-ones target is reachable there.
    let target = parse_grid_from_string("111\n111\n111\n", BoundaryCondition::Wrap).unwrap();
    let column = parse_grid_from_string("010\n010\n010\n", BoundaryCondition::Wrap).unwrap();
    let lit = GameOfLifeRules::evolve(&column);
    assert!(GameOfLifeRules::grids_equal(&lit, &target));
    let solutions = solve("111\n111\n111\n", 1, BoundaryCondition::Wrap, 5);
    assert!(!solutions.is_empty());
    for s in &solutions {
        let evolved = GameOfLifeRules::evolve(&s.predecessor);
        assert!(GameOfLifeRules::grids_equal(&evolved, &target));
    }
}

#[test]
fn predecessors_are_pairwise_distinct() {
    let solutions = solve("000\n111\n000\n", 1, BoundaryCondition::Dead, 10);
    for i in 0..solutions.len() {
        for j in 0..solutions.len() {
            if i != j {
                assert_ne!(solutions[i].predecessor.cells, solutions[j].predecessor.cells);
            }
        }
    }
}

#[test]
fn sequential_solving_is_repeatable() {
    let first = solve("000\n111\n000\n", 1, BoundaryCondition::Dead, 1);
    let second = solve("000\n111\n000\n", 1, BoundaryCondition::Dead, 1);
    assert_eq!(first.len(), 1);
    assert_eq!(second.len(), 1);
    assert_eq!(first[0].predecessor.cells, second[0].predecessor.cells);
}

#[test]
fn resolving_a_returned_predecessor_returns_it() {
    let solutions = solve("000\n111\n000\n", 1, BoundaryCondition::Dead, 1);
    assert_eq!(solutions.len(), 1);
    let evolved = GameOfLifeRules::evolve(&solutions[0].predecessor);
    let again = solve("000\n111\n000\n", 1, BoundaryCondition::Dead, 1);
    assert_eq!(again[0].predecessor.cells, solutions[0].predecessor.cells);
    let target = parse_grid_from_string("000\n111\n000\n", BoundaryCondition::Dead).unwrap();
    assert!(GameOfLifeRules::grids_equal(&evolved, &target));
}

#[test]
fn mirror_boundary_round_trip() {
    let target_text = "00\n00\n";
    let solutions = solve(target_text, 1, BoundaryCondition::Mirror, 2);
    let target = parse_grid_from_string(target_text, BoundaryCondition::Mirror).unwrap();
    for s in &solutions {
        let evolved = GameOfLifeRules::evolve(&s.predecessor);
        assert!(GameOfLifeRules::grids_equal(&evolved, &target));
    }
}

#[test]
fn symmetry_breaking_still_yields_valid_predecessors() {
    let target = parse_grid_from_string("000\n111\n000\n", BoundaryCondition::Dead).unwrap();
    let mut settings = make_settings(1, BoundaryCondition::Dead, 5);
    settings.encoding.symmetry_breaking = true;
    let mut problem = ReverseProblem::with_target_grid(settings, target.duplicate()).unwrap();
    let solutions = problem.solve().unwrap();
    for s in &solutions {
        let evolved = GameOfLifeRules::evolve(&s.predecessor);
        assert!(GameOfLifeRules::grids_equal(&evolved, &target));
    }
}

#[test]
fn variable_manager_out_of_bounds_error() {
    let mut vm = VariableManager::new(2, 2, 2, false);
    match vm.cell_variable(5, 0, 0) {
        Err(EngineError::OutOfBounds { x, y, t }) => {
            assert_eq!((x, y, t), (5, 0, 0));
        }
        other => panic!("expected an out-of-bounds error, got {:?}", other),
    }
}

#[test]
fn parse_reports_bad_character_position() {
    match parse_grid_from_string("010\n0X0\n", BoundaryCondition::Dead) {
        Err(EngineError::InvalidInput(fault)) => {
            let text = format!("{:?}", fault);
            assert!(text.contains("BadCharacter"));
        }
        other => panic!("expected an invalid input error, got {:?}", other),
    }
}

#[test]
fn evolve_agrees_with_encoding_on_all_two_by_two_dead_grids() {
    // Every 2x2 grid evolved one step forward is a predecessor of its own
    // image: re-encoding the image must return satisfiable.
    for mask in 0..16u32 {
        let cells = vec![
            vec![mask & 1 != 0, mask & 2 != 0],
            vec![mask & 4 != 0, mask & 8 != 0],
        ];
        let start = Grid::from_cells(cells, BoundaryCondition::Dead).unwrap();
        let image = GameOfLifeRules::evolve(&start);
        let settings = make_settings(1, BoundaryCondition::Dead, 16);
        let mut problem = ReverseProblem::with_target_grid(settings, image.duplicate()).unwrap();
        let solutions = problem.solve().unwrap();
        assert!(
            solutions.iter().any(|s| s.predecessor.cells == start.cells),
            "missing predecessor for mask {}",
            mask
        );
    }
}

#[test]
fn evolve_agrees_with_encoding_on_all_two_by_two_mirror_grids() {
    // Mirrored borders make several offsets of one neighborhood land on
    // the same cell; encoding and simulator both count per offset, so
    // every forward image must be reachable from its source.
    for mask in 0..16u32 {
        let cells = vec![
            vec![mask & 1 != 0, mask & 2 != 0],
            vec![mask & 4 != 0, mask & 8 != 0],
        ];
        let start = Grid::from_cells(cells, BoundaryCondition::Mirror).unwrap();
        let image = GameOfLifeRules::evolve(&start);
        let settings = make_settings(1, BoundaryCondition::Mirror, 20);
        let mut problem = ReverseProblem::with_target_grid(settings, image.duplicate()).unwrap();
        let solutions = problem.solve().unwrap();
        assert!(
            solutions.iter().any(|s| s.predecessor.cells == start.cells),
            "missing mirror predecessor for mask {}",
            mask
        );
    }
}

#[test]
fn evolve_agrees_with_encoding_on_all_two_by_two_wrap_grids() {
    // On the two-by-two torus opposite offsets wrap onto the same cell;
    // the multiplicity counting keeps encoding and simulator in step.
    for mask in 0..16u32 {
        let cells = vec![
            vec![mask & 1 != 0, mask & 2 != 0],
            vec![mask & 4 != 0, mask & 8 != 0],
        ];
        let start = Grid::from_cells(cells, BoundaryCondition::Wrap).unwrap();
        let image = GameOfLifeRules::evolve(&start);
        let settings = make_settings(1, BoundaryCondition::Wrap, 20);
        let mut problem = ReverseProblem::with_target_grid(settings, image.duplicate()).unwrap();
        let solutions = problem.solve().unwrap();
        assert!(
            solutions.iter().any(|s| s.predecessor.cells == start.cells),
            "missing wrap predecessor for mask {}",
            mask
        );
    }
}

#[test]
fn mirror_three_by_three_enumeration_is_not_empty() {
    // A three-by-three mirrored grid with a full middle row: its forward
    // image has predecessors, and the enumerator must surface them.
    let start = parse_grid_from_string("000\n111\n000\n", BoundaryCondition::Mirror).unwrap();
    let image = GameOfLifeRules::evolve(&start);
    let settings = make_settings(1, BoundaryCondition::Mirror, 600);
    let mut problem = ReverseProblem::with_target_grid(settings, image.duplicate()).unwrap();
    let solutions = problem.solve().unwrap();
    assert!(!solutions.is_empty());
    assert!(solutions.iter().any(|s| s.predecessor.cells == start.cells));
    for s in &solutions {
        let evolved = GameOfLifeRules::evolve(&s.predecessor);
        assert!(GameOfLifeRules::grids_equal(&evolved, &image));
    }
}

#[test]
fn settings_validation_covers_the_target_file() {
    let settings = make_settings(1, BoundaryCondition::Dead, 5);
    assert!(settings.validate(true).is_ok());
    assert!(settings.validate(false).is_err());
    let mut zero = make_settings(0, BoundaryCondition::Dead, 5);
    zero.simulation.generations = 0;
    assert!(zero.validate(true).is_err());
}

#[test]
fn solution_records_elapsed_time() {
    let solutions = solve("0000\n0110\n0110\n0000\n", 1, BoundaryCondition::Dead, 2);
    assert!(!solutions.is_empty());
    // The recorded wall time is end-to-end and monotone over the run.
    for pair in solutions.windows(2) {
        assert!(pair[0].solve_time_ms <= pair[1].solve_time_ms);
    }
}
