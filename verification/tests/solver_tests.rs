use game_of_life_reverse::clauses::Clause;
use game_of_life_reverse::settings::SolverBackend;
use game_of_life_reverse::solver::{SatSolver, SolverOptions};
use game_of_life_reverse::solver_factory::UnifiedSatSolver;

#[test]
fn solver_test_solver_creation() {
    let solver = SatSolver::new();
    assert_eq!(solver.variable_count(), 0);
    assert_eq!(solver.clause_count(), 0);
}

#[test]
fn solver_test_simple_satisfiable() {
    let mut solver = SatSolver::new();
    let clause1 = Clause::new(vec![1, 2]);
    solver.add_clause(&clause1).unwrap();
    let clause2 = Clause::new(vec![-1, 2]);
    solver.add_clause(&clause2).unwrap();
    let solution = solver.solve().unwrap();
    assert!(solution.is_some());
    let assignment = solution.unwrap().assignment;
    assert_eq!(assignment.get(&2), Some(&true));
}

#[test]
fn solver_test_unsatisfiable() {
    let mut solver = SatSolver::new();
    let clause1 = Clause::unit(1);
    let clause2 = Clause::unit(-1);
    solver.add_clause(&clause1).unwrap();
    solver.add_clause(&clause2).unwrap();
    let solution = solver.solve().unwrap();
    assert!(solution.is_none());
}

#[test]
fn test_multiple_solutions() {
    let mut solver = SatSolver::new();
    let clause = Clause::new(vec![1, 2]);
    solver.add_clause(&clause).unwrap();
    let solutions = solver.solve_multiple(3).unwrap();
    assert!(!solutions.is_empty());
    for solution in &solutions {
        let x1 = solution.assignment.get(&1).unwrap_or(&false);
        let x2 = solution.assignment.get(&2).unwrap_or(&false);
        assert!(*x1 || *x2);
    }
}

#[test]
fn solver_test_solver_options() {
    let mut solver = SatSolver::new();
    let options = SolverOptions {
        num_threads: Some(4),
        enable_preprocessing: true,
        verbosity: 1,
        timeout_ms: Some(10_000),
        random_seed: Some(42),
    };
    solver.configure(&options);
    assert_eq!(solver.variable_count(), 0);
}

#[test]
fn test_empty_clause_error() {
    let mut solver = SatSolver::new();
    let empty_clause = Clause::new(vec![]);
    assert!(solver.add_clause(&empty_clause).is_err());
}

#[test]
fn test_variable_count_tracking() {
    let mut solver = SatSolver::new();
    let clause1 = Clause::new(vec![1, -5, 3]);
    solver.add_clause(&clause1).unwrap();
    assert_eq!(solver.variable_count(), 5);
    let clause2 = Clause::new(vec![2, -7]);
    solver.add_clause(&clause2).unwrap();
    assert_eq!(solver.variable_count(), 7);
}

#[test]
fn test_cadical_solver_creation() {
    let solver = UnifiedSatSolver::new(SolverBackend::Cadical).unwrap();
    assert_eq!(solver.backend(), SolverBackend::Cadical);
    assert_eq!(solver.variable_count(), 0);
    assert_eq!(solver.clause_count(), 0);
}

#[test]
fn test_simple_satisfiable_cadical() {
    let mut solver = UnifiedSatSolver::new(SolverBackend::Cadical).unwrap();
    let clause = Clause::new(vec![1]);
    solver.add_clause(&clause).unwrap();
    let result = solver.solve().unwrap();
    assert!(result.is_some());
    let solution = result.unwrap();
    assert_eq!(solution.assignment.get(&1), Some(&true));
}

#[test]
fn test_unsatisfiable_cadical() {
    let mut solver = UnifiedSatSolver::new(SolverBackend::Cadical).unwrap();
    solver.add_clause(&Clause::new(vec![1])).unwrap();
    solver.add_clause(&Clause::new(vec![-1])).unwrap();
    let result = solver.solve().unwrap();
    assert!(result.is_none());
}

#[test]
fn test_portfolio_backend_unavailable() {
    assert!(UnifiedSatSolver::new(SolverBackend::Parkissat).is_err());
}

#[test]
fn test_blocking_enumerates_every_model() {
    // The clause (x1 or x2) has exactly three models over its two
    // variables; exact blocking clauses make the enumeration exhaustive.
    let mut solver = SatSolver::new();
    solver.add_clause(&Clause::new(vec![1, 2])).unwrap();
    let solutions = solver.solve_multiple(10).unwrap();
    assert_eq!(solutions.len(), 3);
    for a in 0..solutions.len() {
        for b in 0..solutions.len() {
            if a != b {
                let same = solutions[a].assignment.get(&1) == solutions[b].assignment.get(&1)
                    && solutions[a].assignment.get(&2) == solutions[b].assignment.get(&2);
                assert!(!same);
            }
        }
    }
}
