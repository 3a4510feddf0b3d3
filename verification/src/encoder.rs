//! Ties the clause generator to a SAT backend and turns models back into
//! candidate predecessor grids.

use vstd::prelude::*;
use crate::constraints::{vm_extends, ConstraintGenerator};
use crate::errors::EngineError;
use crate::grid::Grid;
use crate::rules::{GameOfLifeRules, step_n_cells};
use crate::settings::{BoundaryCondition, Settings};
use crate::solver::{SatSolver, SolverOptions, SolverSolution};

verus! {

broadcast use vstd::std_specs::hash::group_hash_axioms;

/// Drives the encoding: generates the CNF, runs the backend, extracts
/// candidate grids and keeps exactly the distinct, validated ones.
pub struct SatEncoder {
    pub settings: Settings,
    pub constraint_generator: ConstraintGenerator,
    pub solver: SatSolver,
    pub grid_width: usize,
    pub grid_height: usize,
}

impl SatEncoder {
    /// The generator covers `generations + 1` layers of the grid extent.
    pub open spec fn wf(&self) -> bool {
        &&& self.constraint_generator.wf()
        &&& self.constraint_generator.width == self.grid_width
        &&& self.constraint_generator.height == self.grid_height
        &&& self.constraint_generator.time_steps == self.settings.simulation.generations + 1
        &&& self.constraint_generator.boundary_condition
            == self.settings.simulation.boundary_condition
        &&& self.solver.wf()
        &&& self.settings.simulation.generations + 1 <= usize::MAX
    }

    /// An encoder for one target extent. The space-time extent must fit
    /// in the positive `i32` identifier space.
    pub fn new(settings: Settings, target_grid: &Grid) -> (r: SatEncoder)
        requires
            settings.simulation.generations < usize::MAX,
            (target_grid.width as int) * (target_grid.height as int) * (
            settings.simulation.generations + 1) < 0x7fff_ffff,
        ensures
            r.wf(),
            r.grid_width == target_grid.width,
            r.grid_height == target_grid.height,
            r.settings == settings,
    {
        let constraint_generator = ConstraintGenerator::new(
            target_grid.width,
            target_grid.height,
            settings.simulation.generations + 1,
            settings.simulation.boundary_condition,
            settings.encoding.symmetry_breaking,
        );
        let mut solver = SatSolver::new();
        let solver_options = SolverOptions {
            num_threads: None,
            enable_preprocessing: true,
            verbosity: 0,
            timeout_ms: Some(
                if settings.solver.timeout_seconds <= u64::MAX / 1000 {
                    settings.solver.timeout_seconds * 1000
                } else {
                    u64::MAX
                },
            ),
            random_seed: settings.solver.random_seed,
        };
        solver.configure(&solver_options);
        SatEncoder {
            settings,
            constraint_generator,
            solver,
            grid_width: target_grid.width,
            grid_height: target_grid.height,
        }
    }

    /// Encodes the problem and enumerates predecessors. Every returned
    /// grid has the target's extent, the configured boundary rule, and
    /// evolves to the target in exactly the configured number of
    /// generations; the returned grids are pairwise distinct. Fails
    /// exactly when the target's extent disagrees with the encoder's; in
    /// particular, a target without predecessors yields an empty list,
    /// not an error.
    pub fn solve(&mut self, target_grid: &Grid) -> (r: Result<Vec<Grid>, EngineError>)
        requires
            old(self).wf(),
            target_grid.wf(),
        ensures
            final(self).wf(),
            final(self).grid_width == old(self).grid_width,
            final(self).grid_height == old(self).grid_height,
            final(self).settings == old(self).settings,
            r is Ok <==> (target_grid.width == old(self).grid_width && target_grid.height == old(
                self,
            ).grid_height),
            r matches Err(e) ==> e == (EngineError::DimensionMismatch {
                expected_width: old(self).grid_width,
                expected_height: old(self).grid_height,
                actual_width: target_grid.width,
                actual_height: target_grid.height,
            }),
            r matches Ok(v) ==> {
                &&& v@.len() <= old(self).settings.solver.max_solutions
                &&& forall|i: int|
                    0 <= i < v@.len() ==> {
                        let g = #[trigger] v@[i];
                        &&& g.width == target_grid.width
                        &&& g.height == target_grid.height
                        &&& g.boundary_condition
                            == old(self).settings.simulation.boundary_condition
                        &&& g.wf()
                        &&& step_n_cells(
                            g.width as int,
                            g.height as int,
                            g.boundary_condition,
                            g.cells@,
                            old(self).settings.simulation.generations as nat,
                        ) == target_grid.cells@
                    }
                &&& forall|i: int, j: int|
                    0 <= i < v@.len() && 0 <= j < v@.len() && i != j ==> (#[trigger] v@[i]).cells@
                        != (#[trigger] v@[j]).cells@
            },
    {
        let clauses = match self.constraint_generator.generate_all_constraints(target_grid) {
            Ok(v) => v,
            Err(e) => {
                return Err(e);
            }
        };
        proof {
            assert forall|i: int|
                0 <= i < clauses@.len() implies #[trigger] clauses@[i].literals@.len() > 0 by {
                assert(clauses@[i].literals@.len() > 0 && crate::clauses::lits_ok(
                    clauses@[i].literals@,
                ));
            }
        }
        match self.solver.add_clauses(clauses.as_slice()) {
            Ok(()) => {}
            Err(e) => {
                proof {
                    assert(false);
                }
                return Err(e);
            }
        }
        let solutions = match self.solver.solve_multiple(self.settings.solver.max_solutions) {
            Ok(v) => v,
            Err(e) => {
                proof {
                    assert(false);
                }
                return Err(e);
            }
        };
        let ghost max_solutions = self.settings.solver.max_solutions;
        let ghost generations = self.settings.simulation.generations;
        let ghost boundary = self.settings.simulation.boundary_condition;
        let mut result_grids: Vec<Grid> = Vec::new();
        let n = solutions.len();
        let mut i: usize = 0;
        while i < n
            invariant
                i <= n,
                n == solutions@.len(),
                n <= max_solutions,
                self.wf(),
                self.grid_width == old(self).grid_width,
                self.grid_height == old(self).grid_height,
                self.settings == old(self).settings,
                max_solutions == old(self).settings.solver.max_solutions,
                generations == old(self).settings.simulation.generations,
                boundary == old(self).settings.simulation.boundary_condition,
                target_grid.wf(),
                result_grids@.len() <= i,
                forall|k: int|
                    0 <= k < result_grids@.len() ==> {
                        let g = #[trigger] result_grids@[k];
                        &&& g.width == target_grid.width
                        &&& g.height == target_grid.height
                        &&& g.boundary_condition == boundary
                        &&& g.wf()
                        &&& step_n_cells(
                            g.width as int,
                            g.height as int,
                            g.boundary_condition,
                            g.cells@,
                            generations as nat,
                        ) == target_grid.cells@
                    },
                forall|k: int, l: int|
                    0 <= k < result_grids@.len() && 0 <= l < result_grids@.len() && k != l ==> (
                    #[trigger] result_grids@[k]).cells@ != (#[trigger] result_grids@[l]).cells@,
            decreases n - i,
        {
            let candidate = match self.extract_grid_from_solution(&solutions[i], 0) {
                Ok(g) => g,
                Err(_) => {
                    i += 1;
                    continue ;
                }
            };
            if candidate.width == target_grid.width && candidate.height == target_grid.height {
                let valid = GameOfLifeRules::validate_evolution(
                    &candidate,
                    target_grid,
                    self.settings.simulation.generations,
                );
                if valid {
                    let mut duplicate = false;
                    let m = result_grids.len();
                    let mut k: usize = 0;
                    while k < m
                        invariant
                            k <= m,
                            m == result_grids@.len(),
                            candidate.wf(),
                            forall|l: int|
                                0 <= l < m ==> (#[trigger] result_grids@[l]).width
                                    == candidate.width && result_grids@[l].height
                                    == candidate.height,
                            !duplicate ==> forall|l: int|
                                0 <= l < k ==> (#[trigger] result_grids@[l]).cells@
                                    != candidate.cells@,
                        decreases m - k,
                    {
                        if result_grids[k].same_cells(&candidate) {
                            duplicate = true;
                        }
                        k += 1;
                    }
                    if !duplicate {
                        let ghost prev = result_grids@;
                        result_grids.push(candidate);
                        proof {
                            assert forall|a: int, b: int|
                                0 <= a < result_grids@.len() && 0 <= b < result_grids@.len() && a
                                    != b implies (#[trigger] result_grids@[a]).cells@ != (
                            #[trigger] result_grids@[b]).cells@ by {
                                if a < prev.len() && b < prev.len() {
                                    assert(result_grids@[a] == prev[a]);
                                    assert(result_grids@[b] == prev[b]);
                                }
                            }
                        }
                    }
                }
            }
            i += 1;
        }
        Ok(result_grids)
    }

    /// Reads the cells of one time layer out of a model: a cell is alive
    /// exactly when the model assigns its variable true; cells whose
    /// variable the model leaves free read as dead.
    pub fn extract_grid_from_solution(&mut self, solution: &SolverSolution, time_step: usize) -> (r:
        Result<Grid, EngineError>)
        requires
            old(self).wf(),
        ensures
            final(self).wf(),
            final(self).grid_width == old(self).grid_width,
            final(self).grid_height == old(self).grid_height,
            final(self).settings == old(self).settings,
            r is Ok <==> (time_step < old(self).settings.simulation.generations + 1 || old(
                self,
            ).grid_width == 0 || old(self).grid_height == 0),
            r matches Ok(g) ==> {
                &&& g.width == old(self).grid_width
                &&& g.height == old(self).grid_height
                &&& g.boundary_condition == old(self).settings.simulation.boundary_condition
                &&& g.wf()
                &&& extracted_cells_ok(
                    final(self).constraint_generator.variable_manager,
                    solution.assignment@,
                    g.cells@,
                    time_step as int,
                )
            },
    {
        let w = self.grid_width;
        let h = self.grid_height;
        let boundary = self.settings.simulation.boundary_condition;
        let mut cells: Vec<bool> = Vec::new();
        let mut y: usize = 0;
        while y < h
            invariant
                y <= h,
                w == self.grid_width,
                h == self.grid_height,
                self.wf(),
                self.grid_width == old(self).grid_width,
                self.grid_height == old(self).grid_height,
                self.settings == old(self).settings,
                w > 0 && y > 0 ==> time_step < self.settings.simulation.generations + 1,
                cells@.len() == y * w,
                extracted_cells_ok(
                    self.constraint_generator.variable_manager,
                    solution.assignment@,
                    cells@,
                    time_step as int,
                ),
            decreases h - y,
        {
            let mut x: usize = 0;
            while x < w
                invariant
                    x <= w,
                    y < h,
                    w == self.grid_width,
                    h == self.grid_height,
                    self.wf(),
                    self.grid_width == old(self).grid_width,
                    self.grid_height == old(self).grid_height,
                    self.settings == old(self).settings,
                    (x > 0 || y > 0) && w > 0 ==> time_step < self.settings.simulation.generations
                        + 1,
                    cells@.len() == y * w + x,
                    extracted_cells_ok(
                        self.constraint_generator.variable_manager,
                        solution.assignment@,
                        cells@,
                        time_step as int,
                    ),
                decreases w - x,
            {
                let ghost prev_vm = self.constraint_generator.variable_manager;
                let ghost prev_cells = cells@;
                let cell_var = match self.constraint_generator.variable_manager.cell_variable(
                    x,
                    y,
                    time_step,
                ) {
                    Ok(id) => id,
                    Err(e) => {
                        return Err(e);
                    }
                };
                proof {
                    crate::constraints::lemma_vm_step(
                        prev_vm,
                        self.constraint_generator.variable_manager,
                        x as int,
                        y as int,
                        time_step as int,
                        cell_var,
                    );
                    lemma_extracted_cells_stable(
                        prev_vm,
                        self.constraint_generator.variable_manager,
                        solution.assignment@,
                        prev_cells,
                        time_step as int,
                    );
                    crate::grid::lemma_row_major(w as int, h as int, y as int, x as int);
                    crate::grid::lemma_div_mod_of_row_major(w as int, y as int, x as int);
                }
                let is_alive = match solution.assignment.get(&cell_var) {
                    Some(v) => *v,
                    None => false,
                };
                cells.push(is_alive);
                proof {
                    assert(cells@.drop_last() =~= prev_cells);
                    assert(extracted_cells_ok(
                        self.constraint_generator.variable_manager,
                        solution.assignment@,
                        cells@,
                        time_step as int,
                    ));
                }
                x += 1;
            }
            proof {
                assert(y * w + w == (y + 1) * w) by (nonlinear_arith);
            }
            y += 1;
        }
        proof {
            assert(h as int * w as int == (y as int) * (w as int)) by (nonlinear_arith)
                requires y as int == h as int;
        }
        Ok(Grid { width: w, height: h, cells, boundary_condition: boundary })
    }

    /// The grids of every time layer of a model, predecessor first.
    pub fn extract_all_states(&mut self, solution: &SolverSolution) -> (r: Result<
        Vec<Grid>,
        EngineError,
    >)
        requires
            old(self).wf(),
        ensures
            final(self).wf(),
            final(self).grid_width == old(self).grid_width,
            final(self).grid_height == old(self).grid_height,
            final(self).settings == old(self).settings,
            r matches Ok(v) ==> v@.len() == old(self).settings.simulation.generations + 1,
    {
        let mut states: Vec<Grid> = Vec::new();
        let generations = self.settings.simulation.generations;
        let mut t: usize = 0;
        while t <= generations
            invariant
                t <= generations + 1,
                self.wf(),
                self.grid_width == old(self).grid_width,
                self.grid_height == old(self).grid_height,
                self.settings == old(self).settings,
                generations == self.settings.simulation.generations,
                generations < usize::MAX,
                states@.len() == t,
            decreases generations + 1 - t,
        {
            let grid = match self.extract_grid_from_solution(solution, t) {
                Ok(g) => g,
                Err(e) => {
                    return Err(e);
                }
            };
            states.push(grid);
            t += 1;
        }
        Ok(states)
    }

    /// Whether a candidate evolves to the target under the configured
    /// generation count.
    pub fn validate_solution(&self, predecessor: &Grid, target: &Grid) -> (r: Result<
        bool,
        EngineError,
    >)
        requires
            predecessor.wf(),
            target.wf(),
        ensures
            r matches Ok(b) ==> b == (predecessor.width == target.width && predecessor.height
                == target.height && step_n_cells(
                predecessor.width as int,
                predecessor.height as int,
                predecessor.boundary_condition,
                predecessor.cells@,
                self.settings.simulation.generations as nat,
            ) == target.cells@),
    {
        Ok(
            GameOfLifeRules::validate_evolution(
                predecessor,
                target,
                self.settings.simulation.generations,
            ),
        )
    }

    /// The extent and counters of the encoding.
    pub fn statistics(&self) -> (r: EncodingStatistics)
        requires
            self.wf(),
        ensures
            r.grid_width == self.grid_width,
            r.grid_height == self.grid_height,
            r.generations == self.settings.simulation.generations,
            r.boundary_condition == self.settings.simulation.boundary_condition,
    {
        EncodingStatistics {
            grid_width: self.grid_width,
            grid_height: self.grid_height,
            generations: self.settings.simulation.generations,
            total_variables: self.constraint_generator.variable_manager.next_id as usize - 1,
            total_clauses: self.solver.clause_count(),
            boundary_condition: self.settings.simulation.boundary_condition,
        }
    }

    /// Forgets the clauses and identifiers and starts over.
    pub fn reset(&mut self)
        requires
            old(self).wf(),
        ensures
            final(self).wf(),
            final(self).grid_width == old(self).grid_width,
            final(self).grid_height == old(self).grid_height,
            final(self).settings == old(self).settings,
    {
        self.solver.reset();
        self.constraint_generator = ConstraintGenerator::new(
            self.grid_width,
            self.grid_height,
            self.settings.simulation.generations + 1,
            self.settings.simulation.boundary_condition,
            self.settings.encoding.symmetry_breaking,
        );
    }

    /// A coarse effort estimate from the extent alone.
    pub fn estimate_complexity(&self, target_grid: &Grid) -> (r: ComplexityEstimate)
        requires
            self.wf(),
            target_grid.wf(),
    {
        proof {
            crate::constraints::lemma_extent_fits(
                self.grid_width as int,
                self.grid_height as int,
                (self.settings.simulation.generations + 1) as int,
            );
            assert((self.grid_width as int) * (self.grid_height as int) * ((
            self.settings.simulation.generations + 1) as int) < 0x7fff_ffff);
        }
        let total_cells = self.grid_width * self.grid_height;
        let time_steps = self.settings.simulation.generations + 1;
        let living_cells = target_grid.living_count();
        proof {
            assert((total_cells as int) * (time_steps as int) < 0x7fff_ffff) by (nonlinear_arith)
                requires
                    total_cells as int == (self.grid_width as int) * (self.grid_height as int),
                    (self.grid_width as int) * (self.grid_height as int) * (time_steps as int)
                        < 0x7fff_ffff,
                    time_steps >= 1,
                    total_cells >= 0;
        }
        let cell_variables = (total_cells as u64) * (time_steps as u64);
        let estimated_clauses = cell_variables * 10;
        let complexity = if cell_variables < 1000 {
            ComplexityLevel::Low
        } else if cell_variables < 10000 {
            ComplexityLevel::Medium
        } else if cell_variables < 100000 {
            ComplexityLevel::High
        } else {
            ComplexityLevel::VeryHigh
        };
        ComplexityEstimate {
            complexity_level: complexity,
            estimated_variables: cell_variables,
            estimated_clauses,
            living_cells,
            grid_size: total_cells,
            time_steps,
        }
    }
}

/// Each extracted cell is exactly the model's value of its variable,
/// with a free variable read as dead.
pub open spec fn extracted_cells_ok(
    m: crate::variables::VariableManager,
    assignment: Map<i32, bool>,
    cells: Seq<bool>,
    t: int,
) -> bool
    decreases cells.len(),
{
    cells.len() == 0 || {
        let k = cells.len() - 1;
        &&& extracted_cells_ok(m, assignment, cells.drop_last(), t)
        &&& m.id_map().contains_key(m.key_at(k % (m.width as int), k / (m.width as int), t))
        &&& cells[k] == (assignment.contains_key(
            m.id_map()[m.key_at(k % (m.width as int), k / (m.width as int), t)],
        ) && assignment[m.id_map()[m.key_at(k % (m.width as int), k / (m.width as int), t)]])
    }
}

/// An extraction record survives growth of the manager.
pub proof fn lemma_extracted_cells_stable(
    m1: crate::variables::VariableManager,
    m2: crate::variables::VariableManager,
    assignment: Map<i32, bool>,
    cells: Seq<bool>,
    t: int,
)
    requires
        extracted_cells_ok(m1, assignment, cells, t),
        vm_extends(m1, m2),
    ensures
        extracted_cells_ok(m2, assignment, cells, t),
    decreases cells.len(),
{
    if cells.len() > 0 {
        lemma_extracted_cells_stable(m1, m2, assignment, cells.drop_last(), t);
    }
}

/// Reads one entry of an extraction record.
pub proof fn lemma_extracted_cells_at(
    m: crate::variables::VariableManager,
    assignment: Map<i32, bool>,
    cells: Seq<bool>,
    t: int,
    k: int,
)
    requires
        extracted_cells_ok(m, assignment, cells, t),
        0 <= k < cells.len(),
    ensures
        m.id_map().contains_key(m.key_at(k % (m.width as int), k / (m.width as int), t)),
        cells[k] == (assignment.contains_key(
            m.id_map()[m.key_at(k % (m.width as int), k / (m.width as int), t)],
        ) && assignment[m.id_map()[m.key_at(k % (m.width as int), k / (m.width as int), t)]]),
    decreases cells.len(),
{
    if k < cells.len() - 1 {
        lemma_extracted_cells_at(m, assignment, cells.drop_last(), t, k);
        assert(cells.drop_last()[k] == cells[k]);
    }
}

/// Counters describing one encoding.
#[derive(Debug, Clone)]
pub struct EncodingStatistics {
    pub grid_width: usize,
    pub grid_height: usize,
    pub generations: usize,
    pub total_variables: usize,
    pub total_clauses: usize,
    pub boundary_condition: BoundaryCondition,
}

/// A coarse effort estimate.
#[derive(Debug, Clone)]
pub struct ComplexityEstimate {
    pub complexity_level: ComplexityLevel,
    pub estimated_variables: u64,
    pub estimated_clauses: u64,
    pub living_cells: usize,
    pub grid_size: usize,
    pub time_steps: usize,
}

#[derive(Debug, Clone, Copy, PartialEq, Eq, Structural)]
pub enum ComplexityLevel {
    Low,
    Medium,
    High,
    VeryHigh,
}

} // verus!
