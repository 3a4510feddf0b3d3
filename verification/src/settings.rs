//! Configuration records threaded through the engine.

use vstd::prelude::*;
use crate::errors::EngineError;

verus! {

/// How the grid is read outside its bounds.
#[derive(Debug, Clone, Copy, PartialEq, Eq, Hash, Structural)]
pub enum BoundaryCondition {
    /// Cells outside the grid read as dead.
    Dead,
    /// Coordinates wrap around modulo the grid dimensions.
    Wrap,
    /// Coordinates reflect at the grid edges.
    Mirror,
}

/// Forward-simulation parameters.
#[derive(Debug, Clone)]
pub struct SimulationConfig {
    /// Number of forward steps between predecessor and target; must be positive.
    pub generations: usize,
    /// Boundary rule used by both the clause generator and the simulator.
    pub boundary_condition: BoundaryCondition,
}

/// Which SAT backend solves the clause set.
#[derive(Debug, Clone, Copy, PartialEq, Eq, Structural)]
pub enum SolverBackend {
    Cadical,
    Parkissat,
}

/// How much effort the backend spends.
#[derive(Debug, Clone, Copy, PartialEq, Eq, Structural)]
pub enum OptimizationLevel {
    Fast,
    Balanced,
    Thorough,
}

/// Solver-facing parameters.
#[derive(Debug, Clone)]
pub struct SolverConfig {
    /// Upper bound on the number of predecessors returned; must be positive.
    pub max_solutions: usize,
    /// Per-solve budget in seconds.
    pub timeout_seconds: u64,
    /// Collapses to backend-specific thread and preprocessing defaults.
    pub optimization_level: OptimizationLevel,
    /// Solver selection.
    pub backend: SolverBackend,
    /// Optional seed forwarded to the backend.
    pub random_seed: Option<u64>,
}

/// Where the target grid comes from.
#[derive(Debug, Clone)]
pub struct InputConfig {
    /// Path of the textual target grid; read by the caller, not by the engine.
    pub target_state_file: String,
}

/// Output formatting choices; acted on by the caller, not by the engine.
#[derive(Debug, Clone, Copy, PartialEq, Eq, Structural)]
pub enum OutputFormat {
    Text,
    Json,
    Visual,
}

/// Where and how results are written.
#[derive(Debug, Clone)]
pub struct OutputConfig {
    pub format: OutputFormat,
    pub save_intermediate: bool,
    pub output_directory: String,
}

/// Encoding choices.
#[derive(Debug, Clone)]
pub struct EncodingConfig {
    /// Emit symmetry-breaking clauses; restricts the solution set to one
    /// representative per symmetry class, so it is off by default.
    pub symmetry_breaking: bool,
}

/// The whole configuration record.
#[derive(Debug, Clone)]
pub struct Settings {
    pub simulation: SimulationConfig,
    pub solver: SolverConfig,
    pub input: InputConfig,
    pub output: OutputConfig,
    pub encoding: EncodingConfig,
}

impl Default for Settings {
    /// The stock configuration: five generations back, dead boundary,
    /// at most ten solutions.
    fn default() -> (r: Settings)
        ensures
            r.simulation.generations == 5,
            r.simulation.boundary_condition == BoundaryCondition::Dead,
            r.solver.max_solutions == 10,
            r.solver.timeout_seconds == 300,
            r.solver.optimization_level == OptimizationLevel::Balanced,
            r.solver.backend == SolverBackend::Cadical,
            r.solver.random_seed.is_none(),
            r.output.format == OutputFormat::Text,
            !r.output.save_intermediate,
            !r.encoding.symmetry_breaking,
    {
        Settings {
            simulation: SimulationConfig {
                generations: 5,
                boundary_condition: BoundaryCondition::Dead,
            },
            solver: SolverConfig {
                max_solutions: 10,
                timeout_seconds: 300,
                optimization_level: OptimizationLevel::Balanced,
                backend: SolverBackend::Cadical,
                random_seed: None,
            },
            input: InputConfig {
                target_state_file: String::new(),
            },
            output: OutputConfig {
                format: OutputFormat::Text,
                save_intermediate: false,
                output_directory: String::new(),
            },
            encoding: EncodingConfig { symmetry_breaking: false },
        }
    }
}

/// Command line overrides applied on top of a loaded configuration.
#[derive(Debug, Default)]
pub struct CliOverrides {
    pub generations: Option<usize>,
    pub max_solutions: Option<usize>,
    pub target_file: Option<String>,
    pub output_dir: Option<String>,
}

impl Settings {
    /// An identical copy with the string fields duplicated.
    pub fn duplicate(&self) -> (r: Settings)
        ensures
            r.simulation == self.simulation,
            r.solver == self.solver,
            r.encoding == self.encoding,
            r.output.format == self.output.format,
            r.output.save_intermediate == self.output.save_intermediate,
            r.output.output_directory@ == self.output.output_directory@,
            r.input.target_state_file@ == self.input.target_state_file@,
    {
        Settings {
            simulation: SimulationConfig {
                generations: self.simulation.generations,
                boundary_condition: self.simulation.boundary_condition,
            },
            solver: SolverConfig {
                max_solutions: self.solver.max_solutions,
                timeout_seconds: self.solver.timeout_seconds,
                optimization_level: self.solver.optimization_level,
                backend: self.solver.backend,
                random_seed: self.solver.random_seed,
            },
            input: InputConfig { target_state_file: self.input.target_state_file.clone() },
            output: OutputConfig {
                format: self.output.format,
                save_intermediate: self.output.save_intermediate,
                output_directory: self.output.output_directory.clone(),
            },
            encoding: EncodingConfig { symmetry_breaking: self.encoding.symmetry_breaking },
        }
    }

    /// Checks the constraints the engine relies on: positive generation
    /// count, a positive solution budget, and a target file that exists.
    /// Whether the named file exists is the caller's finding, handed in
    /// as a plain flag.
    pub fn validate(&self, target_file_exists: bool) -> (r: Result<(), EngineError>)
        ensures
            r.is_ok() <==> (self.simulation.generations > 0 && self.solver.max_solutions > 0
                && target_file_exists),
            r.is_err() ==> r == Result::<(), EngineError>::Err(EngineError::InvalidSettings),
    {
        if self.simulation.generations == 0 {
            return Err(EngineError::InvalidSettings);
        }
        if self.solver.max_solutions == 0 {
            return Err(EngineError::InvalidSettings);
        }
        if !target_file_exists {
            return Err(EngineError::InvalidSettings);
        }
        Ok(())
    }

    /// Applies the command line overrides that are present; other fields stay.
    pub fn merge_with_cli(&mut self, cli_overrides: &CliOverrides)
        ensures
            final(self).simulation.generations == if cli_overrides.generations is Some {
                cli_overrides.generations->0
            } else {
                old(self).simulation.generations
            },
            final(self).solver.max_solutions == if cli_overrides.max_solutions is Some {
                cli_overrides.max_solutions->0
            } else {
                old(self).solver.max_solutions
            },
            cli_overrides.target_file is Some ==> final(self).input.target_state_file@
                == cli_overrides.target_file->0@,
            cli_overrides.target_file is None ==> final(self).input.target_state_file
                == old(self).input.target_state_file,
            cli_overrides.output_dir is Some ==> final(self).output.output_directory@
                == cli_overrides.output_dir->0@,
            cli_overrides.output_dir is None ==> final(self).output.output_directory
                == old(self).output.output_directory,
            final(self).simulation.boundary_condition == old(self).simulation.boundary_condition,
            final(self).solver.backend == old(self).solver.backend,
            final(self).solver.timeout_seconds == old(self).solver.timeout_seconds,
            final(self).encoding == old(self).encoding,
    {
        if let Some(generations) = cli_overrides.generations {
            self.simulation.generations = generations;
        }
        if let Some(max_solutions) = cli_overrides.max_solutions {
            self.solver.max_solutions = max_solutions;
        }
        if let Some(target_file) = &cli_overrides.target_file {
            self.input.target_state_file = target_file.clone();
        }
        if let Some(output_dir) = &cli_overrides.output_dir {
            self.output.output_directory = output_dir.clone();
        }
    }
}

} // verus!
