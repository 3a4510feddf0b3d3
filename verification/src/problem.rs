//! The reverse problem: encode, enumerate, validate, and report.

use vstd::prelude::*;
use crate::encoder::{ComplexityEstimate, ComplexityLevel, EncodingStatistics, SatEncoder};
use crate::errors::EngineError;
use crate::grid::Grid;
use crate::rules::step_n_cells;
use crate::settings::Settings;
use crate::solution::{Solution, SolutionMetadata};
use crate::validator::SolutionValidator;

verus! {

/// A reverse Game of Life problem over one target grid.
pub struct ReverseProblem {
    pub settings: Settings,
    pub target_grid: Grid,
    pub encoder: SatEncoder,
    pub validator: SolutionValidator,
}

impl ReverseProblem {
    pub open spec fn wf(&self) -> bool {
        &&& self.target_grid.wf()
        &&& self.encoder.wf()
        &&& self.encoder.grid_width == self.target_grid.width
        &&& self.encoder.grid_height == self.target_grid.height
        &&& self.encoder.settings.simulation.generations
            == self.settings.simulation.generations
        &&& self.encoder.settings.simulation.boundary_condition
            == self.settings.simulation.boundary_condition
        &&& self.encoder.settings.solver.max_solutions == self.settings.solver.max_solutions
        &&& self.validator.settings.simulation.generations
            == self.settings.simulation.generations
        &&& self.settings.simulation.generations < usize::MAX
    }

    /// A problem over an explicit target grid. The space-time extent must
    /// fit in the positive identifier space of the DIMACS format.
    pub fn with_target_grid(settings: Settings, target_grid: Grid) -> (r: Result<
        ReverseProblem,
        EngineError,
    >)
        requires
            target_grid.wf(),
            settings.simulation.generations < usize::MAX,
            (target_grid.width as int) * (target_grid.height as int) * (
            settings.simulation.generations + 1) < 0x7fff_ffff,
        ensures
            r is Ok,
            r matches Ok(p) ==> p.wf() && p.settings == settings && p.target_grid == target_grid,
    {
        let encoder = SatEncoder::new(settings.duplicate(), &target_grid);
        let validator = SolutionValidator::new(settings.duplicate());
        Ok(ReverseProblem { settings, target_grid, encoder, validator })
    }

    /// Solves the reverse problem: every returned solution's predecessor
    /// evolves to the target in exactly the configured number of
    /// generations under the configured boundary, the recorded target is
    /// the problem's target, and the predecessors are pairwise distinct.
    /// Never fails: a target without predecessors yields an empty list.
    /// Each solution records the end-to-end wall time of the run.
    pub fn solve(&mut self) -> (r: Result<Vec<Solution>, EngineError>)
        requires
            old(self).wf(),
        ensures
            final(self).wf(),
            final(self).settings == old(self).settings,
            final(self).target_grid == old(self).target_grid,
            r is Ok,
            r matches Ok(v) ==> {
                &&& v@.len() <= old(self).settings.solver.max_solutions
                &&& forall|i: int|
                    0 <= i < v@.len() ==> {
                        let s = #[trigger] v@[i];
                        &&& s.predecessor.width == old(self).target_grid.width
                        &&& s.predecessor.height == old(self).target_grid.height
                        &&& s.predecessor.boundary_condition == old(
                            self,
                        ).settings.simulation.boundary_condition
                        &&& s.predecessor.wf()
                        &&& s.generations == old(self).settings.simulation.generations
                        &&& s.target.cells@ == old(self).target_grid.cells@
                        &&& step_n_cells(
                            s.predecessor.width as int,
                            s.predecessor.height as int,
                            s.predecessor.boundary_condition,
                            s.predecessor.cells@,
                            old(self).settings.simulation.generations as nat,
                        ) == old(self).target_grid.cells@
                    }
                &&& forall|i: int, j: int|
                    0 <= i < v@.len() && 0 <= j < v@.len() && i != j ==> (
                    #[trigger] v@[i]).predecessor.cells@ != (#[trigger] v@[j]).predecessor.cells@
            },
    {
        let ghost generations = self.settings.simulation.generations;
        let ghost boundary = self.settings.simulation.boundary_condition;
        let ghost target_cells = self.target_grid.cells@;
        let start = crate::solver::now_millis();
        let target_copy = self.target_grid.duplicate();
        let predecessor_grids = match self.encoder.solve(&target_copy) {
            Ok(v) => v,
            Err(e) => {
                proof {
                    assert(false);
                }
                return Err(e);
            }
        };
        let mut solutions: Vec<Solution> = Vec::new();
        let n = predecessor_grids.len();
        let mut i: usize = 0;
        while i < n
            invariant
                i <= n,
                self.wf(),
                self.settings == old(self).settings,
                self.target_grid == old(self).target_grid,
                generations == old(self).settings.simulation.generations,
                boundary == old(self).settings.simulation.boundary_condition,
                target_cells == old(self).target_grid.cells@,
                target_copy.wf(),
                target_copy.width == old(self).target_grid.width,
                target_copy.height == old(self).target_grid.height,
                target_copy.cells@ == target_cells,
                n == predecessor_grids@.len(),
                n <= old(self).settings.solver.max_solutions,
                solutions@.len() <= i,
                forall|k: int|
                    0 <= k < predecessor_grids@.len() ==> {
                        let g = #[trigger] predecessor_grids@[k];
                        &&& g.width == target_copy.width
                        &&& g.height == target_copy.height
                        &&& g.boundary_condition == boundary
                        &&& g.wf()
                        &&& step_n_cells(
                            g.width as int,
                            g.height as int,
                            g.boundary_condition,
                            g.cells@,
                            generations as nat,
                        ) == target_cells
                    },
                forall|k: int, l: int|
                    0 <= k < predecessor_grids@.len() && 0 <= l < predecessor_grids@.len() && k
                        != l ==> (#[trigger] predecessor_grids@[k]).cells@ != (
                    #[trigger] predecessor_grids@[l]).cells@,
                forall|k: int|
                    0 <= k < solutions@.len() ==> {
                        let s = #[trigger] solutions@[k];
                        &&& s.predecessor.width == old(self).target_grid.width
                        &&& s.predecessor.height == old(self).target_grid.height
                        &&& s.predecessor.boundary_condition == boundary
                        &&& s.predecessor.wf()
                        &&& s.generations == generations
                        &&& s.target.cells@ == target_cells
                        &&& step_n_cells(
                            s.predecessor.width as int,
                            s.predecessor.height as int,
                            s.predecessor.boundary_condition,
                            s.predecessor.cells@,
                            generations as nat,
                        ) == target_cells
                        &&& exists|m: int|
                            0 <= m < i && s.predecessor.cells@ == (
                            #[trigger] predecessor_grids@[m]).cells@
                    },
                forall|k: int, l: int|
                    0 <= k < solutions@.len() && 0 <= l < solutions@.len() && k != l ==> (
                    #[trigger] solutions@[k]).predecessor.cells@ != (
                    #[trigger] solutions@[l]).predecessor.cells@,
            decreases n - i,
        {
            let predecessor_grid = predecessor_grids[i].duplicate();
            let validation_result = match self.validator.validate(
                &predecessor_grid,
                &target_copy,
            ) {
                Ok(v) => v,
                Err(e) => {
                    proof {
                        assert(false);
                    }
                    return Err(e);
                }
            };
            if validation_result.is_valid {
                let ghost prev = solutions@;
                let elapsed = crate::solver::now_millis().saturating_sub(start);
                let solution = Solution::new(
                    predecessor_grid,
                    target_copy.duplicate(),
                    self.settings.simulation.generations,
                    validation_result.evolution_path,
                    elapsed,
                );
                solutions.push(solution);
                proof {
                    assert(solutions@[solutions@.len() - 1].predecessor.cells@
                        == predecessor_grids@[i as int].cells@);
                    assert forall|k: int, l: int|
                        0 <= k < solutions@.len() && 0 <= l < solutions@.len() && k != l implies (
                    #[trigger] solutions@[k]).predecessor.cells@ != (
                    #[trigger] solutions@[l]).predecessor.cells@ by {
                        if k < prev.len() && l < prev.len() {
                            assert(solutions@[k] == prev[k]);
                            assert(solutions@[l] == prev[l]);
                        } else if k == prev.len() {
                            assert(solutions@[l] == prev[l]);
                            let m = choose|m: int|
                                0 <= m < i && prev[l].predecessor.cells@ == (
                                #[trigger] predecessor_grids@[m]).cells@;
                            assert(predecessor_grids@[m].cells@
                                != predecessor_grids@[i as int].cells@);
                        } else {
                            assert(solutions@[k] == prev[k]);
                            let m = choose|m: int|
                                0 <= m < i && prev[k].predecessor.cells@ == (
                                #[trigger] predecessor_grids@[m]).cells@;
                            assert(predecessor_grids@[m].cells@
                                != predecessor_grids@[i as int].cells@);
                        }
                    }
                }
            }
            i += 1;
        }
        Ok(solutions)
    }

    /// The target grid.
    pub fn target_grid(&self) -> (r: &Grid)
        ensures
            r == &self.target_grid,
    {
        &self.target_grid
    }

    /// The problem's configuration.
    pub fn settings(&self) -> (r: &Settings)
        ensures
            r == &self.settings,
    {
        &self.settings
    }

    /// The encoder's counters.
    pub fn encoding_statistics(&self) -> (r: EncodingStatistics)
        requires
            self.wf(),
    {
        self.encoder.statistics()
    }

    /// A coarse advisory estimate of how likely the problem is to have
    /// predecessors, from the target's shape alone.
    pub fn estimate_solvability(&self) -> (r: SolvabilityEstimate)
        requires
            self.wf(),
    {
        proof {
            reveal_strlit("consider a smaller grid or fewer generations");
            reveal_strlit("dense targets are rarely reachable");
            reveal_strlit("the problem looks reasonable to solve");
        }
        let complexity = self.encoder.estimate_complexity(&self.target_grid);
        let living_cells = self.target_grid.living_count();
        let total_cells = self.target_grid.cells.len();
        let density_percent: usize = if total_cells > 0 {
            proof {
                crate::validator::lemma_count_true_bound(
                    self.target_grid.cells@,
                    self.target_grid.cells@.len() as int,
                );
                assert((living_cells as int) * 100 / (total_cells as int) <= 100)
                    by (nonlinear_arith)
                    requires 0 <= living_cells <= total_cells, total_cells > 0;
            }
            (((living_cells as u128) * 100) / (total_cells as u128)) as usize
        } else {
            0
        };
        let is_empty = living_cells == 0;
        let is_full = living_cells == total_cells && total_cells > 0;
        let has_known_patterns = self.detect_known_patterns();
        let likelihood = if is_empty {
            SolvabilityLikelihood::High
        } else if is_full {
            SolvabilityLikelihood::Low
        } else if has_known_patterns {
            SolvabilityLikelihood::High
        } else if density_percent < 10 {
            SolvabilityLikelihood::Medium
        } else if density_percent > 80 {
            SolvabilityLikelihood::Low
        } else {
            SolvabilityLikelihood::Medium
        };
        let complexity_level = complexity.complexity_level;
        let estimated_solve_time = self.estimate_solve_time(&complexity);
        let mut recommendations: Vec<String> = Vec::new();
        if complexity_level == ComplexityLevel::VeryHigh || complexity_level
            == ComplexityLevel::High {
            recommendations.push("consider a smaller grid or fewer generations".to_owned());
        }
        if density_percent > 70 {
            recommendations.push("dense targets are rarely reachable".to_owned());
        }
        if recommendations.len() == 0 {
            recommendations.push("the problem looks reasonable to solve".to_owned());
        }
        SolvabilityEstimate {
            likelihood,
            complexity_level,
            living_cell_density_percent: density_percent,
            estimated_solve_time,
            recommendations,
        }
    }

    /// Whether the target holds one of the scanned small patterns.
    pub fn detect_known_patterns(&self) -> (r: bool)
        requires
            self.wf(),
    {
        let living_cells = self.target_grid.living_count();
        if living_cells == 4 {
            return true;
        }
        if living_cells == 3 {
            return self.detect_blinker_pattern();
        }
        if living_cells == 5 {
            return self.detect_glider_pattern();
        }
        false
    }

    /// Whether the target's three living cells form a line.
    pub fn detect_blinker_pattern(&self) -> (r: bool)
        requires
            self.wf(),
    {
        SolutionMetadata::is_blinker_pattern(&self.target_grid)
    }

    /// A five-cell population is taken as a possible glider.
    pub fn detect_glider_pattern(&self) -> (r: bool)
        requires
            self.wf(),
    {
        let living = self.target_grid.living_count();
        living == 5
    }

    /// A coarse wall-time guess per complexity level.
    pub fn estimate_solve_time(&self, complexity: &ComplexityEstimate) -> (r: EstimatedTime)
        ensures
            complexity.complexity_level == ComplexityLevel::Low ==> r == (EstimatedTime::Seconds(
                1u32,
            )),
            complexity.complexity_level == ComplexityLevel::VeryHigh ==> r == (
            EstimatedTime::Minutes(30u32)),
    {
        match complexity.complexity_level {
            ComplexityLevel::Low => EstimatedTime::Seconds(1),
            ComplexityLevel::Medium => EstimatedTime::Seconds(30),
            ComplexityLevel::High => EstimatedTime::Minutes(5),
            ComplexityLevel::VeryHigh => EstimatedTime::Minutes(30),
        }
    }
}

/// An advisory verdict on how promising a target looks.
#[derive(Debug)]
pub struct SolvabilityEstimate {
    pub likelihood: SolvabilityLikelihood,
    pub complexity_level: ComplexityLevel,
    pub living_cell_density_percent: usize,
    pub estimated_solve_time: EstimatedTime,
    pub recommendations: Vec<String>,
}

#[derive(Debug, Clone, Copy, PartialEq, Eq, Structural)]
pub enum SolvabilityLikelihood {
    High,
    Medium,
    Low,
}

#[derive(Debug, Clone, Copy, PartialEq, Eq, Structural)]
pub enum EstimatedTime {
    Seconds(u32),
    Minutes(u32),
    Hours(u32),
}

} // verus!
