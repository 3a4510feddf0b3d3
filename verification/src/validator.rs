//! Post-hoc validation: every candidate predecessor is re-simulated
//! forward and compared against the target, cell for cell.

use vstd::prelude::*;
use crate::errors::EngineError;
use crate::grid::{Grid, count_true_upto, lemma_row_major, lemma_div_mod_of_row_major};
use crate::rules::{GameOfLifeRules, next_state, step_cells, step_n_cells};
use crate::settings::Settings;
use crate::textutil::usize_to_string;

verus! {

/// The number of live cells with no live neighbor among the first `n`
/// cells of the grid.
pub open spec fn isolated_upto(g: Grid, n: int) -> int
    decreases n,
{
    if n <= 0 {
        0
    } else {
        isolated_upto(g, n - 1) + if g.cells@[n - 1] && g.spec_neighbors(
            (n - 1) / (g.width as int),
            (n - 1) % (g.width as int),
        ) == 0 {
            1int
        } else {
            0int
        }
    }
}

/// Whether the recorded next state of cell `k` disagrees with the rule
/// applied to the current state and live-neighbor count.
pub open spec fn cell_disagrees(current: Grid, next: Grid, k: int) -> bool {
    next.cells@[k] != next_state(
        current.cells@[k],
        current.spec_neighbors(k / (current.width as int), k % (current.width as int)),
    )
}

/// The violation list for the first `n` cells: exactly one record per
/// disagreeing cell, in row-major order, carrying the position, the
/// neighbor count, and the expected and recorded states.
pub open spec fn violations_ok(
    current: Grid,
    next: Grid,
    generation: usize,
    vs: Seq<RuleViolation>,
    n: int,
) -> bool
    decreases n,
{
    if n <= 0 {
        vs.len() == 0
    } else if cell_disagrees(current, next, n - 1) {
        let w = current.width as int;
        &&& vs.len() > 0
        &&& violations_ok(current, next, generation, vs.drop_last(), n - 1)
        &&& vs.last().generation == generation
        &&& vs.last().cell_position == (((n - 1) / w) as usize, ((n - 1) % w) as usize)
        &&& vs.last().expected_state == next_state(
            current.cells@[n - 1],
            current.spec_neighbors((n - 1) / w, (n - 1) % w),
        )
        &&& vs.last().actual_state == next.cells@[n - 1]
        &&& vs.last().neighbor_count as int == current.spec_neighbors((n - 1) / w, (n - 1) % w)
    } else {
        violations_ok(current, next, generation, vs, n - 1)
    }
}

/// An empty violation list means no cell disagrees.
proof fn lemma_violations_empty(
    current: Grid,
    next: Grid,
    generation: usize,
    vs: Seq<RuleViolation>,
    n: int,
)
    requires
        violations_ok(current, next, generation, vs, n),
        vs.len() == 0,
    ensures
        forall|k: int| 0 <= k < n ==> !cell_disagrees(current, next, k),
    decreases n,
{
    if n > 0 {
        lemma_violations_empty(current, next, generation, vs, n - 1);
    }
}

/// When no cell disagrees, the violation list is empty.
proof fn lemma_violations_none(
    current: Grid,
    next: Grid,
    generation: usize,
    vs: Seq<RuleViolation>,
    n: int,
)
    requires
        violations_ok(current, next, generation, vs, n),
        forall|k: int| 0 <= k < n ==> !cell_disagrees(current, next, k),
    ensures
        vs.len() == 0,
    decreases n,
{
    if n > 0 {
        lemma_violations_none(current, next, generation, vs, n - 1);
    }
}

/// Whether a candidate and target pair validates: the extents and
/// boundary rules agree and the candidate evolves onto the target.
pub open spec fn pair_valid(p: (Grid, Grid), generations: nat) -> bool {
    &&& p.0.width == p.1.width
    &&& p.0.height == p.1.height
    &&& p.0.boundary_condition == p.1.boundary_condition
    &&& step_n_cells(
        p.0.width as int,
        p.0.height as int,
        p.0.boundary_condition,
        p.0.cells@,
        generations,
    ) == p.1.cells@
}

/// The number of validating pairs among the first `n`.
pub open spec fn valid_count_upto(ps: Seq<(Grid, Grid)>, generations: nat, n: int) -> int
    decreases n,
{
    if n <= 0 {
        0
    } else {
        valid_count_upto(ps, generations, n - 1) + if pair_valid(ps[n - 1], generations) {
            1int
        } else {
            0int
        }
    }
}

/// Validates candidate predecessors against a target grid.
pub struct SolutionValidator {
    pub settings: Settings,
}

/// The verdict on one candidate, with its forward trace.
#[derive(Debug)]
pub struct ValidationResult {
    pub is_valid: bool,
    pub evolution_path: Vec<Grid>,
    pub error_message: Option<String>,
    pub validation_details: ValidationDetails,
}

/// What the validator looked at.
#[derive(Debug)]
pub struct ValidationDetails {
    pub generations_checked: usize,
    pub intermediate_states_valid: bool,
    pub final_state_matches: bool,
    pub rule_violations: Vec<RuleViolation>,
    pub performance_metrics: ValidationMetrics,
}

/// One cell whose recorded next state disagrees with the rule.
#[derive(Debug)]
pub struct RuleViolation {
    pub generation: usize,
    pub cell_position: (usize, usize),
    pub expected_state: bool,
    pub actual_state: bool,
    pub neighbor_count: u8,
    pub description: String,
}

/// Counters of one validation run.
#[derive(Debug, Clone)]
pub struct ValidationMetrics {
    pub validation_time_ms: u64,
    pub states_validated: usize,
    pub cells_checked: usize,
}

/// Summary over a batch of candidates.
#[derive(Debug)]
pub struct MultiValidationResult {
    pub total_solutions: usize,
    pub valid_solutions: usize,
    pub invalid_solutions: usize,
    pub total_rule_violations: usize,
    pub individual_results: Vec<(usize, ValidationResult)>,
}

/// The verdict on a grid state taken on its own.
#[derive(Debug, Clone)]
pub struct GridValidationResult {
    pub is_valid: bool,
    pub issues: Vec<String>,
    pub living_cells: usize,
    pub density_percent: usize,
    pub isolated_cells: usize,
}

impl Default for ValidationDetails {
    /// The empty report: nothing checked, nothing matched.
    fn default() -> (r: ValidationDetails)
        ensures
            r.generations_checked == 0,
            !r.intermediate_states_valid,
            !r.final_state_matches,
            r.rule_violations@.len() == 0,
    {
        ValidationDetails {
            generations_checked: 0,
            intermediate_states_valid: false,
            final_state_matches: false,
            rule_violations: Vec::new(),
            performance_metrics: ValidationMetrics {
                validation_time_ms: 0,
                states_validated: 0,
                cells_checked: 0,
            },
        }
    }
}

impl SolutionValidator {
    /// A validator for the configured generation count.
    pub fn new(settings: Settings) -> (r: SolutionValidator)
        ensures
            r.settings == settings,
    {
        SolutionValidator { settings }
    }

    /// Re-simulates `predecessor` forward and compares against `target`.
    /// The verdict is positive exactly when the extents and boundary rules
    /// agree and the configured number of forward steps lands on the
    /// target, bit for bit. On a positive verdict the returned trace runs
    /// from the predecessor to the target, one step per entry.
    pub fn validate(&self, predecessor: &Grid, target: &Grid) -> (r: Result<
        ValidationResult,
        EngineError,
    >)
        requires
            predecessor.wf(),
            target.wf(),
            self.settings.simulation.generations < usize::MAX,
        ensures
            r is Ok,
            r matches Ok(v) ==> {
                let generations = self.settings.simulation.generations;
                let shapes_agree = predecessor.width == target.width && predecessor.height
                    == target.height && predecessor.boundary_condition
                    == target.boundary_condition;
                &&& v.is_valid <==> (shapes_agree && step_n_cells(
                    predecessor.width as int,
                    predecessor.height as int,
                    predecessor.boundary_condition,
                    predecessor.cells@,
                    generations as nat,
                ) == target.cells@)
                &&& v.validation_details.final_state_matches == v.is_valid
                &&& v.validation_details.intermediate_states_valid == shapes_agree
                &&& v.validation_details.rule_violations@.len() == 0
                &&& v.validation_details.generations_checked == (if shapes_agree {
                    generations
                } else {
                    0
                })
                &&& shapes_agree ==> {
                    &&& v.evolution_path@.len() == generations + 1
                    &&& v.evolution_path@[0].cells@ == predecessor.cells@
                    &&& forall|t: int|
                        0 <= t <= generations ==> (#[trigger] v.evolution_path@[t]).wf()
                    &&& forall|t: int|
                        0 <= t <= generations ==> {
                            &&& (#[trigger] v.evolution_path@[t]).width == predecessor.width
                            &&& v.evolution_path@[t].height == predecessor.height
                            &&& v.evolution_path@[t].boundary_condition
                                == predecessor.boundary_condition
                        }
                    &&& forall|t: int|
                        0 <= t <= generations ==> (#[trigger] v.evolution_path@[t]).cells@
                            == step_n_cells(
                            predecessor.width as int,
                            predecessor.height as int,
                            predecessor.boundary_condition,
                            predecessor.cells@,
                            t as nat,
                        )
                }
                &&& !shapes_agree ==> v.evolution_path@.len() == 0
                &&& v.is_valid ==> v.evolution_path@[generations as int].cells@ == target.cells@
                &&& v.is_valid ==> v.error_message is None
                &&& !v.is_valid ==> v.error_message is Some
                &&& (predecessor.width != target.width || predecessor.height != target.height)
                    ==> (v.error_message matches Some(m) && m@
                    == "grid dimension mismatch between predecessor and target"@)
                &&& (predecessor.width == target.width && predecessor.height == target.height
                    && predecessor.boundary_condition != target.boundary_condition) ==> (
                v.error_message matches Some(m) && m@
                    == "boundary condition mismatch between predecessor and target"@)
            },
    {
        let generations = self.settings.simulation.generations;
        if predecessor.width != target.width || predecessor.height != target.height {
            let mut msg: String = "grid dimension mismatch between predecessor and target"
                .to_owned();
            proof {
                reveal_strlit("grid dimension mismatch between predecessor and target");
            }
            return Ok(ValidationResult {
                is_valid: false,
                evolution_path: Vec::new(),
                error_message: Some(msg),
                validation_details: ValidationDetails::default(),
            });
        }
        if predecessor.boundary_condition != target.boundary_condition {
            proof {
                reveal_strlit("boundary condition mismatch between predecessor and target");
            }
            return Ok(ValidationResult {
                is_valid: false,
                evolution_path: Vec::new(),
                error_message: Some(
                    "boundary condition mismatch between predecessor and target".to_owned(),
                ),
                validation_details: ValidationDetails::default(),
            });
        }
        let ghost w = predecessor.width as int;
        let ghost h = predecessor.height as int;
        let ghost b = predecessor.boundary_condition;
        let ghost start_cells = predecessor.cells@;
        let mut evolution_path: Vec<Grid> = Vec::new();
        evolution_path.push(predecessor.duplicate());
        let mut current_grid = predecessor.duplicate();
        let mut rule_violations: Vec<RuleViolation> = Vec::new();
        let mut generation: usize = 0;
        while generation < generations
            invariant
                generation <= generations,
                current_grid.wf(),
                current_grid.width == predecessor.width,
                current_grid.height == predecessor.height,
                current_grid.boundary_condition == b,
                w == predecessor.width as int,
                h == predecessor.height as int,
                b == predecessor.boundary_condition,
                start_cells == predecessor.cells@,
                current_grid.cells@ == step_n_cells(w, h, b, start_cells, generation as nat),
                evolution_path@.len() == generation + 1,
                forall|t: int|
                    0 <= t <= generation ==> (#[trigger] evolution_path@[t]).cells@
                        == step_n_cells(w, h, b, start_cells, t as nat),
                forall|t: int|
                    0 <= t <= generation ==> {
                        &&& (#[trigger] evolution_path@[t]).width == predecessor.width
                        &&& evolution_path@[t].height == predecessor.height
                        &&& evolution_path@[t].boundary_condition == b
                        &&& evolution_path@[t].wf()
                    },
                rule_violations@.len() == 0,
            decreases generations - generation,
        {
            let next_grid = GameOfLifeRules::evolve(&current_grid);
            evolution_path.push(next_grid.duplicate());
            let violations = self.validate_transition(&current_grid, &next_grid, generation);
            proof {
                assert(violations@.len() == 0);
            }
            let mut v = violations;
            let ghost pre_violations = rule_violations@;
            rule_violations.append(&mut v);
            proof {
                assert(rule_violations@ =~= pre_violations + violations@);
            }
            current_grid = next_grid;
            generation += 1;
        }
        let final_state_matches = GameOfLifeRules::grids_equal(&current_grid, target);
        let intermediate_states_valid = rule_violations.len() == 0;
        let is_valid = final_state_matches && intermediate_states_valid;
        let states_validated = evolution_path.len();
        let cells_checked: usize = 0;
        let validation_details = ValidationDetails {
            generations_checked: generations,
            intermediate_states_valid,
            final_state_matches,
            rule_violations,
            performance_metrics: ValidationMetrics {
                validation_time_ms: 0,
                states_validated,
                cells_checked,
            },
        };
        let error_message = if !is_valid {
            Some(self.generate_error_message(&validation_details))
        } else {
            None
        };
        proof {
            if is_valid {
                assert(current_grid.cells@ =~= target.cells@);
                assert(step_n_cells(w, h, b, start_cells, generations as nat) == target.cells@);
            }
        }
        Ok(ValidationResult { is_valid, evolution_path, error_message, validation_details })
    }

    /// Checks that `next` is exactly one forward step of `current`; every
    /// disagreeing cell yields a violation record. In particular, a pair
    /// related by the simulator yields none.
    pub fn validate_transition(&self, current: &Grid, next: &Grid, generation: usize) -> (r: Vec<
        RuleViolation,
    >)
        requires
            current.wf(),
            next.wf(),
            current.width == next.width,
            current.height == next.height,
        ensures
            violations_ok(
                *current,
                *next,
                generation,
                r@,
                (current.height as int) * (current.width as int),
            ),
            r@.len() == 0 <==> next.cells@ == step_cells(
                current.width as int,
                current.height as int,
                current.boundary_condition,
                current.cells@,
            ),
    {
        let mut violations: Vec<RuleViolation> = Vec::new();
        let ghost stepped = step_cells(
            current.width as int,
            current.height as int,
            current.boundary_condition,
            current.cells@,
        );
        let w = current.width;
        let h = current.height;
        let mut y: usize = 0;
        while y < h
            invariant
                y <= h,
                w == current.width,
                h == current.height,
                current.wf(),
                next.wf(),
                next.width == w,
                next.height == h,
                violations_ok(*current, *next, generation, violations@, y as int * w),
            decreases h - y,
        {
            let mut x: usize = 0;
            while x < w
                invariant
                    x <= w,
                    y < h,
                    w == current.width,
                    h == current.height,
                    current.wf(),
                    next.wf(),
                    next.width == w,
                    next.height == h,
                    violations_ok(
                        *current,
                        *next,
                        generation,
                        violations@,
                        y as int * w + x as int,
                    ),
                decreases w - x,
            {
                proof {
                    lemma_row_major(w as int, h as int, y as int, x as int);
                    lemma_div_mod_of_row_major(w as int, y as int, x as int);
                }
                let current_cell = current.get(y, x);
                let next_cell = next.get(y, x);
                let neighbor_count = current.count_neighbors(y, x);
                let expected_next = GameOfLifeRules::should_be_alive(
                    current_cell,
                    neighbor_count,
                );
                if next_cell != expected_next {
                    let description = self.describe_violation(y, x, generation);
                    let ghost pre = violations@;
                    violations.push(
                        RuleViolation {
                            generation,
                            cell_position: (y, x),
                            expected_state: expected_next,
                            actual_state: next_cell,
                            neighbor_count,
                            description,
                        },
                    );
                    proof {
                        assert(violations@.drop_last() =~= pre);
                        assert(cell_disagrees(*current, *next, y as int * w + x as int));
                        assert(violations_ok(
                            *current,
                            *next,
                            generation,
                            violations@,
                            y as int * w + x as int + 1,
                        ));
                    }
                } else {
                    proof {
                        assert(!cell_disagrees(*current, *next, y as int * w + x as int));
                    }
                }
                x += 1;
            }
            proof {
                assert(y as int * w + w == (y as int + 1) * w) by (nonlinear_arith);
            }
            y += 1;
        }
        proof {
            let n = (h as int) * (w as int);
            assert(y as int * (w as int) == n) by (nonlinear_arith)
                requires y as int == h as int, n == (h as int) * (w as int);
            if violations@.len() == 0 {
                lemma_violations_empty(*current, *next, generation, violations@, n);
                assert forall|k: int|
                    0 <= k < next.cells@.len() implies #[trigger] next.cells@[k] == stepped[k] by {
                    assert(!cell_disagrees(*current, *next, k));
                    assert(0 <= k / (w as int) < h && 0 <= k % (w as int) < w)
                        by (nonlinear_arith)
                        requires w > 0, 0 <= k < (h as int) * (w as int);
                }
                assert(next.cells@ =~= stepped);
            }
            if next.cells@ == stepped {
                assert forall|k: int|
                    0 <= k < n implies !cell_disagrees(*current, *next, k) by {
                    assert(0 <= k / (w as int) < h && 0 <= k % (w as int) < w)
                        by (nonlinear_arith)
                        requires w > 0, 0 <= k < (h as int) * (w as int);
                    assert(stepped[k] == next_state(
                        current.cells@[k],
                        current.spec_neighbors(k / (w as int), k % (w as int)),
                    ));
                }
                lemma_violations_none(*current, *next, generation, violations@, n);
            }
        }
        violations
    }

    /// A one-line description of a rule violation.
    fn describe_violation(&self, row: usize, col: usize, generation: usize) -> (r: String)
        ensures
            r@.len() > 0,
    {
        proof {
            reveal_strlit("rule violation at cell (");
            reveal_strlit(", ");
            reveal_strlit(") after generation ");
        }
        let mut s: String = "rule violation at cell (".to_owned();
        s.append(usize_to_string(row).as_str());
        s.append(", ");
        s.append(usize_to_string(col).as_str());
        s.append(") after generation ");
        s.append(usize_to_string(generation).as_str());
        s
    }

    /// A short explanation of a failed validation.
    pub fn generate_error_message(&self, details: &ValidationDetails) -> (r: String)
        ensures
            r@.len() > 0,
    {
        proof {
            reveal_strlit("final state does not match target; ");
            reveal_strlit("rule violations during evolution: ");
            reveal_strlit("candidate rejected");
        }
        let mut message: String = String::new();
        if !details.final_state_matches {
            message.append("final state does not match target; ");
        }
        if !details.intermediate_states_valid {
            message.append("rule violations during evolution: ");
            message.append(usize_to_string(details.rule_violations.len()).as_str());
        }
        if message.as_str().unicode_len() == 0 {
            message.append("candidate rejected");
        }
        message
    }

    /// Only the final comparison: whether the candidate evolves to the
    /// target in the configured number of steps.
    pub fn quick_validate(&self, predecessor: &Grid, target: &Grid) -> (r: Result<
        bool,
        EngineError,
    >)
        requires
            predecessor.wf(),
            target.wf(),
        ensures
            r is Ok,
            r matches Ok(v) ==> v == (predecessor.width == target.width && predecessor.height
                == target.height && step_n_cells(
                predecessor.width as int,
                predecessor.height as int,
                predecessor.boundary_condition,
                predecessor.cells@,
                self.settings.simulation.generations as nat,
            ) == target.cells@),
    {
        Ok(
            GameOfLifeRules::validate_evolution(
                predecessor,
                target,
                self.settings.simulation.generations,
            ),
        )
    }

    /// Validates a batch of candidate and target pairs: one indexed
    /// verdict per pair, in order, with the counts of valid and invalid
    /// pairs. Re-simulation never records rule violations. Never fails.
    pub fn validate_multiple(&self, solutions: &[(Grid, Grid)]) -> (r: Result<
        MultiValidationResult,
        EngineError,
    >)
        requires
            self.settings.simulation.generations < usize::MAX,
            forall|i: int|
                0 <= i < solutions@.len() ==> (#[trigger] solutions@[i]).0.wf()
                    && solutions@[i].1.wf(),
        ensures
            r is Ok,
            r matches Ok(v) ==> {
                let generations = self.settings.simulation.generations as nat;
                &&& v.total_solutions == solutions@.len()
                &&& v.valid_solutions + v.invalid_solutions == v.total_solutions
                &&& v.valid_solutions == valid_count_upto(
                    solutions@,
                    generations,
                    solutions@.len() as int,
                )
                &&& v.total_rule_violations == 0
                &&& v.individual_results@.len() == solutions@.len()
                &&& forall|i: int|
                    0 <= i < solutions@.len() ==> (#[trigger] v.individual_results@[i]).0 == i
                        && v.individual_results@[i].1.is_valid == pair_valid(
                        solutions@[i],
                        generations,
                    )
            },
    {
        let ghost generations = self.settings.simulation.generations as nat;
        let mut results: Vec<(usize, ValidationResult)> = Vec::new();
        let mut valid_count: usize = 0;
        let mut total_violations: usize = 0;
        let n = solutions.len();
        let mut i: usize = 0;
        while i < n
            invariant
                i <= n,
                n == solutions@.len(),
                generations == self.settings.simulation.generations as nat,
                valid_count <= i,
                valid_count as int == valid_count_upto(solutions@, generations, i as int),
                total_violations == 0,
                results@.len() == i,
                forall|j: int|
                    0 <= j < i ==> (#[trigger] results@[j]).0 == j && results@[j].1.is_valid
                        == pair_valid(solutions@[j], generations),
                self.settings.simulation.generations < usize::MAX,
                forall|j: int|
                    0 <= j < solutions@.len() ==> (#[trigger] solutions@[j]).0.wf()
                        && solutions@[j].1.wf(),
            decreases n - i,
        {
            let pair = &solutions[i];
            let result = match self.validate(&pair.0, &pair.1) {
                Ok(v) => v,
                Err(e) => {
                    proof {
                        assert(false);
                    }
                    return Err(e);
                }
            };
            if result.is_valid {
                valid_count += 1;
            }
            let nv = result.validation_details.rule_violations.len();
            if total_violations <= usize::MAX - nv {
                total_violations += nv;
            }
            let ghost prev = results@;
            results.push((i, result));
            proof {
                assert forall|j: int|
                    0 <= j < i + 1 implies (#[trigger] results@[j]).0 == j
                    && results@[j].1.is_valid == pair_valid(solutions@[j], generations) by {
                    if j < prev.len() {
                        assert(results@[j] == prev[j]);
                    }
                }
            }
            i += 1;
        }
        Ok(
            MultiValidationResult {
                total_solutions: n,
                valid_solutions: valid_count,
                invalid_solutions: n - valid_count,
                total_rule_violations: total_violations,
                individual_results: results,
            },
        )
    }

    /// Heuristic plausibility report on a single grid state.
    pub fn validate_grid_state(&self, grid: &Grid) -> (r: GridValidationResult)
        requires
            grid.wf(),
        ensures
            r.living_cells == count_true_upto(grid.cells@, grid.cells@.len() as int),
            r.isolated_cells == isolated_upto(*grid, grid.cells@.len() as int),
            r.is_valid == (r.issues@.len() == 0),
    {
        proof {
            reveal_strlit("grid density is above ninety percent, which is unusual");
            reveal_strlit("many isolated cells, which is unusual");
        }
        let mut issues: Vec<String> = Vec::new();
        let living = grid.living_count();
        let total = grid.cells.len();
        let density_percent: usize = if total > 0 {
            proof {
                crate::validator::lemma_count_true_bound(grid.cells@, grid.cells@.len() as int);
                assert((living as int) * 100 / (total as int) <= 100) by (nonlinear_arith)
                    requires 0 <= living <= total, total > 0;
            }
            (((living as u128) * 100) / (total as u128)) as usize
        } else {
            0
        };
        if density_percent > 90 {
            issues.push("grid density is above ninety percent, which is unusual".to_owned());
        }
        let isolated = self.count_isolated_cells(grid);
        if isolated > living / 2 {
            issues.push("many isolated cells, which is unusual".to_owned());
        }
        let is_valid = issues.len() == 0;
        GridValidationResult {
            is_valid,
            issues,
            living_cells: living,
            density_percent,
            isolated_cells: isolated,
        }
    }

    /// Counts the live cells that have no live neighbor.
    pub fn count_isolated_cells(&self, grid: &Grid) -> (r: usize)
        requires
            grid.wf(),
        ensures
            r == isolated_upto(*grid, grid.cells@.len() as int),
    {
        let w = grid.width;
        let h = grid.height;
        if w == 0 || h == 0 {
            proof {
                assert(grid.cells@.len() == 0) by {
                    assert(h as int * w as int == 0) by (nonlinear_arith)
                        requires w == 0 || h == 0;
                }
            }
            return 0;
        }
        let total = grid.cells.len();
        let mut isolated: usize = 0;
        let mut y: usize = 0;
        while y < h
            invariant
                y <= h,
                w == grid.width,
                h == grid.height,
                w > 0,
                h > 0,
                grid.wf(),
                total == grid.cells@.len(),
                isolated <= y * w,
                isolated == isolated_upto(*grid, y as int * w),
            decreases h - y,
        {
            let mut x: usize = 0;
            while x < w
                invariant
                    x <= w,
                    y < h,
                    w == grid.width,
                    h == grid.height,
                    w > 0,
                    h > 0,
                    grid.wf(),
                    total == grid.cells@.len(),
                    isolated <= y * w + x,
                    isolated == isolated_upto(*grid, y as int * w + x as int),
                decreases w - x,
            {
                proof {
                    lemma_row_major(w as int, h as int, y as int, x as int);
                    lemma_div_mod_of_row_major(w as int, y as int, x as int);
                }
                let idx = grid.index(y, x);
                if grid.cells[idx] && grid.count_neighbors(y, x) == 0 {
                    isolated += 1;
                }
                x += 1;
            }
            proof {
                assert(y * w + w == (y + 1) * w) by (nonlinear_arith);
            }
            y += 1;
        }
        proof {
            assert(h as int * w as int == (y as int) * (w as int)) by (nonlinear_arith)
                requires y as int == h as int;
        }
        isolated
    }
}

/// The live count never exceeds the number of cells.
pub proof fn lemma_count_true_bound(s: Seq<bool>, n: int)
    requires
        n <= s.len(),
    ensures
        count_true_upto(s, n) <= if n >= 0 {
            n
        } else {
            0
        },
    decreases n,
{
    if n > 0 {
        lemma_count_true_bound(s, n - 1);
    }
}

} // verus!
