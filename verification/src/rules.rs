//! The Game of Life transition rule and the reference forward simulator.

use vstd::prelude::*;
use crate::grid::{Grid, spec_count_neighbors, lemma_div_mod_of_row_major, lemma_row_major};
use crate::settings::BoundaryCondition;

verus! {

/// The next state of a cell with state `c` and `n` live neighbors:
/// alive iff it survives (`c` and `n` is 2 or 3) or is born (dead and `n` is 3).
pub open spec fn next_state(c: bool, n: int) -> bool {
    (c && (n == 2 || n == 3)) || (!c && n == 3)
}

/// One forward step of a row-major cell sequence under the given extent
/// and boundary rule.
pub open spec fn step_cells(w: int, h: int, b: BoundaryCondition, cells: Seq<bool>) -> Seq<bool> {
    Seq::new(
        (h * w) as nat,
        |i: int| next_state(cells[i], spec_count_neighbors(w, h, b, cells, i / w, i % w)),
    )
}

/// `n` forward steps.
pub open spec fn step_n_cells(
    w: int,
    h: int,
    b: BoundaryCondition,
    cells: Seq<bool>,
    n: nat,
) -> Seq<bool>
    decreases n,
{
    if n == 0 {
        cells
    } else {
        step_cells(w, h, b, step_n_cells(w, h, b, cells, (n - 1) as nat))
    }
}

/// The Game of Life rules engine.
pub struct GameOfLifeRules;

impl GameOfLifeRules {
    /// Applies the rule once to every cell; the reference forward simulator.
    pub fn evolve(current: &Grid) -> (r: Grid)
        requires
            current.wf(),
        ensures
            r.width == current.width,
            r.height == current.height,
            r.boundary_condition == current.boundary_condition,
            r.wf(),
            r.cells@ == step_cells(
                current.width as int,
                current.height as int,
                current.boundary_condition,
                current.cells@,
            ),
    {
        let w = current.width;
        let h = current.height;
        let ghost target_cells = step_cells(
            w as int,
            h as int,
            current.boundary_condition,
            current.cells@,
        );
        let mut next_cells: Vec<bool> = Vec::new();
        let mut row: usize = 0;
        while row < h
            invariant
                current.wf(),
                w == current.width,
                h == current.height,
                target_cells == step_cells(
                    w as int,
                    h as int,
                    current.boundary_condition,
                    current.cells@,
                ),
                row <= h,
                next_cells@.len() == row * w,
                forall|k: int| 0 <= k < next_cells@.len() ==> next_cells@[k] == target_cells[k],
            decreases h - row,
        {
            let mut col: usize = 0;
            while col < w
                invariant
                    current.wf(),
                    w == current.width,
                    h == current.height,
                    target_cells == step_cells(
                        w as int,
                        h as int,
                        current.boundary_condition,
                        current.cells@,
                    ),
                    row < h,
                    col <= w,
                    next_cells@.len() == row * w + col,
                    forall|k: int| 0 <= k < next_cells@.len() ==> next_cells@[k] == target_cells[k],
                decreases w - col,
            {
                let neighbors = current.count_neighbors(row, col);
                let idx = current.index(row, col);
                let current_cell = current.cells[idx];
                let alive = match (current_cell, neighbors) {
                    (true, 2) | (true, 3) | (false, 3) => true,
                    _ => false,
                };
                proof {
                    lemma_row_major(w as int, h as int, row as int, col as int);
                    lemma_div_mod_of_row_major(w as int, row as int, col as int);
                }
                next_cells.push(alive);
                col += 1;
            }
            proof {
                assert(row * w + w == (row + 1) * w) by (nonlinear_arith);
            }
            row += 1;
        }
        proof {
            assert(h * w == h as int * w as int) by (nonlinear_arith);
            assert(next_cells@ =~= target_cells);
        }
        let r = Grid {
            width: w,
            height: h,
            cells: next_cells,
            boundary_condition: current.boundary_condition,
        };
        proof {
            assert(r.wf()) by {
                assert(h * w == w * h) by (nonlinear_arith);
            }
        }
        r
    }

    /// Applies the rule `generations` times.
    pub fn evolve_generations(grid: Grid, generations: usize) -> (r: Grid)
        requires
            grid.wf(),
        ensures
            r.width == grid.width,
            r.height == grid.height,
            r.boundary_condition == grid.boundary_condition,
            r.wf(),
            r.cells@ == step_n_cells(
                grid.width as int,
                grid.height as int,
                grid.boundary_condition,
                grid.cells@,
                generations as nat,
            ),
    {
        let mut current = grid;
        let ghost orig = current;
        let mut i: usize = 0;
        while i < generations
            invariant
                i <= generations,
                current.wf(),
                current.width == orig.width,
                current.height == orig.height,
                current.boundary_condition == orig.boundary_condition,
                current.cells@ == step_n_cells(
                    orig.width as int,
                    orig.height as int,
                    orig.boundary_condition,
                    orig.cells@,
                    i as nat,
                ),
            decreases generations - i,
        {
            current = Self::evolve(&current);
            i += 1;
        }
        current
    }

    /// Whether a cell with the given state and live-neighbor count is alive
    /// in the next generation.
    pub fn should_be_alive(current_state: bool, neighbor_count: u8) -> (r: bool)
        ensures
            r == next_state(current_state, neighbor_count as int),
    {
        match (current_state, neighbor_count) {
            (true, 2) | (true, 3) | (false, 3) => true,
            _ => false,
        }
    }

    /// The neighbor counts under which a live cell stays alive.
    pub fn live_neighbor_counts() -> (r: Vec<u8>)
        ensures
            r@ == seq![2u8, 3u8],
    {
        let mut v: Vec<u8> = Vec::new();
        v.push(2);
        v.push(3);
        proof {
            assert(v@ =~= seq![2u8, 3u8]);
        }
        v
    }

    /// The neighbor counts under which a dead cell becomes alive.
    pub fn birth_neighbor_counts() -> (r: Vec<u8>)
        ensures
            r@ == seq![3u8],
    {
        let mut v: Vec<u8> = Vec::new();
        v.push(3);
        proof {
            assert(v@ =~= seq![3u8]);
        }
        v
    }

    /// The neighbor counts under which a live cell survives.
    pub fn survival_neighbor_counts() -> (r: Vec<u8>)
        ensures
            r@ == seq![2u8, 3u8],
    {
        Self::live_neighbor_counts()
    }

    /// Whether `predecessor` evolves to `target` in exactly `generations`
    /// steps; false when the extents disagree.
    pub fn validate_evolution(predecessor: &Grid, target: &Grid, generations: usize) -> (r: bool)
        requires
            predecessor.wf(),
            target.wf(),
        ensures
            r == (predecessor.width == target.width && predecessor.height == target.height
                && step_n_cells(
                predecessor.width as int,
                predecessor.height as int,
                predecessor.boundary_condition,
                predecessor.cells@,
                generations as nat,
            ) == target.cells@),
    {
        if predecessor.width != target.width || predecessor.height != target.height {
            return false;
        }
        let evolved = Self::evolve_generations(predecessor.duplicate(), generations);
        let r = Self::grids_equal(&evolved, target);
        proof {
            if evolved.cells@ =~= target.cells@ {
                assert(evolved.cells@ == target.cells@);
            }
        }
        r
    }

    /// Whether two grids hold the same extent and the same cells.
    pub fn grids_equal(grid1: &Grid, grid2: &Grid) -> (r: bool)
        ensures
            r == (grid1.width == grid2.width && grid1.height == grid2.height && grid1.cells@
                == grid2.cells@),
    {
        grid1.same_cells(grid2)
    }

    /// The largest possible live-neighbor count.
    pub fn max_neighbor_count() -> (r: u8)
        ensures
            r == 8,
    {
        8
    }

    /// Whether a count can arise in a Moore neighborhood.
    pub fn is_valid_neighbor_count(count: u8) -> (r: bool)
        ensures
            r == (count <= 8),
    {
        count <= 8
    }
}

} // verus!
