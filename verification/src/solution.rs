//! Solution records: a predecessor, its forward trace, and metadata.

use vstd::prelude::*;
use crate::grid::{Grid, count_true_upto};
use crate::textutil::{hex_chars, u64_to_hex_string};

verus! {

/// The 64-bit FNV-1a offset basis.
pub open spec fn fnv_offset() -> u64 {
    0xcbf29ce484222325
}

/// One FNV-1a step: fold one byte into the state.
pub open spec fn fnv_step(h: u64, byte: u64) -> u64 {
    ((((h ^ byte) as int) * 0x100000001b3) % 0x1_0000_0000_0000_0000) as u64
}

/// The FNV-1a state after folding the first `n` cells, one byte each.
pub open spec fn fnv_cells(cells: Seq<bool>, n: int, h0: u64) -> u64
    decreases n,
{
    if n <= 0 {
        h0
    } else {
        fnv_step(
            fnv_cells(cells, n - 1, h0),
            if cells[n - 1] {
                1u64
            } else {
                0u64
            },
        )
    }
}

/// The stable hash of a grid: its cells folded byte-wise, then its width
/// and height.
pub open spec fn grid_fingerprint(g: Grid) -> u64 {
    fnv_step(
        fnv_step(fnv_cells(g.cells@, g.cells@.len() as int, fnv_offset()), g.width as u64 % 256),
        g.height as u64 % 256,
    )
}

/// One FNV-1a fold, computed exactly.
fn fnv_fold(h: u64, byte: u64) -> (r: u64)
    ensures
        r == fnv_step(h, byte),
{
    let x = h ^ byte;
    let prod: u128 = (x as u128) * 0x100000001b3u128;
    (prod % 0x1_0000_0000_0000_0000u128) as u64
}

/// A solution: the predecessor, the target it reaches, the full forward
/// trace, and informational metadata.
#[derive(Debug)]
pub struct Solution {
    pub predecessor: Grid,
    pub target: Grid,
    pub generations: usize,
    pub evolution_path: Vec<Grid>,
    pub solve_time_ms: u64,
    pub metadata: SolutionMetadata,
}

/// Informational facts about one solution.
#[derive(Debug)]
pub struct SolutionMetadata {
    /// A stable identifier derived from a hash of the predecessor's cells
    /// and extent.
    pub id: String,
    pub predecessor_living_cells: usize,
    pub target_living_cells: usize,
    pub contains_known_patterns: bool,
    pub stability: StabilityAnalysis,
}

/// What the forward trace says about the predecessor's behavior.
#[derive(Debug)]
pub struct StabilityAnalysis {
    pub is_still_life: bool,
    pub is_oscillator: bool,
    pub oscillation_period: Option<usize>,
    pub has_moving_patterns: bool,
}

/// The display-oriented digest of a solution.
#[derive(Debug)]
pub struct SolutionSummary {
    pub id: String,
    pub predecessor_living_cells: usize,
    pub target_living_cells: usize,
    pub generations: usize,
    pub solve_time_ms: u64,
    pub is_still_life: bool,
    pub is_oscillator: bool,
}

impl Default for StabilityAnalysis {
    /// Nothing observed.
    fn default() -> (r: StabilityAnalysis)
        ensures
            !r.is_still_life,
            !r.is_oscillator,
            r.oscillation_period.is_none(),
            !r.has_moving_patterns,
    {
        StabilityAnalysis {
            is_still_life: false,
            is_oscillator: false,
            oscillation_period: None,
            has_moving_patterns: false,
        }
    }
}

impl Solution {
    /// Packs a validated candidate with its trace and metadata.
    pub fn new(
        predecessor: Grid,
        target: Grid,
        generations: usize,
        evolution_path: Vec<Grid>,
        solve_time_ms: u64,
    ) -> (r: Solution)
        requires
            predecessor.wf(),
            forall|i: int| 0 <= i < evolution_path@.len() ==> (#[trigger] evolution_path@[i]).wf(),
        ensures
            r.predecessor == predecessor,
            r.target == target,
            r.generations == generations,
            r.evolution_path@ == evolution_path@,
            r.solve_time_ms == solve_time_ms,
    {
        let metadata = SolutionMetadata::analyze(&predecessor, &target, &evolution_path);
        Solution { predecessor, target, generations, evolution_path, solve_time_ms, metadata }
    }

    /// The predecessor state.
    pub fn initial_state(&self) -> (r: &Grid)
        ensures
            r == &self.predecessor,
    {
        &self.predecessor
    }

    /// The target state.
    pub fn final_state(&self) -> (r: &Grid)
        ensures
            r == &self.target,
    {
        &self.target
    }

    /// The recorded state after the given number of steps, if the trace
    /// holds it.
    pub fn state_at_generation(&self, generation: usize) -> (r: Option<&Grid>)
        ensures
            generation < self.evolution_path@.len() <==> r is Some,
            r matches Some(g) ==> g == &self.evolution_path@[generation as int],
    {
        if generation < self.evolution_path.len() {
            Some(&self.evolution_path[generation])
        } else {
            None
        }
    }

    /// The whole forward trace.
    pub fn evolution_path(&self) -> (r: &Vec<Grid>)
        ensures
            r == &self.evolution_path,
    {
        &self.evolution_path
    }

    /// Whether two solutions share the predecessor, cell for cell.
    pub fn is_equivalent_to(&self, other: &Solution) -> (r: bool)
        ensures
            r == (self.predecessor.width == other.predecessor.width && self.predecessor.height
                == other.predecessor.height && self.predecessor.cells@
                == other.predecessor.cells@),
    {
        self.predecessor.same_cells(&other.predecessor)
    }

    /// The display digest.
    pub fn summary(&self) -> (r: SolutionSummary)
        ensures
            r.id@ == self.metadata.id@,
            r.predecessor_living_cells == self.metadata.predecessor_living_cells,
            r.target_living_cells == self.metadata.target_living_cells,
            r.generations == self.generations,
            r.solve_time_ms == self.solve_time_ms,
            r.is_still_life == self.metadata.stability.is_still_life,
            r.is_oscillator == self.metadata.stability.is_oscillator,
    {
        SolutionSummary {
            id: self.metadata.id.clone(),
            predecessor_living_cells: self.metadata.predecessor_living_cells,
            target_living_cells: self.metadata.target_living_cells,
            generations: self.generations,
            solve_time_ms: self.solve_time_ms,
            is_still_life: self.metadata.stability.is_still_life,
            is_oscillator: self.metadata.stability.is_oscillator,
        }
    }
}

impl SolutionMetadata {
    /// Derives the metadata of one solution from its grids and trace.
    pub fn analyze(predecessor: &Grid, target: &Grid, evolution_path: &Vec<Grid>) -> (r:
        SolutionMetadata)
        requires
            predecessor.wf(),
            forall|i: int| 0 <= i < evolution_path@.len() ==> (#[trigger] evolution_path@[i]).wf(),
        ensures
            r.id@ == seq!['s', 'o', 'l', '_'] + hex_chars(grid_fingerprint(*predecessor) as int),
            r.predecessor_living_cells == count_true_upto(
                predecessor.cells@,
                predecessor.cells@.len() as int,
            ),
            r.target_living_cells == count_true_upto(target.cells@, target.cells@.len() as int),
    {
        let id = Self::generate_id(predecessor);
        let predecessor_living_cells = predecessor.living_count();
        let target_living_cells = target.living_count();
        let contains_known_patterns = Self::detect_known_patterns(predecessor);
        let stability = StabilityAnalysis::analyze(evolution_path);
        SolutionMetadata {
            id,
            predecessor_living_cells,
            target_living_cells,
            contains_known_patterns,
            stability,
        }
    }

    /// The stable identifier of a predecessor: a tag and the hexadecimal
    /// fingerprint of its cells and extent.
    fn generate_id(predecessor: &Grid) -> (r: String)
        ensures
            r@ == seq!['s', 'o', 'l', '_'] + hex_chars(grid_fingerprint(*predecessor) as int),
    {
        proof {
            reveal_strlit("sol_");
        }
        let mut h: u64 = 0xcbf29ce484222325;
        let n = predecessor.cells.len();
        let mut i: usize = 0;
        while i < n
            invariant
                i <= n,
                n == predecessor.cells@.len(),
                h == fnv_cells(predecessor.cells@, i as int, fnv_offset()),
            decreases n - i,
        {
            let byte: u64 = if predecessor.cells[i] {
                1
            } else {
                0
            };
            h = fnv_fold(h, byte);
            i += 1;
        }
        h = fnv_fold(h, (predecessor.width % 256) as u64);
        h = fnv_fold(h, (predecessor.height % 256) as u64);
        proof {
            assert((predecessor.width % 256) as u64 == predecessor.width as u64 % 256);
            assert((predecessor.height % 256) as u64 == predecessor.height as u64 % 256);
        }
        let mut s: String = "sol_".to_owned();
        s.append(u64_to_hex_string(h).as_str());
        proof {
            assert("sol_"@ =~= seq!['s', 'o', 'l', '_']);
        }
        s
    }

    /// A coarse scan for well-known small patterns.
    pub fn detect_known_patterns(grid: &Grid) -> (r: bool)
        requires
            grid.wf(),
    {
        let living_count = grid.living_count();
        if living_count == 4 {
            return Self::is_block_pattern(grid) || Self::is_beehive_pattern(grid);
        }
        if living_count == 3 {
            return Self::is_blinker_pattern(grid);
        }
        if living_count == 5 {
            return Self::is_glider_pattern(grid);
        }
        false
    }

    /// Whether the four living cells form a two-by-two block.
    pub fn is_block_pattern(grid: &Grid) -> (r: bool)
        requires
            grid.wf(),
    {
        let living = grid.living_count();
        if living != 4 {
            return false;
        }
        if grid.height < 2 || grid.width < 2 {
            return false;
        }
        let h = grid.height;
        let w = grid.width;
        let mut y: usize = 0;
        while y < h - 1
            invariant
                y <= h - 1,
                h == grid.height,
                w == grid.width,
                h >= 2,
                w >= 2,
                grid.wf(),
            decreases h - 1 - y,
        {
            let mut x: usize = 0;
            while x < w - 1
                invariant
                    x <= w - 1,
                    y < h - 1,
                    h == grid.height,
                    w == grid.width,
                    h >= 2,
                    w >= 2,
                    grid.wf(),
                decreases w - 1 - x,
            {
                if grid.get(y, x) && grid.get(y, x + 1) && grid.get(y + 1, x) && grid.get(
                    y + 1,
                    x + 1,
                ) {
                    return true;
                }
                x += 1;
            }
            y += 1;
        }
        false
    }

    /// Whether the three living cells form a horizontal or vertical line.
    pub fn is_blinker_pattern(grid: &Grid) -> (r: bool)
        requires
            grid.wf(),
    {
        let living_cells = grid.living_cells();
        if living_cells.len() != 3 {
            return false;
        }
        let (r0, c0) = living_cells[0];
        let (r1, c1) = living_cells[1];
        let (r2, c2) = living_cells[2];
        // Row-major order makes a horizontal line consecutive in columns
        // and a vertical line consecutive in rows.
        if r0 == r1 && r1 == r2 && c1 > c0 && c1 - c0 == 1 && c2 > c1 && c2 - c1 == 1 {
            return true;
        }
        if c0 == c1 && c1 == c2 && r1 > r0 && r1 - r0 == 1 && r2 > r1 && r2 - r1 == 1 {
            return true;
        }
        false
    }

    /// A beehive scan is not implemented; four-cell beehives do not exist,
    /// so this never holds.
    pub fn is_beehive_pattern(_grid: &Grid) -> (r: bool)
        ensures
            !r,
    {
        false
    }

    /// A glider scan over all orientations is not implemented; this never
    /// holds.
    pub fn is_glider_pattern(_grid: &Grid) -> (r: bool)
        ensures
            !r,
    {
        false
    }
}

impl StabilityAnalysis {
    /// What the forward trace shows: a still life, an oscillator and its
    /// period, or movement of the live-cell barycenter.
    pub fn analyze(evolution_path: &Vec<Grid>) -> (r: StabilityAnalysis)
        requires
            forall|i: int| 0 <= i < evolution_path@.len() ==> (#[trigger] evolution_path@[i]).wf(),
    {
        if evolution_path.len() < 2 {
            return StabilityAnalysis::default();
        }
        let is_still_life = Self::check_still_life(evolution_path);

        let (is_oscillator, oscillation_period) = Self::check_oscillator(evolution_path);
        let has_moving_patterns = Self::check_moving_patterns(evolution_path);
        StabilityAnalysis { is_still_life, is_oscillator, oscillation_period, has_moving_patterns }
    }

    /// Whether the first step leaves the grid unchanged.
    pub fn check_still_life(evolution_path: &Vec<Grid>) -> (r: bool)
        ensures
            r <==> (evolution_path@.len() >= 2 && evolution_path@[0].width
                == evolution_path@[1].width && evolution_path@[0].height
                == evolution_path@[1].height && evolution_path@[0].cells@
                == evolution_path@[1].cells@),
    {
        if evolution_path.len() < 2 {
            return false;
        }
        evolution_path[0].same_cells(&evolution_path[1])
    }

    /// Searches for the smallest period, up to eight, at which the trace
    /// repeats its start.
    pub fn check_oscillator(evolution_path: &Vec<Grid>) -> (r: (bool, Option<usize>))
        ensures
            r.0 <==> r.1 is Some,
    {
        let n = evolution_path.len();
        if n < 3 {
            return (false, None);
        }
        let limit = if n - 1 < 8 {
            n - 1
        } else {
            8
        };
        let mut period: usize = 2;
        while period <= limit
            invariant
                2 <= period,
                limit < n,
                n == evolution_path@.len(),
            decreases limit + 1 - period,
        {
            if evolution_path[0].same_cells(&evolution_path[period]) {
                let mut is_periodic = true;
                let mut i: usize = 1;
                while i < period
                    invariant
                        1 <= i <= period,
                        period < n,
                        n == evolution_path@.len(),
                    decreases period - i,
                {
                    if i < n - period {
                        if !evolution_path[i].same_cells(&evolution_path[i + period]) {
                            is_periodic = false;
                        }
                    }
                    i += 1;
                }
                if is_periodic {
                    return (true, Some(period));
                }
            }
            period += 1;
        }
        (false, None)
    }

    /// Whether the live-cell barycenter shifts by more than half a cell
    /// between consecutive states of equal population.
    pub fn check_moving_patterns(evolution_path: &Vec<Grid>) -> (r: bool)
        requires
            forall|i: int| 0 <= i < evolution_path@.len() ==> (#[trigger] evolution_path@[i]).wf(),
    {
        let n = evolution_path.len();
        if n < 2 {
            return false;
        }
        let mut i: usize = 1;
        while i < n
            invariant
                1 <= i <= n,
                n == evolution_path@.len(),
                forall|j: int| 0 <= j < evolution_path@.len() ==> (
                #[trigger] evolution_path@[j]).wf(),
            decreases n - i,
        {
            let prev = evolution_path[i - 1].living_cells();
            let curr = evolution_path[i].living_cells();
            if prev.len() == curr.len() && prev.len() > 0 {
                let (psr, psc) = Self::coordinate_sums(&prev);
                let (csr, csc) = Self::coordinate_sums(&curr);
                // The barycenters differ by more than one half exactly when
                // 4 * ((dr)^2 + (dc)^2) > len^2, with sums scaled by len.
                let len = prev.len() as u128;
                let dr = if psr >= csr {
                    psr - csr
                } else {
                    csr - psr
                };
                let dc = if psc >= csc {
                    psc - csc
                } else {
                    csc - psc
                };
                if dr < 0x100_0000_0000_0000u128 && dc < 0x100_0000_0000_0000u128 && len
                    < 0x100_0000_0000_0000u128 {
                    proof {
                        assert((dr as int) * (dr as int) < 0x1_0000_0000_0000_0000_0000_0000_0000
                            && (dc as int) * (dc as int)
                            < 0x1_0000_0000_0000_0000_0000_0000_0000 && (len as int) * (
                        len as int) < 0x1_0000_0000_0000_0000_0000_0000_0000) by (nonlinear_arith)
                            requires
                                0 <= (dr as int) && (dr as int) < 0x100_0000_0000_0000,
                                0 <= (dc as int) && (dc as int) < 0x100_0000_0000_0000,
                                0 <= (len as int) && (len as int) < 0x100_0000_0000_0000;
                    }
                    if 4 * (dr * dr + dc * dc) > len * len {
                        return true;
                    }
                }
            }
            i += 1;
        }
        false
    }

    /// The sums of the row and column coordinates of the given cells.
    fn coordinate_sums(cells: &Vec<(usize, usize)>) -> (r: (u128, u128))
    {
        let mut sum_r: u128 = 0;
        let mut sum_c: u128 = 0;
        let n = cells.len();
        let mut i: usize = 0;
        while i < n
            invariant
                i <= n,
                n == cells@.len(),
                sum_r <= (i as u128) * 0xffff_ffff_ffff_ffff,
                sum_c <= (i as u128) * 0xffff_ffff_ffff_ffff,
            decreases n - i,
        {
            let (row, col) = cells[i];
            proof {
                assert((i as u128 + 1) * 0xffff_ffff_ffff_ffff == (i as u128)
                    * 0xffff_ffff_ffff_ffff + 0xffff_ffff_ffff_ffff) by (nonlinear_arith);
                assert((i as int) * 0xffff_ffff_ffff_ffff <= (0xffff_ffff_ffff_ffffu128 as int)
                    * 0xffff_ffff_ffff_ffff) by (nonlinear_arith)
                    requires 0 <= i as int <= 0xffff_ffff_ffff_ffffu128 as int;
            }
            sum_r = sum_r + (row as u128);
            sum_c = sum_c + (col as u128);
            i += 1;
        }
        (sum_r, sum_c)
    }
}

} // verus!
