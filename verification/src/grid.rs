//! Grid representation with boundary-aware neighbor reads.

use vstd::prelude::*;
use crate::settings::BoundaryCondition;
use crate::errors::{EngineError, InputFault};

verus! {

/// Reads one cell of a row-major cell sequence.
pub open spec fn gcell(w: int, cells: Seq<bool>, row: int, col: int) -> bool {
    cells[row * w + col]
}

/// Reflects a coordinate at the edges of a dimension of size `d`.
pub open spec fn mirror_coord(c: int, d: int) -> int {
    if c < 0 {
        -c - 1
    } else if c >= d {
        d - 1 - (c - d)
    } else {
        c
    }
}

/// Whether the boundary-mapped read of `(row, col)` is alive.
pub open spec fn spec_neighbor_alive(
    w: int,
    h: int,
    b: BoundaryCondition,
    cells: Seq<bool>,
    row: int,
    col: int,
) -> bool {
    match b {
        BoundaryCondition::Dead => {
            0 <= row < h && 0 <= col < w && gcell(w, cells, row, col)
        }
        BoundaryCondition::Wrap => {
            gcell(w, cells, row % h, col % w)
        }
        BoundaryCondition::Mirror => {
            let mr = mirror_coord(row, h);
            let mc = mirror_coord(col, w);
            0 <= mr < h && 0 <= mc < w && gcell(w, cells, mr, mc)
        }
    }
}

/// 1 if the boundary-mapped read is alive, else 0.
pub open spec fn nb_ind(
    w: int,
    h: int,
    b: BoundaryCondition,
    cells: Seq<bool>,
    row: int,
    col: int,
) -> int {
    if spec_neighbor_alive(w, h, b, cells, row, col) {
        1int
    } else {
        0int
    }
}

/// The live-neighbor count of `(row, col)`: the sum of the eight
/// boundary-mapped reads of the Moore neighborhood, with multiplicity.
pub open spec fn spec_count_neighbors(
    w: int,
    h: int,
    b: BoundaryCondition,
    cells: Seq<bool>,
    row: int,
    col: int,
) -> int {
    nb_ind(w, h, b, cells, row - 1, col - 1) + nb_ind(w, h, b, cells, row - 1, col)
        + nb_ind(w, h, b, cells, row - 1, col + 1) + nb_ind(w, h, b, cells, row, col - 1)
        + nb_ind(w, h, b, cells, row, col + 1) + nb_ind(w, h, b, cells, row + 1, col - 1)
        + nb_ind(w, h, b, cells, row + 1, col) + nb_ind(w, h, b, cells, row + 1, col + 1)
}

/// A row-major index stays inside the grid.
pub proof fn lemma_row_major(w: int, h: int, row: int, col: int)
    requires
        0 <= row < h,
        0 <= col < w,
    ensures
        0 <= row * w + col < h * w,
    decreases h,
{
    if row == h - 1 {
        assert(row * w + col < h * w) by (nonlinear_arith)
            requires 0 <= col < w, row == h - 1;
        assert(row * w + col >= 0) by (nonlinear_arith)
            requires 0 <= row, 0 <= col, 0 < w;
    } else {
        lemma_row_major(w, h - 1, row, col);
        assert((h - 1) * w <= h * w) by (nonlinear_arith)
            requires 0 < w, 0 < h;
    }
}

/// Two distinct in-range coordinate pairs give distinct row-major indices.
pub proof fn lemma_row_major_injective(w: int, h: int, r1: int, c1: int, r2: int, c2: int)
    requires
        0 <= r1 < h,
        0 <= c1 < w,
        0 <= r2 < h,
        0 <= c2 < w,
        (r1, c1) != (r2, c2),
    ensures
        r1 * w + c1 != r2 * w + c2,
{
    assert(r1 * w + c1 != r2 * w + c2) by (nonlinear_arith)
        requires
            0 <= r1 < h, 0 <= c1 < w, 0 <= r2 < h, 0 <= c2 < w,
            !(r1 == r2 && c1 == c2);
}

/// Count of live cells among the first `n` entries.
pub open spec fn count_true_upto(s: Seq<bool>, n: int) -> int
    decreases n,
{
    if n <= 0 {
        0
    } else {
        count_true_upto(s, n - 1) + if s[n - 1] { 1int } else { 0int }
    }
}

/// The in-range living coordinates, as `(row, col)` pairs, among the cells
/// with row-major index below `n`.
pub open spec fn living_upto(w: int, cells: Seq<bool>, n: int) -> Seq<(usize, usize)>
    decreases n,
{
    if n <= 0 {
        Seq::empty()
    } else {
        living_upto(w, cells, n - 1) + if cells[n - 1] {
            seq![(((n - 1) / w) as usize, ((n - 1) % w) as usize)]
        } else {
            Seq::<(usize, usize)>::empty()
        }
    }
}

/// A Game of Life grid: a row-major packed cell sequence with its
/// boundary discipline.
#[derive(Debug, Clone)]
pub struct Grid {
    pub width: usize,
    pub height: usize,
    pub cells: Vec<bool>,
    pub boundary_condition: BoundaryCondition,
}

impl Grid {
    /// The cell sequence covers exactly the declared extent.
    pub open spec fn wf(&self) -> bool {
        self.cells@.len() == self.height * self.width
    }

    /// Spec-level read of an in-range cell.
    pub open spec fn cell(&self, row: int, col: int) -> bool {
        gcell(self.width as int, self.cells@, row, col)
    }

    /// Spec-level live-neighbor count.
    pub open spec fn spec_neighbors(&self, row: int, col: int) -> int {
        spec_count_neighbors(
            self.width as int,
            self.height as int,
            self.boundary_condition,
            self.cells@,
            row,
            col,
        )
    }

    /// Creates an all-dead grid of the given extent.
    pub fn new(width: usize, height: usize, boundary_condition: BoundaryCondition) -> (r: Grid)
        requires
            width * height <= usize::MAX,
        ensures
            r.width == width,
            r.height == height,
            r.boundary_condition == boundary_condition,
            r.wf(),
            forall|i: int| 0 <= i < r.cells@.len() ==> !r.cells@[i],
    {
        let total = width * height;
        let mut cells: Vec<bool> = Vec::new();
        let mut i: usize = 0;
        while i < total
            invariant
                i <= total,
                cells@.len() == i,
                forall|j: int| 0 <= j < i ==> !cells@[j],
            decreases total - i,
        {
            cells.push(false);
            i += 1;
        }
        proof {
            assert(width * height == height * width) by (nonlinear_arith);
        }
        Grid { width, height, cells, boundary_condition }
    }

    /// Builds a grid from rows of booleans. Fails when there is no row,
    /// when the first row is empty, or when a later row differs in length
    /// from the first.
    pub fn from_cells(cells: Vec<Vec<bool>>, boundary_condition: BoundaryCondition) -> (r: Result<
        Grid,
        EngineError,
    >)
        ensures
            r is Ok <==> (cells@.len() > 0 && cells@[0]@.len() > 0 && forall|i: int|
                0 <= i < cells@.len() ==> #[trigger] cells@[i]@.len() == cells@[0]@.len()),
            r matches Ok(g) ==> {
                &&& g.height == cells@.len()
                &&& g.width == cells@[0]@.len()
                &&& g.boundary_condition == boundary_condition
                &&& g.wf()
                &&& forall|row: int, col: int|
                    0 <= row < g.height && 0 <= col < g.width ==> #[trigger] g.cell(row, col)
                        == cells@[row]@[col]
            },
    {
        if cells.len() == 0 {
            return Err(EngineError::InvalidInput(InputFault::EmptyGrid));
        }
        let height = cells.len();
        let width = cells[0].len();
        if width == 0 {
            return Err(EngineError::InvalidInput(InputFault::EmptyGrid));
        }
        let mut flat: Vec<bool> = Vec::new();
        let mut r: usize = 0;
        while r < height
            invariant
                r <= height,
                height == cells@.len(),
                width == cells@[0]@.len(),
                width > 0,
                flat@.len() == r * width,
                forall|i: int| 0 <= i < r ==> #[trigger] cells@[i]@.len() == width,
                forall|i: int, j: int|
                    0 <= i < r && 0 <= j < width ==> #[trigger] flat@[i * width + j]
                        == cells@[i]@[j],
            decreases height - r,
        {
            let row = &cells[r];
            if row.len() != width {
                return Err(EngineError::InvalidInput(InputFault::RowLength {
                    row: r,
                    expected: width,
                    actual: row.len(),
                }));
            }
            let mut c: usize = 0;
            while c < width
                invariant
                    c <= width,
                    r < height,
                    height == cells@.len(),
                    width == cells@[0]@.len(),
                    width > 0,
                    cells@[r as int]@.len() == width,
                    flat@.len() == r * width + c,
                    forall|i: int| 0 <= i < r ==> #[trigger] cells@[i]@.len() == width,
                    forall|i: int, j: int|
                        0 <= i < r && 0 <= j < width ==> #[trigger] flat@[i * width + j]
                            == cells@[i]@[j],
                    forall|j: int| 0 <= j < c ==> #[trigger] flat@[r * width + j]
                        == cells@[r as int]@[j],
                decreases width - c,
            {
                flat.push(cells[r][c]);
                proof {
                    assert forall|i: int, j: int|
                        0 <= i < r && 0 <= j < width implies #[trigger] flat@[i * width + j]
                            == cells@[i]@[j] by {
                        lemma_row_major(width as int, r as int, i, j);
                    }
                }
                c += 1;
            }
            proof {
                assert(r * width + width == (r + 1) * width) by (nonlinear_arith);
                assert forall|i: int, j: int|
                    0 <= i < r + 1 && 0 <= j < width implies #[trigger] flat@[i * width + j]
                        == cells@[i]@[j] by {
                    if i < r {
                        lemma_row_major(width as int, r as int, i, j);
                        assert(r * width <= (r + 1) * width) by (nonlinear_arith);
                    } else {
                        assert(i == r);
                        assert(flat@[r as int * width + j] == cells@[r as int]@[j]);
                    }
                }
            }
            r += 1;
        }
        let g = Grid { width, height, cells: flat, boundary_condition };
        proof {
            assert(height * width == width * height) by (nonlinear_arith);
            assert forall|row: int, col: int|
                0 <= row < g.height && 0 <= col < g.width implies #[trigger] g.cell(row, col)
                    == cells@[row]@[col] by {
                lemma_row_major(width as int, height as int, row, col);
            }
        }
        Ok(g)
    }

    /// The row-major index of an in-range coordinate pair.
    #[inline]
    pub fn index(&self, row: usize, col: usize) -> (r: usize)
        requires
            self.wf(),
            row < self.height,
            col < self.width,
        ensures
            r == row * self.width + col,
            r < self.cells@.len(),
    {
        let n = self.cells.len();
        proof {
            lemma_row_major(self.width as int, self.height as int, row as int, col as int);
        }
        row * self.width + col
    }

    /// Reads a cell; coordinates outside the extent read as dead.
    pub fn get(&self, row: usize, col: usize) -> (r: bool)
        requires
            self.wf(),
        ensures
            r == if row < self.height && col < self.width {
                self.cell(row as int, col as int)
            } else {
                false
            },
    {
        if row < self.height && col < self.width {
            let idx = self.index(row, col);
            self.cells[idx]
        } else {
            false
        }
    }

    /// Writes a cell; fails outside the extent.
    pub fn set(&mut self, row: usize, col: usize, value: bool) -> (r: Result<(), EngineError>)
        requires
            old(self).wf(),
        ensures
            final(self).width == old(self).width,
            final(self).height == old(self).height,
            final(self).boundary_condition == old(self).boundary_condition,
            final(self).wf(),
            r is Ok <==> (row < old(self).height && col < old(self).width),
            r is Ok ==> final(self).cells@ == old(self).cells@.update(
                row as int * old(self).width + col as int,
                value,
            ),
            r is Err ==> *final(self) == *old(self),
    {
        if row >= self.height || col >= self.width {
            return Err(EngineError::OutOfBounds { x: col, y: row, t: 0 });
        }
        let idx = self.index(row, col);
        self.cells[idx] = value;
        Ok(())
    }

    /// Boundary-mapped read used for neighbor counting. Coordinates come
    /// from the Moore neighborhood of an in-range cell, so they lie at most
    /// one step outside the extent.
    fn is_neighbor_alive(&self, row: i128, col: i128) -> (r: bool)
        requires
            self.wf(),
            self.width > 0,
            self.height > 0,
            -1 <= row <= self.height,
            -1 <= col <= self.width,
        ensures
            r == spec_neighbor_alive(
                self.width as int,
                self.height as int,
                self.boundary_condition,
                self.cells@,
                row as int,
                col as int,
            ),
    {
        let w = self.width as i128;
        let h = self.height as i128;
        let n = self.cells.len();
        match self.boundary_condition {
            BoundaryCondition::Dead => {
                if 0 <= row && row < h && 0 <= col && col < w {
                    proof {
                        lemma_row_major(w as int, h as int, row as int, col as int);
                    }
                    let idx = (row as usize) * self.width + (col as usize);
                    self.cells[idx]
                } else {
                    false
                }
            }
            BoundaryCondition::Wrap => {
                let wr = if row < 0 {
                    row + h
                } else if row >= h {
                    row - h
                } else {
                    row
                };
                let wc = if col < 0 {
                    col + w
                } else if col >= w {
                    col - w
                } else {
                    col
                };
                proof {
                    lemma_shift_is_mod_pub(row as int, h as int);
                    lemma_shift_is_mod_pub(col as int, w as int);
                    lemma_row_major(w as int, h as int, wr as int, wc as int);
                }
                let idx = (wr as usize) * self.width + (wc as usize);
                self.cells[idx]
            }
            BoundaryCondition::Mirror => {
                let mr = if row < 0 {
                    -row - 1
                } else if row >= h {
                    h - 1 - (row - h)
                } else {
                    row
                };
                let mc = if col < 0 {
                    -col - 1
                } else if col >= w {
                    w - 1 - (col - w)
                } else {
                    col
                };
                if 0 <= mr && mr < h && 0 <= mc && mc < w {
                    proof {
                        lemma_row_major(w as int, h as int, mr as int, mc as int);
                    }
                    let idx = (mr as usize) * self.width + (mc as usize);
                    self.cells[idx]
                } else {
                    false
                }
            }
        }
    }

    /// Counts the live cells of the Moore neighborhood, each of the eight
    /// offsets counted through the boundary rule.
    pub fn count_neighbors(&self, row: usize, col: usize) -> (r: u8)
        requires
            self.wf(),
            self.width > 0,
            self.height > 0,
            row < self.height,
            col < self.width,
        ensures
            r as int == self.spec_neighbors(row as int, col as int),
            r <= 8,
    {
        let ri = row as i128;
        let ci = col as i128;
        let mut count: u8 = 0;
        if self.is_neighbor_alive(ri - 1, ci - 1) {
            count += 1;
        }
        if self.is_neighbor_alive(ri - 1, ci) {
            count += 1;
        }
        if self.is_neighbor_alive(ri - 1, ci + 1) {
            count += 1;
        }
        if self.is_neighbor_alive(ri, ci - 1) {
            count += 1;
        }
        if self.is_neighbor_alive(ri, ci + 1) {
            count += 1;
        }
        if self.is_neighbor_alive(ri + 1, ci - 1) {
            count += 1;
        }
        if self.is_neighbor_alive(ri + 1, ci) {
            count += 1;
        }
        if self.is_neighbor_alive(ri + 1, ci + 1) {
            count += 1;
        }
        count
    }

    /// All living coordinates as `(row, col)` pairs, in row-major order.
    pub fn living_cells(&self) -> (r: Vec<(usize, usize)>)
        requires
            self.wf(),
        ensures
            r@ == living_upto(self.width as int, self.cells@, self.cells@.len() as int),
    {
        let mut living: Vec<(usize, usize)> = Vec::new();
        if self.width == 0 {
            assert(self.cells@.len() == 0) by {
                assert(self.height * self.width == 0) by (nonlinear_arith)
                    requires self.width == 0;
            }
            return living;
        }
        let mut row: usize = 0;
        while row < self.height
            invariant
                self.wf(),
                self.width > 0,
                row <= self.height,
                living@ == living_upto(self.width as int, self.cells@, row as int * self.width),
            decreases self.height - row,
        {
            let mut col: usize = 0;
            while col < self.width
                invariant
                    self.wf(),
                    self.width > 0,
                    row < self.height,
                    col <= self.width,
                    living@ == living_upto(
                        self.width as int,
                        self.cells@,
                        row as int * self.width + col as int,
                    ),
                decreases self.width - col,
            {
                proof {
                    lemma_row_major(
                        self.width as int,
                        self.height as int,
                        row as int,
                        col as int,
                    );
                    lemma_div_mod_of_row_major(self.width as int, row as int, col as int);
                }
                let idx = self.index(row, col);
                if self.cells[idx] {
                    living.push((row, col));
                }
                col += 1;
            }
            proof {
                assert(row as int * self.width + self.width == (row as int + 1) * self.width)
                    by (nonlinear_arith);
            }
            row += 1;
        }
        proof {
            assert(self.height * self.width == self.height as int * self.width) by (nonlinear_arith);
        }
        living
    }

    /// The number of living cells.
    pub fn living_count(&self) -> (r: usize)
        ensures
            r == count_true_upto(self.cells@, self.cells@.len() as int),
    {
        let mut count: usize = 0;
        let mut i: usize = 0;
        let n = self.cells.len();
        while i < n
            invariant
                i <= n,
                n == self.cells@.len(),
                count == count_true_upto(self.cells@, i as int),
                count <= i,
            decreases n - i,
        {
            if self.cells[i] {
                count += 1;
            }
            i += 1;
        }
        count
    }

    /// Whether no cell is alive.
    pub fn is_empty(&self) -> (r: bool)
        ensures
            r == forall|i: int| 0 <= i < self.cells@.len() ==> !self.cells@[i],
    {
        let mut i: usize = 0;
        let n = self.cells.len();
        while i < n
            invariant
                i <= n,
                n == self.cells@.len(),
                forall|j: int| 0 <= j < i ==> !self.cells@[j],
            decreases n - i,
        {
            if self.cells[i] {
                return false;
            }
            i += 1;
        }
        true
    }

    /// The same cells under another boundary discipline.
    pub fn with_boundary_condition(&self, boundary_condition: BoundaryCondition) -> (r: Grid)
        ensures
            r.width == self.width,
            r.height == self.height,
            r.cells@ == self.cells@,
            r.boundary_condition == boundary_condition,
    {
        Grid {
            width: self.width,
            height: self.height,
            cells: self.cells.clone(),
            boundary_condition,
        }
    }

    /// An identical copy of the grid, with its cell sequence pinned down.
    pub fn duplicate(&self) -> (r: Grid)
        ensures
            r.width == self.width,
            r.height == self.height,
            r.boundary_condition == self.boundary_condition,
            r.cells@ == self.cells@,
    {
        let cells = self.cells.clone();
        proof {
            assert forall|i: int| 0 <= i < self.cells@.len() implies cells@[i] == self.cells@[i] by {
                assert(vstd::pervasive::cloned(self.cells@[i], cells@[i]));
            }
            assert(cells@ =~= self.cells@);
        }
        Grid {
            width: self.width,
            height: self.height,
            cells,
            boundary_condition: self.boundary_condition,
        }
    }

    /// Whether two grids hold the same extent and the same cells, whatever
    /// their boundary disciplines.
    pub fn same_cells(&self, other: &Grid) -> (r: bool)
        ensures
            r == (self.width == other.width && self.height == other.height && self.cells@
                == other.cells@),
    {
        if self.width != other.width || self.height != other.height {
            return false;
        }
        if self.cells.len() != other.cells.len() {
            return false;
        }
        let n = self.cells.len();
        let mut i: usize = 0;
        while i < n
            invariant
                i <= n,
                n == self.cells@.len(),
                n == other.cells@.len(),
                forall|j: int| 0 <= j < i ==> self.cells@[j] == other.cells@[j],
            decreases n - i,
        {
            if self.cells[i] != other.cells[i] {
                return false;
            }
            i += 1;
        }
        proof {
            assert(self.cells@ =~= other.cells@);
        }
        true
    }
}

/// For a coordinate at most one dimension outside `[0, d)`, shifting by `d`
/// agrees with the mathematical modulus.
pub proof fn lemma_shift_is_mod_pub(c: int, d: int)
    requires
        d > 0,
        -d <= c < 2 * d,
    ensures
        (if c < 0 {
            c + d
        } else if c >= d {
            c - d
        } else {
            c
        }) == c % d,
        0 <= c % d < d,
{
    assert((if c < 0 {
        c + d
    } else if c >= d {
        c - d
    } else {
        c
    }) == c % d) by (nonlinear_arith)
        requires d > 0, -d <= c < 2 * d;
    assert(0 <= c % d < d) by (nonlinear_arith)
        requires d > 0;
}

/// Row and column recovered from a row-major index.
pub proof fn lemma_div_mod_of_row_major(w: int, row: int, col: int)
    requires
        w > 0,
        0 <= row,
        0 <= col < w,
    ensures
        (row * w + col) / w == row,
        (row * w + col) % w == col,
{
    assert((row * w + col) / w == row && (row * w + col) % w == col) by (nonlinear_arith)
        requires w > 0, 0 <= row, 0 <= col < w;
}

} // verus!
