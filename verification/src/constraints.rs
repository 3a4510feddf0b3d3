//! CNF generation for the reverse Game of Life problem: target pinning,
//! transition families, and optional symmetry breaking.

use vstd::prelude::*;
use crate::clauses::{Clause, clause_seq, clauses_ok, lits_ok};
use vstd::arithmetic::power2::pow2;
use crate::encoding::cell_family;
use crate::errors::EngineError;
use crate::grid::{Grid, mirror_coord, lemma_row_major};
use crate::settings::BoundaryCondition;
use crate::variables::VariableManager;

verus! {

/// One manager extends another: same extent, and every assigned
/// identifier is kept.
pub open spec fn vm_extends(m1: VariableManager, m2: VariableManager) -> bool {
    &&& m2.width == m1.width
    &&& m2.height == m1.height
    &&& m2.time_steps == m1.time_steps
    &&& forall|k: u64|
        #![trigger m1.id_map().contains_key(k)]
        #![trigger m2.id_map().contains_key(k)]
        m1.id_map().contains_key(k) ==> m2.id_map().contains_key(k) && m2.id_map()[k]
            == m1.id_map()[k]
}

/// The offsets of the Moore neighborhood, in emission order.
pub open spec fn offset_dx(k: int) -> int {
    if k == 0 || k == 3 || k == 5 {
        -1
    } else if k == 1 || k == 6 {
        0
    } else {
        1
    }
}

pub open spec fn offset_dy(k: int) -> int {
    if k < 3 {
        -1
    } else if k < 5 {
        0
    } else {
        1
    }
}

/// Where one Moore offset lands under the boundary rule: `None` when the
/// neighborhood is cut off there (dead boundary, or a reflection that
/// leaves the grid).
pub open spec fn mapped_offset(w: int, h: int, b: BoundaryCondition, nx: int, ny: int) -> Option<
    (int, int),
> {
    match b {
        BoundaryCondition::Dead => {
            if 0 <= nx < w && 0 <= ny < h {
                Some((nx, ny))
            } else {
                None
            }
        }
        BoundaryCondition::Wrap => Some((nx % w, ny % h)),
        BoundaryCondition::Mirror => {
            let mx = mirror_coord(nx, w);
            let my = mirror_coord(ny, h);
            if 0 <= mx < w && 0 <= my < h {
                Some((mx, my))
            } else {
                None
            }
        }
    }
}

pub open spec fn opt_seq(o: Option<(int, int)>) -> Seq<(int, int)> {
    match o {
        Some(c) => seq![c],
        None => Seq::empty(),
    }
}

/// The boundary-mapped neighbor coordinates of the first `k` Moore
/// offsets, with multiplicity.
pub open spec fn raw_neighbors_upto(
    w: int,
    h: int,
    b: BoundaryCondition,
    x: int,
    y: int,
    k: int,
) -> Seq<(int, int)>
    decreases k,
{
    if k <= 0 {
        Seq::empty()
    } else {
        raw_neighbors_upto(w, h, b, x, y, k - 1) + opt_seq(
            mapped_offset(w, h, b, x + offset_dx(k - 1), y + offset_dy(k - 1)),
        )
    }
}

/// The boundary-mapped neighbor cells of `(x, y)`, one per Moore offset
/// the boundary keeps, in visit order. On small wrapped or mirrored
/// grids several offsets can land on the same cell; the duplicates are
/// kept, so the count below matches the simulator's per-offset sum.
pub open spec fn neighbor_coords(w: int, h: int, b: BoundaryCondition, x: int, y: int) -> Seq<
    (int, int),
> {
    raw_neighbors_upto(w, h, b, x, y, 8)
}

/// Each returned identifier is the one the manager assigned to the
/// corresponding coordinate of `cs` in layer `t`, and is positive.
pub open spec fn ids_for_coords(
    m: VariableManager,
    cs: Seq<(int, int)>,
    ids: Seq<i32>,
    t: int,
) -> bool
    decreases cs.len(),
{
    ids.len() == cs.len() && (cs.len() == 0 || {
        let j = cs.len() - 1;
        &&& ids_for_coords(m, cs.drop_last(), ids.drop_last(), t)
        &&& m.id_map().contains_key(m.key_at(cs[j].0, cs[j].1, t))
        &&& ids[j] == m.id_map()[m.key_at(cs[j].0, cs[j].1, t)]
        &&& ids[j] > 0
    })
}

/// A coordinate-identifier record survives growth of the manager.
pub proof fn lemma_ids_for_coords_extend(
    m1: VariableManager,
    m2: VariableManager,
    cs: Seq<(int, int)>,
    ids: Seq<i32>,
    t: int,
)
    requires
        ids_for_coords(m1, cs, ids, t),
        vm_extends(m1, m2),
    ensures
        ids_for_coords(m2, cs, ids, t),
    decreases cs.len(),
{
    if cs.len() > 0 {
        lemma_ids_for_coords_extend(m1, m2, cs.drop_last(), ids.drop_last(), t);
    }
}

/// Reads one entry of a coordinate-identifier record.
pub proof fn lemma_ids_for_coords_at(
    m: VariableManager,
    cs: Seq<(int, int)>,
    ids: Seq<i32>,
    t: int,
    j: int,
)
    requires
        ids_for_coords(m, cs, ids, t),
        0 <= j < cs.len(),
    ensures
        ids.len() == cs.len(),
        m.id_map().contains_key(m.key_at(cs[j].0, cs[j].1, t)),
        ids[j] == m.id_map()[m.key_at(cs[j].0, cs[j].1, t)],
        ids[j] > 0,
    decreases cs.len(),
{
    if j < cs.len() - 1 {
        lemma_ids_for_coords_at(m, cs.drop_last(), ids.drop_last(), t, j);
        assert(cs.drop_last()[j] == cs[j]);
        assert(ids.drop_last()[j] == ids[j]);
    }
}

/// A single identifier request leaves every other entry alone and
/// records the requested one.
pub proof fn lemma_vm_step(
    m1: VariableManager,
    m2: VariableManager,
    x: int,
    y: int,
    t: int,
    id: i32,
)
    requires
        m2.width == m1.width,
        m2.height == m1.height,
        m2.time_steps == m1.time_steps,
        m2.id_map().contains_key(m1.key_at(x, y, t)),
        m2.id_map()[m1.key_at(x, y, t)] == id,
        m1.id_map().contains_key(m1.key_at(x, y, t)) ==> m2 == m1,
        !m1.id_map().contains_key(m1.key_at(x, y, t)) ==> m2.id_map() == m1.id_map().insert(
            m1.key_at(x, y, t),
            id,
        ),
    ensures
        vm_extends(m1, m2),
{
}

/// Extension of variable managers is transitive.
pub proof fn lemma_vm_extends_trans(a: VariableManager, b: VariableManager, c: VariableManager)
    requires
        vm_extends(a, b),
        vm_extends(b, c),
    ensures
        vm_extends(a, c),
{
    assert forall|k: u64|
        a.id_map().contains_key(k) implies #[trigger] c.id_map().contains_key(k) && c.id_map()[k]
        == a.id_map()[k] by {
        assert(b.id_map().contains_key(k) && b.id_map()[k] == a.id_map()[k]);
        assert(c.id_map().contains_key(k) && c.id_map()[k] == b.id_map()[k]);
    }
}

/// At most eight mapped neighbor coordinates arise.
pub proof fn lemma_raw_len_le(w: int, h: int, b: BoundaryCondition, x: int, y: int, k: int)
    requires
        0 <= k,
    ensures
        raw_neighbors_upto(w, h, b, x, y, k).len() <= k,
    decreases k,
{
    if k > 0 {
        lemma_raw_len_le(w, h, b, x, y, k - 1);
    }
}

/// The identifiers of a coordinate-identifier record are positive.
pub proof fn lemma_ids_positive(
    m: VariableManager,
    cs: Seq<(int, int)>,
    ids: Seq<i32>,
    t: int,
)
    requires
        ids_for_coords(m, cs, ids, t),
    ensures
        ids.len() == cs.len(),
        forall|j: int| 0 <= j < ids.len() ==> #[trigger] ids[j] > 0,
    decreases cs.len(),
{
    if cs.len() > 0 {
        lemma_ids_positive(m, cs.drop_last(), ids.drop_last(), t);
        assert forall|j: int| 0 <= j < ids.len() implies #[trigger] ids[j] > 0 by {
            if j < ids.len() - 1 {
                assert(ids.drop_last()[j] == ids[j]);
            }
        }
    }
}

/// How strongly a time layer is constrained by symmetry breaking.
#[derive(Debug, Clone, Copy, PartialEq, Eq, Structural)]
enum ConstraintStrength {
    Full,
    Medium,
    Light,
}

/// The symmetry classes the generator can break.
#[derive(Debug, Clone, Copy, PartialEq, Eq, Structural)]
enum SymmetryType {
    Lexicographic,
    Rotational,
    Reflectional,
    Translational,
}

/// Extent and variable usage of a generator.
#[derive(Debug, Clone)]
pub struct ConstraintStatistics {
    pub width: usize,
    pub height: usize,
    pub time_steps: usize,
    pub total_variables: usize,
}

/// The grid alone fits in the identifier space whenever the whole
/// space-time extent does.
pub proof fn lemma_extent_fits(w: int, h: int, ts: int)
    requires
        w * h * ts < 0x7fff_ffff,
        ts >= 1,
        w >= 0,
        h >= 0,
    ensures
        w * h < 0x7fff_ffff,
{
    assert(w * h < 0x7fff_ffff) by (nonlinear_arith)
        requires w * h * ts < 0x7fff_ffff, ts >= 1, w >= 0, h >= 0;
}

/// The manager holds exactly the cells with key below `g`, each mapped
/// to one more than its key, and hands out `g + 1` next.
spec fn preassigned_upto(m: VariableManager, g: int) -> bool {
    &&& m.next_id as int == g + 1
    &&& forall|k: u64|
        #![trigger m.id_map().contains_key(k)]
        #![trigger m.id_map()[k]]
        m.id_map().contains_key(k) <==> (k as int) < g
    &&& forall|k: u64|
        #![trigger m.id_map()[k]]
        #![trigger m.id_map().contains_key(k)]
        m.id_map().contains_key(k) ==> m.id_map()[k] as int == k as int + 1
}

/// One fresh assignment extends a dense prefix by one key.
proof fn lemma_preassigned_step(m1: VariableManager, m2: VariableManager, g: int, id: i32)
    requires
        preassigned_upto(m1, g),
        0 <= g,
        g + 1 < 0x8000_0000,
        id as int == g + 1,
        m2.id_map() == m1.id_map().insert(g as u64, id),
        m2.next_id as int == m1.next_id as int + 1,
    ensures
        preassigned_upto(m2, g + 1),
{
    assert forall|k: u64|
        m2.id_map().contains_key(k) <==> (k as int) < g + 1 by {
        if k != g as u64 {
            assert(m2.id_map().contains_key(k) == m1.id_map().contains_key(k));
        }
    }
    assert forall|k: u64|
        m2.id_map().contains_key(k) implies #[trigger] m2.id_map()[k] as int == k as int + 1 by {
        if k != g as u64 {
            assert(m1.id_map().contains_key(k));
            assert(m2.id_map()[k] == m1.id_map()[k]);
        }
    }
}

/// Every space-time cell of the extent has been assigned the dense
/// identifier `1 + (t*h + y)*w + x`: one more than its cell key. A
/// generator that starts from an empty manager assigns exactly these, so
/// its output is a function of its inputs alone.
pub open spec fn dense_ids(m: VariableManager) -> bool {
    forall|x: int, y: int, t: int|
        #![trigger m.key_at(x, y, t)]
        m.in_range(x, y, t) ==> m.id_map().contains_key(m.key_at(x, y, t)) && m.id_map()[m.key_at(
            x,
            y,
            t,
        )] as int == crate::variables::cell_key(
            m.width as int,
            m.height as int,
            x,
            y,
            t,
        ) + 1
}

/// Dense assignment survives growth of the manager.
pub proof fn lemma_dense_ids_stable(m1: VariableManager, m2: VariableManager)
    requires
        dense_ids(m1),
        vm_extends(m1, m2),
    ensures
        dense_ids(m2),
{
    assert forall|x: int, y: int, t: int|
        m2.in_range(x, y, t) implies m2.id_map().contains_key(#[trigger] m2.key_at(x, y, t))
        && m2.id_map()[m2.key_at(x, y, t)] as int == crate::variables::cell_key(
        m2.width as int,
        m2.height as int,
        x,
        y,
        t,
    ) + 1 by {
        assert(m1.in_range(x, y, t));
        assert(m1.id_map().contains_key(m1.key_at(x, y, t)));
        assert(m2.key_at(x, y, t) == m1.key_at(x, y, t));
    }
}

/// One unit clause per processed cell, pinning that cell's variable of
/// layer `t` to the target value.
pub open spec fn pinned_ok(m: VariableManager, cells: Seq<bool>, cs: Seq<Clause>, t: int) -> bool
    decreases cs.len(),
{
    cs.len() <= cells.len() && (cs.len() == 0 || {
        let i = cs.len() - 1;
        &&& pinned_ok(m, cells, cs.drop_last(), t)
        &&& m.id_map().contains_key(m.key_at(i % (m.width as int), i / (m.width as int), t))
        &&& cs[i].literals@ == (if cells[i] {
            seq![m.id_map()[m.key_at(i % (m.width as int), i / (m.width as int), t)]]
        } else {
            seq![(0 - m.id_map()[m.key_at(i % (m.width as int), i / (m.width as int), t)] as int) as i32]
        })
    })
}

/// A pinning record survives growth of the manager.
pub proof fn lemma_pinned_ok_extend(
    m1: VariableManager,
    m2: VariableManager,
    cells: Seq<bool>,
    cs: Seq<Clause>,
    t: int,
)
    requires
        pinned_ok(m1, cells, cs, t),
        vm_extends(m1, m2),
    ensures
        pinned_ok(m2, cells, cs, t),
    decreases cs.len(),
{
    if cs.len() > 0 {
        lemma_pinned_ok_extend(m1, m2, cells, cs.drop_last(), t);
    }
}

/// Every clause is a dominance implication: exactly two usable literals.
pub open spec fn dominance_clauses_ok(cs: Seq<Clause>) -> bool {
    forall|i: int|
        0 <= i < cs.len() ==> (#[trigger] cs[i].literals@.len() == 2 && lits_ok(cs[i].literals@))
}

/// Dominance clauses are in particular well-formed clauses.
pub proof fn lemma_dominance_ok(cs: Seq<Clause>)
    requires
        dominance_clauses_ok(cs),
    ensures
        clauses_ok(cs),
{
    assert forall|i: int|
        0 <= i < cs.len() implies (#[trigger] cs[i].literals@.len() > 0 && lits_ok(
        cs[i].literals@,
    )) by {
        assert(cs[i].literals@.len() == 2 && lits_ok(cs[i].literals@));
    }
}

/// Dominance shape is preserved by concatenation.
pub proof fn lemma_dominance_concat(a: Seq<Clause>, b: Seq<Clause>)
    requires
        dominance_clauses_ok(a),
        dominance_clauses_ok(b),
    ensures
        dominance_clauses_ok(a + b),
{
    assert forall|i: int|
        0 <= i < (a + b).len() implies (#[trigger] (a + b)[i].literals@.len() == 2 && lits_ok(
        (a + b)[i].literals@,
    )) by {
        if i < a.len() {
            assert((a + b)[i] == a[i]);
        } else {
            assert((a + b)[i] == b[i - a.len()]);
        }
    }
}

/// Well-formedness of clause lists is preserved by concatenation.
pub proof fn lemma_clauses_ok_concat(a: Seq<Clause>, b: Seq<Clause>)
    requires
        clauses_ok(a),
        clauses_ok(b),
    ensures
        clauses_ok(a + b),
{
    assert forall|i: int|
        0 <= i < (a + b).len() implies (#[trigger] (a + b)[i].literals@.len() > 0 && lits_ok(
        (a + b)[i].literals@,
    )) by {
        if i < a.len() {
            assert((a + b)[i] == a[i]);
        } else {
            assert((a + b)[i] == b[i - a.len()]);
        }
    }
}

/// Generates the CNF of the reverse problem over a variable manager.
pub struct ConstraintGenerator {
    pub variable_manager: VariableManager,
    pub width: usize,
    pub height: usize,
    pub time_steps: usize,
    pub boundary_condition: BoundaryCondition,
    pub symmetry_breaking: bool,
}

impl ConstraintGenerator {
    /// The manager agrees with the generator's extent.
    pub open spec fn wf(&self) -> bool {
        &&& self.variable_manager.wf()
        &&& self.variable_manager.width == self.width
        &&& self.variable_manager.height == self.height
        &&& self.variable_manager.time_steps == self.time_steps
    }

    /// A generator for a `width x height` grid over `time_steps` layers.
    /// The space-time extent must fit in the positive `i32` identifier
    /// space of the DIMACS format.
    pub fn new(
        width: usize,
        height: usize,
        time_steps: usize,
        boundary_condition: BoundaryCondition,
        symmetry_breaking: bool,
    ) -> (r: ConstraintGenerator)
        requires
            (width as int) * (height as int) * (time_steps as int) < 0x7fff_ffff,
        ensures
            r.wf(),
            r.width == width,
            r.height == height,
            r.time_steps == time_steps,
            r.boundary_condition == boundary_condition,
            r.symmetry_breaking == symmetry_breaking,
            r.variable_manager.next_id == 1,
            r.variable_manager.id_map() == Map::<u64, i32>::empty(),
    {
        let variable_manager = VariableManager::new(width, height, time_steps, false);
        ConstraintGenerator {
            variable_manager,
            width,
            height,
            time_steps,
            boundary_condition,
            symmetry_breaking,
        }
    }

    /// The boundary image of one raw neighbor coordinate, or `None` where
    /// the boundary rule drops it.
    fn map_offset(&self, nx: i128, ny: i128) -> (r: Option<(usize, usize)>)
        requires
            self.width > 0,
            self.height > 0,
            -1 <= nx <= self.width,
            -1 <= ny <= self.height,
        ensures
            match mapped_offset(
                self.width as int,
                self.height as int,
                self.boundary_condition,
                nx as int,
                ny as int,
            ) {
                Some(c) => r matches Some(rc) && rc.0 == c.0 && rc.1 == c.1,
                None => r is None,
            },
    {
        let w = self.width as i128;
        let h = self.height as i128;
        match self.boundary_condition {
            BoundaryCondition::Dead => {
                if 0 <= nx && nx < w && 0 <= ny && ny < h {
                    Some((nx as usize, ny as usize))
                } else {
                    None
                }
            }
            BoundaryCondition::Wrap => {
                let wx = if nx < 0 {
                    nx + w
                } else if nx >= w {
                    nx - w
                } else {
                    nx
                };
                let wy = if ny < 0 {
                    ny + h
                } else if ny >= h {
                    ny - h
                } else {
                    ny
                };
                proof {
                    crate::grid::lemma_shift_is_mod_pub(nx as int, w as int);
                    crate::grid::lemma_shift_is_mod_pub(ny as int, h as int);
                }
                Some((wx as usize, wy as usize))
            }
            BoundaryCondition::Mirror => {
                let mx = if nx < 0 {
                    -nx - 1
                } else if nx >= w {
                    w - 1 - (nx - w)
                } else {
                    nx
                };
                let my = if ny < 0 {
                    -ny - 1
                } else if ny >= h {
                    h - 1 - (ny - h)
                } else {
                    ny
                };
                if 0 <= mx && mx < w && 0 <= my && my < h {
                    Some((mx as usize, my as usize))
                } else {
                    None
                }
            }
        }
    }

    /// The identifier of one boundary-mapped neighbor, or `None` where
    /// the boundary rule drops the offset.
    fn get_neighbor_variable_with_boundary(&mut self, x: i128, y: i128, t: usize) -> (r: Result<
        Option<i32>,
        EngineError,
    >)
        requires
            old(self).wf(),
            old(self).width > 0,
            old(self).height > 0,
            -1 <= x <= old(self).width,
            -1 <= y <= old(self).height,
            t < old(self).time_steps,
        ensures
            final(self).wf(),
            final(self).width == old(self).width,
            final(self).height == old(self).height,
            final(self).time_steps == old(self).time_steps,
            final(self).boundary_condition == old(self).boundary_condition,
            final(self).symmetry_breaking == old(self).symmetry_breaking,
            vm_extends(old(self).variable_manager, final(self).variable_manager),
            r is Ok,
            r matches Ok(opt) ==> match mapped_offset(
                old(self).width as int,
                old(self).height as int,
                old(self).boundary_condition,
                x as int,
                y as int,
            ) {
                Some(c) => opt matches Some(id) && id > 0 && final(self)
                    .variable_manager.id_map().contains_key(
                    old(self).variable_manager.key_at(c.0, c.1, t as int),
                ) && id == final(self).variable_manager.id_map()[old(self)
                    .variable_manager.key_at(c.0, c.1, t as int)],
                None => opt is None,
            },
    {
        let mapped = self.map_offset(x, y);
        match mapped {
            None => Ok(None),
            Some((cx, cy)) => {
                let ghost prev = self.variable_manager;
                let id = match self.variable_manager.cell_variable(cx, cy, t) {
                    Ok(id) => id,
                    Err(e) => {
                        // The mapped coordinate is always inside the extent.
                        proof {
                            assert(false);
                        }
                        return Err(e);
                    }
                };
                proof {
                    assert forall|k: u64|
                        prev.id_map().contains_key(k) implies #[trigger] self
                        .variable_manager.id_map().contains_key(k)
                        && self.variable_manager.id_map()[k] == prev.id_map()[k] by {
                        if !prev.id_map().contains_key(
                            prev.key_at(cx as int, cy as int, t as int),
                        ) {
                            assert(self.variable_manager.id_map() == prev.id_map().insert(
                                prev.key_at(cx as int, cy as int, t as int),
                                id,
                            ));
                        }
                    }
                }
                Ok(Some(id))
            }
        }
    }

    /// The identifiers of the boundary-mapped neighbors of `(x, y)` in
    /// layer `t`, one per Moore offset the boundary keeps, in visit
    /// order and with multiplicity.
    #[verifier::rlimit(60)]
    fn get_neighbor_variables(&mut self, x: usize, y: usize, t: usize) -> (r: Result<
        Vec<i32>,
        EngineError,
    >)
        requires
            old(self).wf(),
            x < old(self).width,
            y < old(self).height,
            t < old(self).time_steps,
        ensures
            final(self).wf(),
            final(self).width == old(self).width,
            final(self).height == old(self).height,
            final(self).time_steps == old(self).time_steps,
            final(self).boundary_condition == old(self).boundary_condition,
            final(self).symmetry_breaking == old(self).symmetry_breaking,
            vm_extends(old(self).variable_manager, final(self).variable_manager),
            r is Ok,
            r matches Ok(v) ==> ids_for_coords(
                final(self).variable_manager,
                neighbor_coords(
                    old(self).width as int,
                    old(self).height as int,
                    old(self).boundary_condition,
                    x as int,
                    y as int,
                ),
                v@,
                t as int,
            ),
    {
        let w = self.width;
        let h = self.height;
        let ghost w_int = w as int;
        let ghost h_int = h as int;
        let ghost b = self.boundary_condition;
        let ghost x_int = x as int;
        let ghost y_int = y as int;
        let mut coords: Vec<(usize, usize)> = Vec::new();
        let mut ids: Vec<i32> = Vec::new();
        let mut k: usize = 0;
        while k < 8
            invariant
                k <= 8,
                self.wf(),
                w == self.width,
                h == self.height,
                w_int == w as int,
                h_int == h as int,
                x_int == x as int,
                y_int == y as int,
                x < w,
                y < h,
                t < self.time_steps,
                b == self.boundary_condition,
                self.width == old(self).width,
                self.height == old(self).height,
                self.time_steps == old(self).time_steps,
                self.boundary_condition == old(self).boundary_condition,
                self.symmetry_breaking == old(self).symmetry_breaking,
                vm_extends(old(self).variable_manager, self.variable_manager),
                coords@.len() == ids@.len(),
                coords@.map_values(|p: (usize, usize)| (p.0 as int, p.1 as int))
                    == raw_neighbors_upto(w_int, h_int, b, x_int, y_int, k as int),
                ids_for_coords(
                    self.variable_manager,
                    coords@.map_values(|p: (usize, usize)| (p.0 as int, p.1 as int)),
                    ids@,
                    t as int,
                ),
            decreases 8 - k,
        {
            let (dx, dy): (i128, i128) = match k {
                0 => (-1, -1),
                1 => (0, -1),
                2 => (1, -1),
                3 => (-1, 0),
                4 => (1, 0),
                5 => (-1, 1),
                6 => (0, 1),
                _ => (1, 1),
            };
            proof {
                assert(dx as int == offset_dx(k as int));
                assert(dy as int == offset_dy(k as int));
            }
            let nx = x as i128 + dx;
            let ny = y as i128 + dy;
            let ghost prev_vm = self.variable_manager;
            let ghost prev_coords = coords@;
            let ghost prev_ids = ids@;
            let mapped = self.map_offset(nx, ny);
            match mapped {
                None => {
                    proof {
                        assert(raw_neighbors_upto(w_int, h_int, b, x_int, y_int, k as int + 1)
                            =~= raw_neighbors_upto(w_int, h_int, b, x_int, y_int, k as int));
                    }
                }
                Some((cx, cy)) => {
                    let ghost c = (cx as int, cy as int);
                    proof {
                        assert(raw_neighbors_upto(w_int, h_int, b, x_int, y_int, k as int + 1)
                            =~= raw_neighbors_upto(
                            w_int,
                            h_int,
                            b,
                            x_int,
                            y_int,
                            k as int,
                        ).push(c));
                    }
                    let id = match self.variable_manager.cell_variable(cx, cy, t) {
                        Ok(id) => id,
                        Err(e) => {
                            proof {
                                assert(false);
                            }
                            return Err(e);
                        }
                    };
                    proof {
                        assert forall|kk: u64|
                            prev_vm.id_map().contains_key(kk) implies #[trigger] self
                            .variable_manager.id_map().contains_key(kk)
                            && self.variable_manager.id_map()[kk] == prev_vm.id_map()[kk] by {
                            if !prev_vm.id_map().contains_key(
                                prev_vm.key_at(cx as int, cy as int, t as int),
                            ) {
                                assert(self.variable_manager.id_map()
                                    == prev_vm.id_map().insert(
                                    prev_vm.key_at(cx as int, cy as int, t as int),
                                    id,
                                ));
                            }
                        }
                    }
                    coords.push((cx, cy));
                    ids.push(id);
                    proof {
                        let pm = prev_coords.map_values(
                            |p: (usize, usize)| (p.0 as int, p.1 as int),
                        );
                        let nm = coords@.map_values(
                            |p: (usize, usize)| (p.0 as int, p.1 as int),
                        );
                        assert(nm =~= pm.push(c));
                        lemma_ids_for_coords_extend(
                            prev_vm,
                            self.variable_manager,
                            pm,
                            prev_ids,
                            t as int,
                        );
                        assert(nm.drop_last() =~= pm);
                        assert(ids@.drop_last() =~= prev_ids);
                        assert(nm[nm.len() - 1] == c);
                        assert(ids@[nm.len() - 1] == id);
                        assert(ids_for_coords(
                            self.variable_manager,
                            nm,
                            ids@,
                            t as int,
                        ));
                    }
                }
            }
            k += 1;
        }
        Ok(ids)
    }

    /// Emits the transition family of one cell: for every subset of the
    /// neighbor list and each polarity of the cell variable, the clause
    /// that forces the successor variable onto the Game of Life rule.
    #[verifier::rlimit(60)]
    fn emit_cell_family(current_cell: i32, next_cell: i32, ns: &Vec<i32>) -> (r: Vec<Clause>)
        requires
            current_cell > 0,
            next_cell > 0,
            ns@.len() <= 8,
            forall|j: int| 0 <= j < ns@.len() ==> #[trigger] ns@[j] > 0,
        ensures
            clause_seq(r@) == cell_family(
                current_cell as int,
                next_cell as int,
                ns@.map_values(|l: i32| l as int),
            ),
            clauses_ok(r@),
    {
        let ghost ns_int = ns@.map_values(|l: i32| l as int);
        let ghost fam = cell_family(current_cell as int, next_cell as int, ns_int);
        let n = ns.len();
        proof {
            vstd::arithmetic::power2::lemma2_to64();
        }
        let mut two_n: usize = 1;
        proof {
            assert(two_n == pow2(0));
        }
        let mut i: usize = 0;
        while i < n
            invariant
                i <= n,
                n == ns@.len(),
                n <= 8,
                two_n == pow2(i as nat),
                two_n <= 256,
            decreases n - i,
        {
            proof {
                vstd::arithmetic::power2::lemma2_to64();
                if (i as nat) < 7 {
                    vstd::arithmetic::power2::lemma_pow2_strictly_increases(i as nat, 7);
                }
                vstd::arithmetic::power2::lemma_pow2_unfold((i + 1) as nat);
            }
            two_n = two_n * 2;
            i += 1;
        }
        let mut clauses: Vec<Clause> = Vec::new();
        let mut m: usize = 0;
        while m < two_n
            invariant
                m <= two_n,
                n == ns@.len(),
                n <= 8,
                two_n == pow2(n as nat),
                two_n <= 256,
                ns_int == ns@.map_values(|l: i32| l as int),
                current_cell > 0,
                next_cell > 0,
                forall|j: int| 0 <= j < ns@.len() ==> #[trigger] ns@[j] > 0,
                fam == cell_family(current_cell as int, next_cell as int, ns_int),
                clauses@.len() == 2 * m,
                clause_seq(clauses@) == fam.take(2 * m as int),
                clauses_ok(clauses@),
            decreases two_n - m,
        {
            // the subset flags encoded by this mask
            let mut flags: Vec<bool> = Vec::new();
            let mut mm: usize = m;
            let mut j: usize = 0;
            while j < n
                invariant
                    j <= n,
                    n == ns@.len(),
                    flags@.len() == j,
                    crate::encoding::flags_of(m as int, n as nat) == flags@
                        + crate::encoding::flags_of(mm as int, (n - j) as nat),
                decreases n - j,
            {
                let ghost pre = flags@;
                let bit = mm % 2 == 1;
                flags.push(bit);
                proof {
                    assert(crate::encoding::flags_of(mm as int, (n - j) as nat) == seq![bit]
                        + crate::encoding::flags_of((mm / 2) as int, (n - j - 1) as nat));
                    assert(pre + crate::encoding::flags_of(mm as int, (n - j) as nat)
                        =~= flags@ + crate::encoding::flags_of((mm / 2) as int, (n - j - 1) as nat));
                }
                mm = mm / 2;
                j += 1;
            }
            proof {
                assert(flags@ + crate::encoding::flags_of(mm as int, 0) =~= flags@);
                assert(flags@ == crate::encoding::flags_of(m as int, n as nat));
            }
            // live count of this subset
            let mut count: u8 = 0;
            let mut j2: usize = 0;
            while j2 < n
                invariant
                    j2 <= n,
                    n == ns@.len(),
                    n <= 8,
                    flags@.len() == n,
                    count <= j2,
                    count as int == crate::encoding::popcount(flags@.take(j2 as int)),
                decreases n - j2,
            {
                let ghost pre = flags@.take(j2 as int);
                if flags[j2] {
                    count += 1;
                }
                proof {
                    assert(flags@.take(j2 as int + 1).drop_last() =~= pre);
                    assert(flags@.take(j2 as int + 1).last() == flags@[j2 as int]);
                }
                j2 += 1;
            }
            proof {
                assert(flags@.take(n as int) =~= flags@);
            }
            let ghost f = flags@;
            // two clauses: cell currently alive, cell currently dead
            let mut which: usize = 0;
            while which < 2
                invariant
                    which <= 2,
                    m < two_n,
                    n == ns@.len(),
                    n <= 8,
                    two_n == pow2(n as nat),
                    two_n <= 256,
                    ns_int == ns@.map_values(|l: i32| l as int),
                    current_cell > 0,
                    next_cell > 0,
                    forall|j: int| 0 <= j < ns@.len() ==> #[trigger] ns@[j] > 0,
                    fam == cell_family(current_cell as int, next_cell as int, ns_int),
                    f == flags@,
                    f == crate::encoding::flags_of(m as int, n as nat),
                    flags@.len() == n,
                    count as int == crate::encoding::popcount(f),
                    count <= 8,
                    clauses@.len() == 2 * m + which,
                    clause_seq(clauses@) == fam.take(2 * m as int + which as int),
                    clauses_ok(clauses@),
                decreases 2 - which,
            {
                let cur = which == 0;
                let mut lits: Vec<i32> = Vec::new();
                lits.push(if cur { -current_cell } else { current_cell });
                let alive_next = crate::rules::GameOfLifeRules::should_be_alive(cur, count);
                lits.push(if alive_next { next_cell } else { -next_cell });
                let ghost cl = crate::encoding::cell_clause(
                    current_cell as int,
                    next_cell as int,
                    cur,
                    ns_int,
                    f,
                );
                proof {
                    assert(lits@.map_values(|l: i32| l as int) =~= cl.take(2));
                }
                let mut j3: usize = 0;
                while j3 < n
                    invariant
                        j3 <= n,
                        n == ns@.len(),
                        ns_int == ns@.map_values(|l: i32| l as int),
                        forall|j: int| 0 <= j < ns@.len() ==> #[trigger] ns@[j] > 0,
                        f == flags@,
                        flags@.len() == n,
                        cl == crate::encoding::cell_clause(
                            current_cell as int,
                            next_cell as int,
                            cur,
                            ns_int,
                            f,
                        ),
                        cl.len() == 2 + n,
                        current_cell > 0,
                        next_cell > 0,
                        lits@.len() == 2 + j3,
                        lits@.map_values(|l: i32| l as int) == cl.take(2 + j3 as int),
                        lits_ok(lits@),
                    decreases n - j3,
                {
                    let ghost pre = lits@;
                    let lit = if flags[j3] {
                        -ns[j3]
                    } else {
                        ns[j3]
                    };
                    lits.push(lit);
                    proof {
                        assert(cl[2 + j3 as int] == (if f[j3 as int] {
                            -ns_int[j3 as int]
                        } else {
                            ns_int[j3 as int]
                        }));
                        assert(ns_int[j3 as int] == ns@[j3 as int] as int);
                        assert(lits@.map_values(|l: i32| l as int) =~= cl.take(2 + j3 as int + 1));
                    }
                    j3 += 1;
                }
                proof {
                    assert(cl.take(2 + n as int) =~= cl);
                }
                let ghost prev_clauses = clauses@;
                clauses.push(Clause { literals: lits });
                proof {
                    let idx = 2 * m as int + which as int;
                    assert((2 * m as int + which as int) % 2 == (if cur { 0int } else { 1int })
                        && (2 * m as int + which as int) / 2 == m as int) by (nonlinear_arith)
                        requires 0 <= m, which == (if cur { 0int } else { 1int });
                    assert(0 <= idx < 2 * pow2(n as nat));
                    assert(fam[idx] == cl);
                    assert(clause_seq(clauses@) =~= clause_seq(prev_clauses).push(cl));
                    assert(fam.take(idx + 1) =~= fam.take(idx).push(cl));
                }
                which += 1;
            }
            proof {
                assert(2 * m as int + 2 == 2 * (m as int + 1));
            }
            m += 1;
        }
        proof {
            assert(fam.take(2 * two_n as int) =~= fam);
        }
        clauses
    }

    /// The transition constraints of one cell between layers `t` and
    /// `t + 1`: its transition family over the identifiers of its cell,
    /// successor and boundary-mapped neighbors.
    pub fn generate_cell_transition_constraints(&mut self, x: usize, y: usize, t: usize) -> (r:
        Result<Vec<Clause>, EngineError>)
        requires
            old(self).wf(),
            x < old(self).width,
            y < old(self).height,
            t + 1 < old(self).time_steps,
        ensures
            final(self).wf(),
            final(self).width == old(self).width,
            final(self).height == old(self).height,
            final(self).time_steps == old(self).time_steps,
            final(self).boundary_condition == old(self).boundary_condition,
            final(self).symmetry_breaking == old(self).symmetry_breaking,
            vm_extends(old(self).variable_manager, final(self).variable_manager),
            r is Ok,
            r matches Ok(v) ==> clauses_ok(v@) && (exists|ns: Seq<i32>|
                ids_for_coords(
                    final(self).variable_manager,
                    neighbor_coords(
                        old(self).width as int,
                        old(self).height as int,
                        old(self).boundary_condition,
                        x as int,
                        y as int,
                    ),
                    ns,
                    t as int,
                ) && #[trigger] clause_seq(v@) == cell_family(
                    final(self).variable_manager.id_map()[old(self).variable_manager.key_at(
                        x as int,
                        y as int,
                        t as int,
                    )] as int,
                    final(self).variable_manager.id_map()[old(self).variable_manager.key_at(
                        x as int,
                        y as int,
                        t as int + 1,
                    )] as int,
                    ns.map_values(|l: i32| l as int),
                )) && final(self).variable_manager.id_map().contains_key(
                old(self).variable_manager.key_at(x as int, y as int, t as int),
            ) && final(self).variable_manager.id_map().contains_key(
                old(self).variable_manager.key_at(x as int, y as int, t as int + 1),
            ),
    {
        let ghost vm0 = self.variable_manager;
        let current_cell = match self.variable_manager.cell_variable(x, y, t) {
            Ok(id) => id,
            Err(e) => {
                proof {
                    assert(false);
                }
                return Err(e);
            }
        };
        let ghost vm1 = self.variable_manager;
        proof {
            lemma_vm_step(vm0, vm1, x as int, y as int, t as int, current_cell);
        }
        let next_cell = match self.variable_manager.cell_variable(x, y, t + 1) {
            Ok(id) => id,
            Err(e) => {
                proof {
                    assert(false);
                }
                return Err(e);
            }
        };
        let ghost vm2 = self.variable_manager;
        proof {
            lemma_vm_step(vm1, vm2, x as int, y as int, t as int + 1, next_cell);
            lemma_vm_extends_trans(vm0, vm1, vm2);
        }
        let clauses = match self.generate_direct_transition_constraints(
            x,
            y,
            t,
            current_cell,
            next_cell,
        ) {
            Ok(v) => v,
            Err(e) => {
                proof {
                    assert(false);
                }
                return Err(e);
            }
        };
        proof {
            lemma_vm_extends_trans(vm0, vm2, self.variable_manager);
            let coords = neighbor_coords(
                vm0.width as int,
                vm0.height as int,
                old(self).boundary_condition,
                x as int,
                y as int,
            );
            let ns = choose|ns: Seq<i32>|
                ids_for_coords(self.variable_manager, coords, ns, t as int)
                    && #[trigger] clause_seq(clauses@) == cell_family(
                    current_cell as int,
                    next_cell as int,
                    ns.map_values(|l: i32| l as int),
                );
            let key1 = vm0.key_at(x as int, y as int, t as int);
            let key2 = vm0.key_at(x as int, y as int, t as int + 1);
            assert(vm1.id_map().contains_key(key1) && vm1.id_map()[key1] == current_cell);
            assert(vm2.id_map().contains_key(key1) && vm2.id_map()[key1] == current_cell);
            assert(self.variable_manager.id_map().contains_key(key1)
                && self.variable_manager.id_map()[key1] == current_cell);
            assert(vm2.id_map().contains_key(key2) && vm2.id_map()[key2] == next_cell);
            assert(self.variable_manager.id_map().contains_key(key2)
                && self.variable_manager.id_map()[key2] == next_cell);
            assert(ids_for_coords(self.variable_manager, coords, ns, t as int)
                && clause_seq(clauses@) == cell_family(
                self.variable_manager.id_map()[vm0.key_at(x as int, y as int, t as int)] as int,
                self.variable_manager.id_map()[vm0.key_at(
                    x as int,
                    y as int,
                    t as int + 1,
                )] as int,
                ns.map_values(|l: i32| l as int),
            ));
        }
        Ok(clauses)
    }

    /// The direct (subset-enumerating) transition encoding of one cell.
    pub fn generate_direct_transition_constraints(
        &mut self,
        x: usize,
        y: usize,
        t: usize,
        current_cell: i32,
        next_cell: i32,
    ) -> (r: Result<Vec<Clause>, EngineError>)
        requires
            old(self).wf(),
            x < old(self).width,
            y < old(self).height,
            t + 1 < old(self).time_steps,
            current_cell > 0,
            next_cell > 0,
            old(self).variable_manager.id_map().contains_key(
                old(self).variable_manager.key_at(x as int, y as int, t as int),
            ),
            old(self).variable_manager.id_map()[old(self).variable_manager.key_at(
                x as int,
                y as int,
                t as int,
            )] == current_cell,
            old(self).variable_manager.id_map().contains_key(
                old(self).variable_manager.key_at(x as int, y as int, t as int + 1),
            ),
            old(self).variable_manager.id_map()[old(self).variable_manager.key_at(
                x as int,
                y as int,
                t as int + 1,
            )] == next_cell,
        ensures
            final(self).wf(),
            final(self).width == old(self).width,
            final(self).height == old(self).height,
            final(self).time_steps == old(self).time_steps,
            final(self).boundary_condition == old(self).boundary_condition,
            final(self).symmetry_breaking == old(self).symmetry_breaking,
            vm_extends(old(self).variable_manager, final(self).variable_manager),
            r is Ok,
            r matches Ok(v) ==> clauses_ok(v@) && (exists|ns: Seq<i32>|
                ids_for_coords(
                    final(self).variable_manager,
                    neighbor_coords(
                        old(self).width as int,
                        old(self).height as int,
                        old(self).boundary_condition,
                        x as int,
                        y as int,
                    ),
                    ns,
                    t as int,
                ) && #[trigger] clause_seq(v@) == cell_family(
                    current_cell as int,
                    next_cell as int,
                    ns.map_values(|l: i32| l as int),
                )),
    {
        let neighbor_vars = match self.get_neighbor_variables(x, y, t) {
            Ok(v) => v,
            Err(e) => {
                proof {
                    assert(false);
                }
                return Err(e);
            }
        };
        proof {
            lemma_raw_len_le(
                old(self).width as int,
                old(self).height as int,
                old(self).boundary_condition,
                x as int,
                y as int,
                8,
            );
            lemma_ids_positive(
                final(self).variable_manager,
                neighbor_coords(
                    old(self).width as int,
                    old(self).height as int,
                    old(self).boundary_condition,
                    x as int,
                    y as int,
                ),
                neighbor_vars@,
                t as int,
            );
        }
        let clauses = Self::emit_cell_family(current_cell, next_cell, &neighbor_vars);
        Ok(clauses)
    }

    /// Assigns every space-time cell its identifier up front, visiting
    /// the layers, rows and columns in increasing order. On a manager
    /// that starts empty, the cell at `(x, y, t)` thus receives exactly
    /// `1 + (t*h + y)*w + x`, and every later request only looks its
    /// identifier up.
    fn preassign_all(&mut self) -> (r: Result<(), EngineError>)
        requires
            old(self).wf(),
        ensures
            final(self).wf(),
            final(self).width == old(self).width,
            final(self).height == old(self).height,
            final(self).time_steps == old(self).time_steps,
            final(self).boundary_condition == old(self).boundary_condition,
            final(self).symmetry_breaking == old(self).symmetry_breaking,
            vm_extends(old(self).variable_manager, final(self).variable_manager),
            r is Ok,
            old(self).variable_manager.id_map() == Map::<u64, i32>::empty() ==> dense_ids(
                final(self).variable_manager,
            ),
    {
        let w = self.width;
        let h = self.height;
        let ts = self.time_steps;
        let ghost started_empty = old(self).variable_manager.id_map() == Map::<u64, i32>::empty();
        proof {
            if started_empty {
                assert(self.variable_manager.id_map() =~= Map::<u64, i32>::empty());
                assert(self.variable_manager.id_map().len() == 0);
                assert forall|k: u64|
                    !(#[trigger] self.variable_manager.id_map().contains_key(k)) by {
                    assert(!Map::<u64, i32>::empty().contains_key(k));
                }
                assert(preassigned_upto(self.variable_manager, 0));
                assert((0int * (h as int) + 0) * (w as int) + 0 == 0) by (nonlinear_arith);
                assert(crate::variables::cell_key(w as int, h as int, 0, 0, 0) == 0);
            }
        }
        let mut t: usize = 0;
        while t < ts
            invariant
                t <= ts,
                w == self.width,
                h == self.height,
                ts == self.time_steps,
                self.wf(),
                self.width == old(self).width,
                self.height == old(self).height,
                self.time_steps == old(self).time_steps,
                self.boundary_condition == old(self).boundary_condition,
                self.symmetry_breaking == old(self).symmetry_breaking,
                vm_extends(old(self).variable_manager, self.variable_manager),
                started_empty == (old(self).variable_manager.id_map() == Map::<u64, i32>::empty()),
                started_empty ==> preassigned_upto(
                    self.variable_manager,
                    crate::variables::cell_key(w as int, h as int, 0, 0, t as int),
                ),
            decreases ts - t,
        {
            let mut y: usize = 0;
            while y < h
                invariant
                    y <= h,
                    t < ts,
                    w == self.width,
                    h == self.height,
                    ts == self.time_steps,
                    self.wf(),
                    self.width == old(self).width,
                    self.height == old(self).height,
                    self.time_steps == old(self).time_steps,
                    self.boundary_condition == old(self).boundary_condition,
                    self.symmetry_breaking == old(self).symmetry_breaking,
                    vm_extends(old(self).variable_manager, self.variable_manager),
                    started_empty == (old(self).variable_manager.id_map() == Map::<
                        u64,
                        i32,
                    >::empty()),
                    started_empty ==> preassigned_upto(
                        self.variable_manager,
                        crate::variables::cell_key(w as int, h as int, 0, y as int, t as int),
                    ),
                decreases h - y,
            {
                let mut x: usize = 0;
                while x < w
                    invariant
                        x <= w,
                        y < h,
                        t < ts,
                        w == self.width,
                        h == self.height,
                        ts == self.time_steps,
                        self.wf(),
                        self.width == old(self).width,
                        self.height == old(self).height,
                        self.time_steps == old(self).time_steps,
                        self.boundary_condition == old(self).boundary_condition,
                        self.symmetry_breaking == old(self).symmetry_breaking,
                        vm_extends(old(self).variable_manager, self.variable_manager),
                        started_empty == (old(self).variable_manager.id_map() == Map::<
                            u64,
                            i32,
                        >::empty()),
                        started_empty ==> preassigned_upto(
                            self.variable_manager,
                            crate::variables::cell_key(
                                w as int,
                                h as int,
                                x as int,
                                y as int,
                                t as int,
                            ),
                        ),
                    decreases w - x,
                {
                    let ghost prev_vm = self.variable_manager;
                    let ghost g = crate::variables::cell_key(
                        w as int,
                        h as int,
                        x as int,
                        y as int,
                        t as int,
                    );
                    proof {
                        crate::variables::lemma_cell_key_bounds(
                            w as int,
                            h as int,
                            ts as int,
                            x as int,
                            y as int,
                            t as int,
                        );
                    }
                    let id = match self.variable_manager.cell_variable(x, y, t) {
                        Ok(id) => id,
                        Err(e) => {
                            proof {
                                assert(false);
                            }
                            return Err(e);
                        }
                    };
                    proof {
                        lemma_vm_step(
                            prev_vm,
                            self.variable_manager,
                            x as int,
                            y as int,
                            t as int,
                            id,
                        );
                        lemma_vm_extends_trans(
                            old(self).variable_manager,
                            prev_vm,
                            self.variable_manager,
                        );
                        if started_empty {
                            assert(prev_vm.key_at(x as int, y as int, t as int) as int == g);
                            assert(!prev_vm.id_map().contains_key(
                                prev_vm.key_at(x as int, y as int, t as int),
                            ));
                            assert(id as int == g + 1);
                            lemma_preassigned_step(prev_vm, self.variable_manager, g, id);
                            assert(g + 1 == crate::variables::cell_key(
                                w as int,
                                h as int,
                                x as int + 1,
                                y as int,
                                t as int,
                            ));
                        }
                    }
                    x += 1;
                }
                proof {
                    if started_empty {
                        assert(((t as int) * (h as int) + y as int) * (w as int) + (w as int) == ((
                        t as int) * (h as int) + y as int + 1) * (w as int)) by (nonlinear_arith);
                        assert(crate::variables::cell_key(
                            w as int,
                            h as int,
                            w as int,
                            y as int,
                            t as int,
                        ) == crate::variables::cell_key(
                            w as int,
                            h as int,
                            0,
                            y as int + 1,
                            t as int,
                        ));
                    }
                }
                y += 1;
            }
            proof {
                if started_empty {
                    assert((t as int) * (h as int) + (h as int) == ((t as int) + 1) * (h as int))
                        by (nonlinear_arith);
                    assert(crate::variables::cell_key(
                        w as int,
                        h as int,
                        0,
                        h as int,
                        t as int,
                    ) == crate::variables::cell_key(w as int, h as int, 0, 0, t as int + 1));
                }
            }
            t += 1;
        }
        proof {
            if started_empty {
                assert forall|x: int, y2: int, t2: int|
                    self.variable_manager.in_range(x, y2, t2) implies self
                    .variable_manager.id_map().contains_key(
                    #[trigger] self.variable_manager.key_at(x, y2, t2),
                ) && self.variable_manager.id_map()[self.variable_manager.key_at(x, y2, t2)] as int
                    == crate::variables::cell_key(w as int, h as int, x, y2, t2) + 1 by {
                    crate::variables::lemma_cell_key_bounds(
                        w as int,
                        h as int,
                        ts as int,
                        x,
                        y2,
                        t2,
                    );
                    assert(crate::variables::cell_key(w as int, h as int, x, y2, t2)
                        < crate::variables::cell_key(w as int, h as int, 0, 0, ts as int))
                        by (nonlinear_arith)
                        requires
                            0 <= x < w as int,
                            0 <= y2 < h as int,
                            0 <= t2 < ts as int,
                            crate::variables::cell_key(w as int, h as int, x, y2, t2) == (t2 * (
                            h as int) + y2) * (w as int) + x,
                            crate::variables::cell_key(w as int, h as int, 0, 0, ts as int) == (
                            ts as int * (h as int) + 0) * (w as int) + 0;
                }
            }
        }
        Ok(())
    }

    /// One unit clause per cell, pinning layer `time_steps - 1` to the
    /// target grid. Fails when the target extent disagrees.
    pub fn generate_target_constraints(&mut self, target_grid: &Grid) -> (r: Result<
        Vec<Clause>,
        EngineError,
    >)
        requires
            old(self).wf(),
            old(self).time_steps >= 1,
            target_grid.wf(),
        ensures
            final(self).wf(),
            final(self).width == old(self).width,
            final(self).height == old(self).height,
            final(self).time_steps == old(self).time_steps,
            final(self).boundary_condition == old(self).boundary_condition,
            final(self).symmetry_breaking == old(self).symmetry_breaking,
            vm_extends(old(self).variable_manager, final(self).variable_manager),
            r is Ok <==> (target_grid.width == old(self).width && target_grid.height == old(
                self,
            ).height),
            r matches Err(e) ==> e == (EngineError::DimensionMismatch {
                expected_width: old(self).width,
                expected_height: old(self).height,
                actual_width: target_grid.width,
                actual_height: target_grid.height,
            }),
            r matches Ok(v) ==> {
                &&& v@.len() == old(self).width * old(self).height
                &&& clauses_ok(v@)
                &&& pinned_ok(
                    final(self).variable_manager,
                    target_grid.cells@,
                    v@,
                    old(self).time_steps as int - 1,
                )
            },
    {
        if target_grid.width != self.width || target_grid.height != self.height {
            return Err(EngineError::DimensionMismatch {
                expected_width: self.width,
                expected_height: self.height,
                actual_width: target_grid.width,
                actual_height: target_grid.height,
            });
        }
        let final_time = self.time_steps - 1;
        let w = self.width;
        let h = self.height;
        let mut clauses: Vec<Clause> = Vec::new();
        let mut y: usize = 0;
        while y < h
            invariant
                y <= h,
                w == self.width,
                h == self.height,
                self.wf(),
                self.time_steps >= 1,
                final_time == self.time_steps - 1,
                target_grid.wf(),
                target_grid.width == w,
                target_grid.height == h,
                self.width == old(self).width,
                self.height == old(self).height,
                self.time_steps == old(self).time_steps,
                self.boundary_condition == old(self).boundary_condition,
                self.symmetry_breaking == old(self).symmetry_breaking,
                vm_extends(old(self).variable_manager, self.variable_manager),
                clauses@.len() == y * w,
                clauses_ok(clauses@),
                pinned_ok(
                    self.variable_manager,
                    target_grid.cells@,
                    clauses@,
                    final_time as int,
                ),
            decreases h - y,
        {
            let mut x: usize = 0;
            while x < w
                invariant
                    x <= w,
                    y < h,
                    w == self.width,
                    h == self.height,
                    self.wf(),
                    self.time_steps >= 1,
                    final_time == self.time_steps - 1,
                    target_grid.wf(),
                    target_grid.width == w,
                    target_grid.height == h,
                    self.width == old(self).width,
                    self.height == old(self).height,
                    self.time_steps == old(self).time_steps,
                    self.boundary_condition == old(self).boundary_condition,
                    self.symmetry_breaking == old(self).symmetry_breaking,
                    vm_extends(old(self).variable_manager, self.variable_manager),
                    clauses@.len() == y * w + x,
                    clauses_ok(clauses@),
                    pinned_ok(
                        self.variable_manager,
                        target_grid.cells@,
                        clauses@,
                        final_time as int,
                    ),
                decreases w - x,
            {
                let ghost prev_vm = self.variable_manager;
                let ghost prev_clauses = clauses@;
                let cell_var = match self.variable_manager.cell_variable(x, y, final_time) {
                    Ok(id) => id,
                    Err(e) => {
                        proof {
                            assert(false);
                        }
                        return Err(e);
                    }
                };
                proof {
                    lemma_vm_step(
                        prev_vm,
                        self.variable_manager,
                        x as int,
                        y as int,
                        final_time as int,
                        cell_var,
                    );
                    lemma_vm_extends_trans(
                        old(self).variable_manager,
                        prev_vm,
                        self.variable_manager,
                    );
                    lemma_pinned_ok_extend(
                        prev_vm,
                        self.variable_manager,
                        target_grid.cells@,
                        prev_clauses,
                        final_time as int,
                    );
                    lemma_row_major(w as int, h as int, y as int, x as int);
                    crate::grid::lemma_div_mod_of_row_major(w as int, y as int, x as int);
                }
                let target_alive = target_grid.get(y, x);
                let cl = if target_alive {
                    Clause::unit(cell_var)
                } else {
                    Clause::unit(-cell_var)
                };
                clauses.push(cl);
                proof {
                    assert(clauses@.drop_last() =~= prev_clauses);
                    assert(target_grid.cells@.len() == h * w);
                    assert(y * w + x < h * w);
                    assert(pinned_ok(
                        self.variable_manager,
                        target_grid.cells@,
                        clauses@,
                        final_time as int,
                    ));
                }
                x += 1;
            }
            proof {
                assert(y * w + w == (y + 1) * w) by (nonlinear_arith);
            }
            y += 1;
        }
        proof {
            let ghost ow = old(self).width as int;
            let ghost oh = old(self).height as int;
            assert(h as int * w as int == ow * oh && (y as int) * (w as int) == oh * ow)
                by (nonlinear_arith)
                requires w as int == ow, h as int == oh, y as int == oh;
        }
        Ok(clauses)
    }

    /// The transition families of every cell between layers `t` and
    /// `t + 1`, in row-major cell order.
    pub fn generate_transition_constraints(&mut self, t: usize) -> (r: Result<
        Vec<Clause>,
        EngineError,
    >)
        requires
            old(self).wf(),
            t + 1 < old(self).time_steps,
        ensures
            final(self).wf(),
            final(self).width == old(self).width,
            final(self).height == old(self).height,
            final(self).time_steps == old(self).time_steps,
            final(self).boundary_condition == old(self).boundary_condition,
            final(self).symmetry_breaking == old(self).symmetry_breaking,
            vm_extends(old(self).variable_manager, final(self).variable_manager),
            r is Ok,
            r matches Ok(v) ==> {
                &&& clauses_ok(v@)
                &&& clause_seq(v@) == layer_families_upto(
                    final(self).variable_manager,
                    old(self).boundary_condition,
                    t as int,
                    (old(self).width as int) * (old(self).height as int),
                )
                &&& layer_keys_upto(
                    final(self).variable_manager,
                    old(self).boundary_condition,
                    t as int,
                    (old(self).width as int) * (old(self).height as int),
                )
            },
    {
        let w = self.width;
        let h = self.height;
        let ghost b = self.boundary_condition;
        let mut clauses: Vec<Clause> = Vec::new();
        let mut y: usize = 0;
        while y < h
            invariant
                y <= h,
                w == self.width,
                h == self.height,
                b == self.boundary_condition,
                self.wf(),
                t + 1 < self.time_steps,
                self.width == old(self).width,
                self.height == old(self).height,
                self.time_steps == old(self).time_steps,
                self.boundary_condition == old(self).boundary_condition,
                self.symmetry_breaking == old(self).symmetry_breaking,
                vm_extends(old(self).variable_manager, self.variable_manager),
                clauses_ok(clauses@),
                clause_seq(clauses@) == layer_families_upto(
                    self.variable_manager,
                    b,
                    t as int,
                    y as int * w,
                ),
                layer_keys_upto(self.variable_manager, b, t as int, y as int * w),
            decreases h - y,
        {
            let mut x: usize = 0;
            while x < w
                invariant
                    x <= w,
                    y < h,
                    w == self.width,
                    h == self.height,
                    b == self.boundary_condition,
                    self.wf(),
                    t + 1 < self.time_steps,
                    self.width == old(self).width,
                    self.height == old(self).height,
                    self.time_steps == old(self).time_steps,
                    self.boundary_condition == old(self).boundary_condition,
                    self.symmetry_breaking == old(self).symmetry_breaking,
                    vm_extends(old(self).variable_manager, self.variable_manager),
                    clauses_ok(clauses@),
                    clause_seq(clauses@) == layer_families_upto(
                        self.variable_manager,
                        b,
                        t as int,
                        y as int * w + x as int,
                    ),
                    layer_keys_upto(self.variable_manager, b, t as int, y as int * w + x as int),
                decreases w - x,
            {
                let ghost prev_vm = self.variable_manager;
                let mut cell = match self.generate_cell_transition_constraints(x, y, t) {
                    Ok(v) => v,
                    Err(e) => {
                        proof {
                            assert(false);
                        }
                        return Err(e);
                    }
                };
                proof {
                    lemma_vm_extends_trans(
                        old(self).variable_manager,
                        prev_vm,
                        self.variable_manager,
                    );
                    lemma_row_major(w as int, h as int, y as int, x as int);
                    crate::grid::lemma_div_mod_of_row_major(w as int, y as int, x as int);
                    let vm_now = self.variable_manager;
                    let coords = neighbor_coords(w as int, h as int, b, x as int, y as int);
                    let ns = choose|ns: Seq<i32>|
                        ids_for_coords(vm_now, coords, ns, t as int)
                            && #[trigger] clause_seq(cell@) == cell_family(
                            vm_now.id_map()[prev_vm.key_at(x as int, y as int, t as int)] as int,
                            vm_now.id_map()[prev_vm.key_at(
                                x as int,
                                y as int,
                                t as int + 1,
                            )] as int,
                            ns.map_values(|l: i32| l as int),
                        );
                    lemma_ids_for_coords_keys(vm_now, coords, ns, t as int);
                    lemma_ids_for_coords_ints(vm_now, b, x as int, y as int, ns, t as int);
                    assert(cell_keys_ok(vm_now, b, x as int, y as int, t as int));
                    assert(clause_seq(cell@) == cell_trans_family(
                        vm_now,
                        b,
                        x as int,
                        y as int,
                        t as int,
                    ));
                    lemma_layer_families_stable(
                        prev_vm,
                        vm_now,
                        b,
                        t as int,
                        y as int * w + x as int,
                    );
                }
                let ghost prev_clauses = clauses@;
                let ghost addition = cell@;
                clauses.append(&mut cell);
                proof {
                    lemma_clauses_ok_concat(prev_clauses, addition);
                    assert(clauses@ =~= prev_clauses + addition);
                    assert(clause_seq(clauses@) =~= clause_seq(prev_clauses) + clause_seq(
                        addition,
                    ));
                    let n = y as int * w + x as int + 1;
                    assert((n - 1) % (w as int) == x as int && (n - 1) / (w as int) == y as int);
                    assert(clause_seq(clauses@) == layer_families_upto(
                        self.variable_manager,
                        b,
                        t as int,
                        n,
                    ));
                }
                x += 1;
            }
            proof {
                assert(y as int * w + w == (y as int + 1) * w) by (nonlinear_arith);
            }
            y += 1;
        }
        proof {
            let ghost ow = old(self).width as int;
            let ghost oh = old(self).height as int;
            assert(y as int * (w as int) == ow * oh) by (nonlinear_arith)
                requires w as int == ow, h as int == oh, y as int == oh;
        }
        Ok(clauses)
    }

    /// The whole CNF: target pinning, one transition family per cell and
    /// layer, and, when enabled, symmetry-breaking clauses. Identifiers
    /// are assigned densely up front, so on a generator whose manager
    /// starts empty the emitted clause vector is a function of the
    /// generator's parameters and the target grid alone.
    pub fn generate_all_constraints(&mut self, target_grid: &Grid) -> (r: Result<
        Vec<Clause>,
        EngineError,
    >)
        requires
            old(self).wf(),
            old(self).time_steps >= 1,
            target_grid.wf(),
        ensures
            final(self).wf(),
            final(self).width == old(self).width,
            final(self).height == old(self).height,
            final(self).time_steps == old(self).time_steps,
            final(self).boundary_condition == old(self).boundary_condition,
            final(self).symmetry_breaking == old(self).symmetry_breaking,
            vm_extends(old(self).variable_manager, final(self).variable_manager),
            r is Ok <==> (target_grid.width == old(self).width && target_grid.height == old(
                self,
            ).height),
            r matches Err(e) ==> e == (EngineError::DimensionMismatch {
                expected_width: old(self).width,
                expected_height: old(self).height,
                actual_width: target_grid.width,
                actual_height: target_grid.height,
            }),
            r matches Ok(v) ==> {
                let prod = (old(self).width as int) * (old(self).height as int);
                &&& clauses_ok(v@)
                &&& v@.len() >= prod
                &&& pinned_ok(
                    final(self).variable_manager,
                    target_grid.cells@,
                    v@.take(prod),
                    old(self).time_steps as int - 1,
                )
                &&& !old(self).symmetry_breaking ==> clause_seq(v@.skip(prod)) == layers_upto(
                    final(self).variable_manager,
                    old(self).boundary_condition,
                    old(self).time_steps as int - 1,
                )
                &&& !old(self).symmetry_breaking ==> layers_keys_upto(
                    final(self).variable_manager,
                    old(self).boundary_condition,
                    old(self).time_steps as int - 1,
                )
                &&& old(self).variable_manager.id_map() == Map::<u64, i32>::empty() ==> dense_ids(
                    final(self).variable_manager,
                )
            },
    {
        let ghost vm_start = self.variable_manager;
        let ghost b = self.boundary_condition;
        let ghost prod = (self.width as int) * (self.height as int);
        let ghost tfin = self.time_steps as int - 1;
        let ghost started_empty = old(self).variable_manager.id_map() == Map::<u64, i32>::empty();
        if target_grid.width != self.width || target_grid.height != self.height {
            return Err(EngineError::DimensionMismatch {
                expected_width: self.width,
                expected_height: self.height,
                actual_width: target_grid.width,
                actual_height: target_grid.height,
            });
        }
        match self.preassign_all() {
            Ok(()) => {}
            Err(e) => {
                proof {
                    assert(false);
                }
                return Err(e);
            }
        }
        let ghost vm_dense = self.variable_manager;
        let mut clauses = match self.generate_target_constraints(target_grid) {
            Ok(v) => v,
            Err(e) => {
                proof {
                    assert(false);
                }
                return Err(e);
            }
        };
        proof {
            if started_empty {
                lemma_dense_ids_stable(vm_dense, self.variable_manager);
            }
        }
        proof {
            assert(clauses@.take(prod) =~= clauses@);
            assert(clauses@.skip(prod) =~= Seq::<Clause>::empty());
            assert(clause_seq(clauses@.skip(prod)) =~= Seq::<Seq<int>>::empty());
        }
        let mut t: usize = 0;
        while t + 1 < self.time_steps
            invariant
                t < self.time_steps,
                self.wf(),
                self.time_steps >= 1,
                b == self.boundary_condition,
                prod == (self.width as int) * (self.height as int),
                tfin == self.time_steps as int - 1,
                target_grid.wf(),
                target_grid.width == self.width,
                target_grid.height == self.height,
                self.width == old(self).width,
                self.height == old(self).height,
                self.time_steps == old(self).time_steps,
                self.boundary_condition == old(self).boundary_condition,
                self.symmetry_breaking == old(self).symmetry_breaking,
                vm_extends(vm_start, self.variable_manager),
                vm_start == old(self).variable_manager,
                started_empty == (old(self).variable_manager.id_map() == Map::<u64, i32>::empty()),
                started_empty ==> dense_ids(self.variable_manager),
                clauses_ok(clauses@),
                clauses@.len() >= prod,
                pinned_ok(self.variable_manager, target_grid.cells@, clauses@.take(prod), tfin),
                clause_seq(clauses@.skip(prod)) == layers_upto(
                    self.variable_manager,
                    b,
                    t as int,
                ),
                layers_keys_upto(self.variable_manager, b, t as int),
            decreases self.time_steps - t,
        {
            let ghost prev_vm = self.variable_manager;
            let ghost prev_clauses = clauses@;
            let mut layer = match self.generate_transition_constraints(t) {
                Ok(v) => v,
                Err(e) => {
                    proof {
                        assert(false);
                    }
                    return Err(e);
                }
            };
            proof {
                lemma_vm_extends_trans(vm_start, prev_vm, self.variable_manager);
                lemma_pinned_ok_extend(
                    prev_vm,
                    self.variable_manager,
                    target_grid.cells@,
                    prev_clauses.take(prod),
                    tfin,
                );
                lemma_layers_stable(prev_vm, self.variable_manager, b, t as int);
                if started_empty {
                    lemma_dense_ids_stable(prev_vm, self.variable_manager);
                }
            }
            let ghost addition = layer@;
            clauses.append(&mut layer);
            proof {
                lemma_clauses_ok_concat(prev_clauses, addition);
                assert(clauses@ =~= prev_clauses + addition);
                assert(clauses@.take(prod) =~= prev_clauses.take(prod));
                assert(clauses@.skip(prod) =~= prev_clauses.skip(prod) + addition);
                assert(clause_seq(clauses@.skip(prod)) =~= clause_seq(prev_clauses.skip(prod))
                    + clause_seq(addition));
                assert(clause_seq(clauses@.skip(prod)) == layers_upto(
                    self.variable_manager,
                    b,
                    t as int + 1,
                ));
            }
            t += 1;
        }
        if self.symmetry_breaking {
            let ghost prev_vm = self.variable_manager;
            let ghost prev_clauses = clauses@;
            let mut extra = match self.generate_symmetry_breaking_constraints() {
                Ok(v) => v,
                Err(e) => {
                    proof {
                        assert(false);
                    }
                    return Err(e);
                }
            };
            proof {
                lemma_vm_extends_trans(vm_start, prev_vm, self.variable_manager);
                lemma_pinned_ok_extend(
                    prev_vm,
                    self.variable_manager,
                    target_grid.cells@,
                    prev_clauses.take(prod),
                    tfin,
                );
                if started_empty {
                    lemma_dense_ids_stable(prev_vm, self.variable_manager);
                }
            }
            let ghost addition = extra@;
            clauses.append(&mut extra);
            proof {
                lemma_dominance_ok(addition);
                lemma_clauses_ok_concat(prev_clauses, addition);
                assert(clauses@ =~= prev_clauses + addition);
                assert(clauses@.take(prod) =~= prev_clauses.take(prod));
            }
        }
        Ok(clauses)
    }

    /// A dominance clause: when the cell at `(from_x, from_y)` is alive in
    /// layer `t`, the cell at `(to_x, to_y)` must be alive too.
    fn implication_clause(
        &mut self,
        from_x: usize,
        from_y: usize,
        to_x: usize,
        to_y: usize,
        t: usize,
    ) -> (r: Result<Clause, EngineError>)
        requires
            old(self).wf(),
            from_x < old(self).width,
            from_y < old(self).height,
            to_x < old(self).width,
            to_y < old(self).height,
            t < old(self).time_steps,
        ensures
            final(self).wf(),
            final(self).width == old(self).width,
            final(self).height == old(self).height,
            final(self).time_steps == old(self).time_steps,
            final(self).boundary_condition == old(self).boundary_condition,
            final(self).symmetry_breaking == old(self).symmetry_breaking,
            vm_extends(old(self).variable_manager, final(self).variable_manager),
            r is Ok,
            r matches Ok(c) ==> c.literals@.len() == 2 && lits_ok(c.literals@),
    {
        let ghost vm0 = self.variable_manager;
        let from_var = match self.variable_manager.cell_variable(from_x, from_y, t) {
            Ok(id) => id,
            Err(e) => {
                proof {
                    assert(false);
                }
                return Err(e);
            }
        };
        let ghost vm1 = self.variable_manager;
        proof {
            lemma_vm_step(vm0, vm1, from_x as int, from_y as int, t as int, from_var);
        }
        let to_var = match self.variable_manager.cell_variable(to_x, to_y, t) {
            Ok(id) => id,
            Err(e) => {
                proof {
                    assert(false);
                }
                return Err(e);
            }
        };
        proof {
            lemma_vm_step(vm1, self.variable_manager, to_x as int, to_y as int, t as int, to_var);
            lemma_vm_extends_trans(vm0, vm1, self.variable_manager);
        }
        let c = Clause::binary(-from_var, to_var);
        Ok(c)
    }

    /// How aggressively a time layer is symmetry-constrained.
    fn calculate_constraint_strength(&self, t: usize) -> (r: ConstraintStrength)
        ensures
            t == 0 ==> r == ConstraintStrength::Full,
            1 <= t <= 2 ==> r == ConstraintStrength::Medium,
            t > 2 ==> r == ConstraintStrength::Light,
    {
        if t == 0 {
            ConstraintStrength::Full
        } else if t <= 2 {
            ConstraintStrength::Medium
        } else {
            ConstraintStrength::Light
        }
    }

    /// Whether a symmetry class is worth breaking at this grid size.
    fn should_apply_symmetry_type(&self, symmetry_type: SymmetryType) -> (r: bool)
        requires
            self.wf(),
            self.time_steps >= 1,
    {
        proof {
            lemma_extent_fits(
                self.width as int,
                self.height as int,
                self.time_steps as int,
            );
        }
        let grid_size = self.width * self.height;
        match symmetry_type {
            SymmetryType::Lexicographic => true,
            SymmetryType::Rotational => grid_size <= 100,
            SymmetryType::Reflectional => grid_size <= 225,
            SymmetryType::Translational => grid_size <= 64,
        }
    }

    /// Dominance clauses against the 180-degree rotation and a coarse
    /// first-living-cell anchor. These clauses are semantically lossy: they
    /// keep one representative per symmetry class.
    fn generate_minimal_rotation_breaking(&mut self, t: usize) -> (r: Result<
        Vec<Clause>,
        EngineError,
    >)
        requires
            old(self).wf(),
            old(self).time_steps >= 1,
            t < old(self).time_steps,
        ensures
            final(self).wf(),
            final(self).width == old(self).width,
            final(self).height == old(self).height,
            final(self).time_steps == old(self).time_steps,
            final(self).boundary_condition == old(self).boundary_condition,
            final(self).symmetry_breaking == old(self).symmetry_breaking,
            vm_extends(old(self).variable_manager, final(self).variable_manager),
            r is Ok,
            r matches Ok(v) ==> dominance_clauses_ok(v@) && v@.len() <= 12,
    {
        let ghost vm_start = self.variable_manager;
        proof {
            lemma_extent_fits(self.width as int, self.height as int, self.time_steps as int);
        }
        let w = self.width;
        let h = self.height;
        let total_cells = w * h;
        let half = total_cells / 2;
        let constraint_positions = if half < 3 {
            half
        } else {
            3
        };
        let mut clauses: Vec<Clause> = Vec::new();
        let mut i: usize = 0;
        while i < constraint_positions
            invariant
                i <= constraint_positions,
                w == self.width,
                h == self.height,
                total_cells == w * h,
                constraint_positions <= total_cells / 2,
                (w as int) * (h as int) < 0x7fff_ffff,
                self.wf(),
                t < self.time_steps,
                self.time_steps >= 1,
                self.width == old(self).width,
                self.height == old(self).height,
                self.time_steps == old(self).time_steps,
                self.boundary_condition == old(self).boundary_condition,
                self.symmetry_breaking == old(self).symmetry_breaking,
                vm_extends(old(self).variable_manager, self.variable_manager),
                dominance_clauses_ok(clauses@),
                clauses@.len() <= i,
            decreases constraint_positions - i,
        {
            proof {
                assert(w > 0 && h > 0 && i < h * w) by (nonlinear_arith)
                    requires
                        total_cells == (w as int) * (h as int),
                        i < constraint_positions,
                        constraint_positions <= total_cells / 2;
                assert((i as int) / (w as int) < h && (i as int) % (w as int) < w)
                    by (nonlinear_arith)
                    requires (i as int) < (h as int) * (w as int), w > 0;
            }
            let y1 = i / w;
            let x1 = i % w;
            let x2 = w - 1 - x1;
            let y2 = h - 1 - y1;
            proof {
                lemma_row_major(w as int, h as int, y2 as int, x2 as int);
            }
            let pos2 = y2 * w + x2;
            if i != pos2 && i < pos2 {
                let ghost prev_vm = self.variable_manager;
                let ghost prev_clauses = clauses@;
                let cl = match self.implication_clause(x2, y2, x1, y1, t) {
                    Ok(c) => c,
                    Err(e) => {
                        proof {
                            assert(false);
                        }
                        return Err(e);
                    }
                };
                proof {
                    lemma_vm_extends_trans(
                        old(self).variable_manager,
                        prev_vm,
                        self.variable_manager,
                    );
                }
                clauses.push(cl);
                proof {
                    assert forall|j: int|
                        0 <= j < clauses@.len() implies (#[trigger] clauses@[j].literals@.len()
                        == 2 && lits_ok(clauses@[j].literals@)) by {
                        if j < prev_clauses.len() {
                            assert(clauses@[j] == prev_clauses[j]);
                        }
                    }
                }
            }
            i += 1;
        }
        if w >= 3 && h >= 3 {
            let mid_x = w / 2;
            let mid_y = h / 2;
            let mut br: Vec<(usize, usize)> = Vec::new();
            if mid_x < w - 1 && mid_y < h - 1 {
                br.push((w - 1, h - 1));
                if mid_x + 1 < w - 1 {
                    br.push((w - 2, h - 1));
                }
                if mid_y + 1 < h - 1 {
                    br.push((w - 1, h - 2));
                }
            }
            let mut tl: Vec<(usize, usize)> = Vec::new();
            tl.push((0, 0));
            tl.push((1, 0));
            tl.push((0, 1));
            let mut a: usize = 0;
            while a < br.len()
                invariant
                    a <= br@.len(),
                    w == self.width,
                    h == self.height,
                    w >= 3,
                    h >= 3,
                    forall|j: int|
                        0 <= j < br@.len() ==> (#[trigger] br@[j]).0 < w && br@[j].1 < h,
                    forall|j: int|
                        0 <= j < tl@.len() ==> (#[trigger] tl@[j]).0 < w && tl@[j].1 < h,
                    self.wf(),
                    t < self.time_steps,
                    self.time_steps >= 1,
                    self.width == old(self).width,
                    self.height == old(self).height,
                    self.time_steps == old(self).time_steps,
                    self.boundary_condition == old(self).boundary_condition,
                    self.symmetry_breaking == old(self).symmetry_breaking,
                    vm_extends(old(self).variable_manager, self.variable_manager),
                    dominance_clauses_ok(clauses@),
                    clauses@.len() <= 3 + a * 3,
                    tl@.len() == 3,
                decreases br@.len() - a,
            {
                let mut b: usize = 0;
                while b < tl.len()
                    invariant
                        b <= tl@.len(),
                        a < br@.len(),
                        w == self.width,
                        h == self.height,
                        forall|j: int|
                            0 <= j < br@.len() ==> (#[trigger] br@[j]).0 < w && br@[j].1 < h,
                        forall|j: int|
                            0 <= j < tl@.len() ==> (#[trigger] tl@[j]).0 < w && tl@[j].1 < h,
                        self.wf(),
                        t < self.time_steps,
                        self.time_steps >= 1,
                        self.width == old(self).width,
                        self.height == old(self).height,
                        self.time_steps == old(self).time_steps,
                        self.boundary_condition == old(self).boundary_condition,
                        self.symmetry_breaking == old(self).symmetry_breaking,
                        vm_extends(old(self).variable_manager, self.variable_manager),
                        dominance_clauses_ok(clauses@),
                        clauses@.len() <= 3 + a * 3 + b,
                        tl@.len() == 3,
                    decreases tl@.len() - b,
                {
                    let (bx, by) = br[a];
                    let (tx, ty) = tl[b];
                    let ghost prev_vm = self.variable_manager;
                    let ghost prev_clauses = clauses@;
                    let cl = match self.implication_clause(bx, by, tx, ty, t) {
                        Ok(c) => c,
                        Err(e) => {
                            proof {
                                assert(false);
                            }
                            return Err(e);
                        }
                    };
                    proof {
                        lemma_vm_extends_trans(
                            old(self).variable_manager,
                            prev_vm,
                            self.variable_manager,
                        );
                    }
                    clauses.push(cl);
                    proof {
                        assert forall|j: int|
                            0 <= j < clauses@.len() implies (#[trigger] clauses@[j].literals@.len()
                            == 2 && lits_ok(clauses@[j].literals@)) by {
                            if j < prev_clauses.len() {
                                assert(clauses@[j] == prev_clauses[j]);
                            }
                        }
                    }
                    b += 1;
                }
                a += 1;
            }
        }
        Ok(clauses)
    }

    /// Dominance clauses over a whole-grid mapping `(x, y) -> m(x, y)` of
    /// one time layer: for every cell, the image being alive forces the
    /// original alive.
    fn generate_mapped_constraints(&mut self, t: usize, mapping: SymmetryType) -> (r: Result<
        Vec<Clause>,
        EngineError,
    >)
        requires
            old(self).wf(),
            old(self).time_steps >= 1,
            t < old(self).time_steps,
            old(self).width == old(self).height,
        ensures
            final(self).wf(),
            final(self).width == old(self).width,
            final(self).height == old(self).height,
            final(self).time_steps == old(self).time_steps,
            final(self).boundary_condition == old(self).boundary_condition,
            final(self).symmetry_breaking == old(self).symmetry_breaking,
            vm_extends(old(self).variable_manager, final(self).variable_manager),
            r is Ok,
            r matches Ok(v) ==> dominance_clauses_ok(v@) && v@.len() == (old(self).width as int)
                * (old(self).width as int),
    {
        let n = self.width;
        let mut clauses: Vec<Clause> = Vec::new();
        let mut y: usize = 0;
        while y < n
            invariant
                y <= n,
                n == self.width,
                n == self.height,
                self.wf(),
                t < self.time_steps,
                self.time_steps >= 1,
                self.width == old(self).width,
                self.height == old(self).height,
                self.time_steps == old(self).time_steps,
                self.boundary_condition == old(self).boundary_condition,
                self.symmetry_breaking == old(self).symmetry_breaking,
                vm_extends(old(self).variable_manager, self.variable_manager),
                dominance_clauses_ok(clauses@),
                clauses@.len() == y * n,
            decreases n - y,
        {
            let mut x: usize = 0;
            while x < n
                invariant
                    x <= n,
                    y < n,
                    n == self.width,
                    n == self.height,
                    self.wf(),
                    t < self.time_steps,
                    self.time_steps >= 1,
                    self.width == old(self).width,
                    self.height == old(self).height,
                    self.time_steps == old(self).time_steps,
                    self.boundary_condition == old(self).boundary_condition,
                    self.symmetry_breaking == old(self).symmetry_breaking,
                    vm_extends(old(self).variable_manager, self.variable_manager),
                    dominance_clauses_ok(clauses@),
                    clauses@.len() == y * n + x,
                decreases n - x,
            {
                let (mx, my): (usize, usize) = match mapping {
                    SymmetryType::Rotational => (y, n - 1 - x),
                    SymmetryType::Reflectional => (y, x),
                    SymmetryType::Lexicographic => (n - 1 - y, x),
                    SymmetryType::Translational => (n - 1 - y, n - 1 - x),
                };
                let ghost prev_vm = self.variable_manager;
                let ghost prev_clauses = clauses@;
                let cl = match self.implication_clause(mx, my, x, y, t) {
                    Ok(c) => c,
                    Err(e) => {
                        proof {
                            assert(false);
                        }
                        return Err(e);
                    }
                };
                proof {
                    lemma_vm_extends_trans(
                        old(self).variable_manager,
                        prev_vm,
                        self.variable_manager,
                    );
                }
                clauses.push(cl);
                proof {
                    assert forall|j: int|
                        0 <= j < clauses@.len() implies (#[trigger] clauses@[j].literals@.len()
                        == 2 && lits_ok(clauses@[j].literals@)) by {
                        if j < prev_clauses.len() {
                            assert(clauses@[j] == prev_clauses[j]);
                        }
                    }
                }
                x += 1;
            }
            proof {
                assert(y * n + n == (y + 1) * n) by (nonlinear_arith);
            }
            y += 1;
        }
        proof {
            assert((n as int) * (n as int) == (y as int) * (n as int)) by (nonlinear_arith)
                requires y as int == n as int;
        }
        Ok(clauses)
    }

    /// Lexicographic-style breaking: applied to the earliest layer only.
    fn generate_lexicographic_constraints(&mut self, t: usize) -> (r: Result<
        Vec<Clause>,
        EngineError,
    >)
        requires
            old(self).wf(),
            old(self).time_steps >= 1,
            t < old(self).time_steps,
        ensures
            final(self).wf(),
            final(self).width == old(self).width,
            final(self).height == old(self).height,
            final(self).time_steps == old(self).time_steps,
            final(self).boundary_condition == old(self).boundary_condition,
            final(self).symmetry_breaking == old(self).symmetry_breaking,
            vm_extends(old(self).variable_manager, final(self).variable_manager),
            r is Ok,
            r matches Ok(v) ==> dominance_clauses_ok(v@) && v@.len() <= 12,
            t != 0 ==> (r matches Ok(v) && v@.len() == 0),
    {
        if t == 0 {
            self.generate_minimal_rotation_breaking(t)
        } else {
            Ok(Vec::new())
        }
    }

    /// Rotational breaking for square grids: 90 and 270 degrees, one
    /// dominance clause per cell and direction.
    fn generate_rotational_constraints(&mut self, t: usize) -> (r: Result<
        Vec<Clause>,
        EngineError,
    >)
        requires
            old(self).wf(),
            old(self).time_steps >= 1,
            t < old(self).time_steps,
        ensures
            final(self).wf(),
            final(self).width == old(self).width,
            final(self).height == old(self).height,
            final(self).time_steps == old(self).time_steps,
            final(self).boundary_condition == old(self).boundary_condition,
            final(self).symmetry_breaking == old(self).symmetry_breaking,
            vm_extends(old(self).variable_manager, final(self).variable_manager),
            r is Ok,
            r matches Ok(v) ==> dominance_clauses_ok(v@) && v@.len() == (if old(self).width
                == old(self).height {
                2 * (old(self).width as int) * (old(self).width as int)
            } else {
                0int
            }),
    {
        let mut clauses: Vec<Clause> = Vec::new();
        if self.width == self.height {
            let ghost vm0 = self.variable_manager;
            let mut c90 = match self.generate_mapped_constraints(t, SymmetryType::Rotational) {
                Ok(v) => v,
                Err(e) => {
                    proof {
                        assert(false);
                    }
                    return Err(e);
                }
            };
            let ghost vm1 = self.variable_manager;
            let mut c270 = match self.generate_mapped_constraints(
                t,
                SymmetryType::Lexicographic,
            ) {
                Ok(v) => v,
                Err(e) => {
                    proof {
                        assert(false);
                    }
                    return Err(e);
                }
            };
            proof {
                lemma_vm_extends_trans(vm0, vm1, self.variable_manager);
            }
            let ghost s0 = clauses@;
            let ghost s1 = c90@;
            clauses.append(&mut c90);
            proof {
                lemma_dominance_concat(s0, s1);
                assert(clauses@ =~= s0 + s1);
            }
            let ghost s2 = clauses@;
            let ghost s3 = c270@;
            clauses.append(&mut c270);
            proof {
                lemma_dominance_concat(s2, s3);
                assert(clauses@ =~= s2 + s3);
                let ghost wd = old(self).width as int;
                assert(wd * wd + wd * wd == 2 * wd * wd) by (nonlinear_arith);
            }
        }
        Ok(clauses)
    }

    /// Reflection breaking for square grids: both diagonals.
    fn generate_reflectional_constraints(&mut self, t: usize) -> (r: Result<
        Vec<Clause>,
        EngineError,
    >)
        requires
            old(self).wf(),
            old(self).time_steps >= 1,
            t < old(self).time_steps,
        ensures
            final(self).wf(),
            final(self).width == old(self).width,
            final(self).height == old(self).height,
            final(self).time_steps == old(self).time_steps,
            final(self).boundary_condition == old(self).boundary_condition,
            final(self).symmetry_breaking == old(self).symmetry_breaking,
            vm_extends(old(self).variable_manager, final(self).variable_manager),
            r is Ok,
            r matches Ok(v) ==> dominance_clauses_ok(v@) && v@.len() == (if old(self).width
                == old(self).height {
                2 * (old(self).width as int) * (old(self).width as int)
            } else {
                0int
            }),
    {
        let mut clauses: Vec<Clause> = Vec::new();
        if self.width == self.height {
            let ghost vm0 = self.variable_manager;
            let mut cd = match self.generate_mapped_constraints(t, SymmetryType::Reflectional) {
                Ok(v) => v,
                Err(e) => {
                    proof {
                        assert(false);
                    }
                    return Err(e);
                }
            };
            let ghost vm1 = self.variable_manager;
            let mut ca = match self.generate_mapped_constraints(t, SymmetryType::Translational) {
                Ok(v) => v,
                Err(e) => {
                    proof {
                        assert(false);
                    }
                    return Err(e);
                }
            };
            proof {
                lemma_vm_extends_trans(vm0, vm1, self.variable_manager);
            }
            let ghost s0 = clauses@;
            let ghost s1 = cd@;
            clauses.append(&mut cd);
            proof {
                lemma_dominance_concat(s0, s1);
                assert(clauses@ =~= s0 + s1);
            }
            let ghost s2 = clauses@;
            let ghost s3 = ca@;
            clauses.append(&mut ca);
            proof {
                lemma_dominance_concat(s2, s3);
                assert(clauses@ =~= s2 + s3);
                let ghost wd = old(self).width as int;
                assert(wd * wd + wd * wd == 2 * wd * wd) by (nonlinear_arith);
            }
        }
        Ok(clauses)
    }

    /// Translation breaking: when any cell is alive, the top-left corner
    /// must be alive.
    fn generate_translational_constraints(&mut self, t: usize) -> (r: Result<
        Vec<Clause>,
        EngineError,
    >)
        requires
            old(self).wf(),
            old(self).time_steps >= 1,
            t < old(self).time_steps,
        ensures
            final(self).wf(),
            final(self).width == old(self).width,
            final(self).height == old(self).height,
            final(self).time_steps == old(self).time_steps,
            final(self).boundary_condition == old(self).boundary_condition,
            final(self).symmetry_breaking == old(self).symmetry_breaking,
            vm_extends(old(self).variable_manager, final(self).variable_manager),
            r is Ok,
            r matches Ok(v) ==> dominance_clauses_ok(v@) && v@.len() == (if old(self).width > 0
                && old(self).height > 0 {
                (old(self).width as int) * (old(self).height as int) - 1
            } else {
                0int
            }),
    {
        let mut clauses: Vec<Clause> = Vec::new();
        if self.width == 0 || self.height == 0 {
            return Ok(clauses);
        }
        let w = self.width;
        let h = self.height;
        let mut y: usize = 0;
        while y < h
            invariant
                y <= h,
                w == self.width,
                h == self.height,
                w > 0,
                h > 0,
                self.wf(),
                t < self.time_steps,
                self.time_steps >= 1,
                self.width == old(self).width,
                self.height == old(self).height,
                self.time_steps == old(self).time_steps,
                self.boundary_condition == old(self).boundary_condition,
                self.symmetry_breaking == old(self).symmetry_breaking,
                vm_extends(old(self).variable_manager, self.variable_manager),
                dominance_clauses_ok(clauses@),
                clauses@.len() == (if y == 0 {
                    0int
                } else {
                    y as int * w - 1
                }),
            decreases h - y,
        {
            let mut x: usize = 0;
            while x < w
                invariant
                    x <= w,
                    y < h,
                    w == self.width,
                    h == self.height,
                    w > 0,
                    h > 0,
                    self.wf(),
                    t < self.time_steps,
                    self.time_steps >= 1,
                    self.width == old(self).width,
                    self.height == old(self).height,
                    self.time_steps == old(self).time_steps,
                    self.boundary_condition == old(self).boundary_condition,
                    self.symmetry_breaking == old(self).symmetry_breaking,
                    vm_extends(old(self).variable_manager, self.variable_manager),
                    dominance_clauses_ok(clauses@),
                    clauses@.len() == (if y == 0 && x == 0 {
                        0int
                    } else {
                        y as int * w + x as int - 1
                    }),
                decreases w - x,
            {
                if !(x == 0 && y == 0) {
                    let ghost prev_vm = self.variable_manager;
                    let ghost prev_clauses = clauses@;
                    let cl = match self.implication_clause(x, y, 0, 0, t) {
                        Ok(c) => c,
                        Err(e) => {
                            proof {
                                assert(false);
                            }
                            return Err(e);
                        }
                    };
                    proof {
                        lemma_vm_extends_trans(
                            old(self).variable_manager,
                            prev_vm,
                            self.variable_manager,
                        );
                    }
                    clauses.push(cl);
                    proof {
                        assert forall|j: int|
                            0 <= j < clauses@.len() implies (
                        #[trigger] clauses@[j].literals@.len() == 2 && lits_ok(
                            clauses@[j].literals@,
                        )) by {
                            if j < prev_clauses.len() {
                                assert(clauses@[j] == prev_clauses[j]);
                            }
                        }
                    }
                }
                x += 1;
            }
            proof {
                assert(y as int * w + w == (y as int + 1) * w) by (nonlinear_arith);
            }
            y += 1;
        }
        proof {
            assert((w as int) * (h as int) == (y as int) * (w as int)) by (nonlinear_arith)
                requires y as int == h as int;
        }
        Ok(clauses)
    }

    /// All symmetry classes that pay off at this grid size.
    fn generate_all_symmetry_constraints(&mut self, t: usize) -> (r: Result<
        Vec<Clause>,
        EngineError,
    >)
        requires
            old(self).wf(),
            old(self).time_steps >= 1,
            t < old(self).time_steps,
        ensures
            final(self).wf(),
            final(self).width == old(self).width,
            final(self).height == old(self).height,
            final(self).time_steps == old(self).time_steps,
            final(self).boundary_condition == old(self).boundary_condition,
            final(self).symmetry_breaking == old(self).symmetry_breaking,
            vm_extends(old(self).variable_manager, final(self).variable_manager),
            r is Ok,
            r matches Ok(v) ==> dominance_clauses_ok(v@),
    {
        let ghost vm_start = self.variable_manager;
        let mut clauses: Vec<Clause> = Vec::new();
        if self.should_apply_symmetry_type(SymmetryType::Lexicographic) {
            let ghost prev_vm = self.variable_manager;
            let mut part = match self.generate_lexicographic_constraints(t) {
                Ok(v) => v,
                Err(e) => {
                    proof {
                        assert(false);
                    }
                    return Err(e);
                }
            };
            proof {
                lemma_vm_extends_trans(vm_start, prev_vm, self.variable_manager);
            }
            let ghost s0 = clauses@;
            let ghost s1 = part@;
            clauses.append(&mut part);
            proof {
                lemma_dominance_concat(s0, s1);
                assert(clauses@ =~= s0 + s1);
            }
        }
        if self.should_apply_symmetry_type(SymmetryType::Rotational) {
            let ghost prev_vm = self.variable_manager;
            let mut part = match self.generate_rotational_constraints(t) {
                Ok(v) => v,
                Err(e) => {
                    proof {
                        assert(false);
                    }
                    return Err(e);
                }
            };
            proof {
                lemma_vm_extends_trans(vm_start, prev_vm, self.variable_manager);
            }
            let ghost s0 = clauses@;
            let ghost s1 = part@;
            clauses.append(&mut part);
            proof {
                lemma_dominance_concat(s0, s1);
                assert(clauses@ =~= s0 + s1);
            }
        }
        if self.should_apply_symmetry_type(SymmetryType::Reflectional) {
            let ghost prev_vm = self.variable_manager;
            let mut part = match self.generate_reflectional_constraints(t) {
                Ok(v) => v,
                Err(e) => {
                    proof {
                        assert(false);
                    }
                    return Err(e);
                }
            };
            proof {
                lemma_vm_extends_trans(vm_start, prev_vm, self.variable_manager);
            }
            let ghost s0 = clauses@;
            let ghost s1 = part@;
            clauses.append(&mut part);
            proof {
                lemma_dominance_concat(s0, s1);
                assert(clauses@ =~= s0 + s1);
            }
        }
        if self.should_apply_symmetry_type(SymmetryType::Translational) {
            let ghost prev_vm = self.variable_manager;
            let mut part = match self.generate_translational_constraints(t) {
                Ok(v) => v,
                Err(e) => {
                    proof {
                        assert(false);
                    }
                    return Err(e);
                }
            };
            proof {
                lemma_vm_extends_trans(vm_start, prev_vm, self.variable_manager);
            }
            let ghost s0 = clauses@;
            let ghost s1 = part@;
            clauses.append(&mut part);
            proof {
                lemma_dominance_concat(s0, s1);
                assert(clauses@ =~= s0 + s1);
            }
        }
        Ok(clauses)
    }

    /// Symmetry-breaking clauses for every layer, stronger on the early
    /// ones.
    fn generate_symmetry_breaking_constraints(&mut self) -> (r: Result<Vec<Clause>, EngineError>)
        requires
            old(self).wf(),
            old(self).time_steps >= 1,
        ensures
            final(self).wf(),
            final(self).width == old(self).width,
            final(self).height == old(self).height,
            final(self).time_steps == old(self).time_steps,
            final(self).boundary_condition == old(self).boundary_condition,
            final(self).symmetry_breaking == old(self).symmetry_breaking,
            vm_extends(old(self).variable_manager, final(self).variable_manager),
            r is Ok,
            r matches Ok(v) ==> dominance_clauses_ok(v@),
    {
        let ghost vm_start = self.variable_manager;
        let mut clauses: Vec<Clause> = Vec::new();
        let mut t: usize = 0;
        while t < self.time_steps
            invariant
                self.wf(),
                self.time_steps >= 1,
                self.width == old(self).width,
                self.height == old(self).height,
                self.time_steps == old(self).time_steps,
                self.boundary_condition == old(self).boundary_condition,
                self.symmetry_breaking == old(self).symmetry_breaking,
                vm_start == old(self).variable_manager,
                vm_extends(old(self).variable_manager, self.variable_manager),
                dominance_clauses_ok(clauses@),
            decreases self.time_steps - t,
        {
            let strength = self.calculate_constraint_strength(t);
            let ghost prev_vm = self.variable_manager;
            let mut part = match strength {
                ConstraintStrength::Full => {
                    match self.generate_all_symmetry_constraints(t) {
                        Ok(v) => v,
                        Err(e) => {
                            proof {
                                assert(false);
                            }
                            return Err(e);
                        }
                    }
                }
                ConstraintStrength::Medium => {
                    let mut lex = match self.generate_lexicographic_constraints(t) {
                        Ok(v) => v,
                        Err(e) => {
                            proof {
                                assert(false);
                            }
                            return Err(e);
                        }
                    };
                    let ghost vm_mid = self.variable_manager;
                    let mut rot = match self.generate_rotational_constraints(t) {
                        Ok(v) => v,
                        Err(e) => {
                            proof {
                                assert(false);
                            }
                            return Err(e);
                        }
                    };
                    proof {
                        lemma_vm_extends_trans(prev_vm, vm_mid, self.variable_manager);
                    }
                    let ghost s0 = lex@;
                    let ghost s1 = rot@;
                    lex.append(&mut rot);
                    proof {
                        lemma_dominance_concat(s0, s1);
                        assert(lex@ =~= s0 + s1);
                    }
                    lex
                }
                ConstraintStrength::Light => {
                    match self.generate_lexicographic_constraints(t) {
                        Ok(v) => v,
                        Err(e) => {
                            proof {
                                assert(false);
                            }
                            return Err(e);
                        }
                    }
                }
            };
            proof {
                lemma_vm_extends_trans(vm_start, prev_vm, self.variable_manager);
            }
            let ghost s0 = clauses@;
            let ghost s1 = part@;
            clauses.append(&mut part);
            proof {
                lemma_dominance_concat(s0, s1);
                assert(clauses@ =~= s0 + s1);
            }
            t += 1;
        }
        Ok(clauses)
    }

    /// Borrows the variable manager, for callers that map model values
    /// back to cells.
    pub fn variable_manager(&mut self) -> (r: &mut VariableManager)
        ensures
            *r == old(self).variable_manager,
            final(self).variable_manager == *final(r),
            final(self).width == old(self).width,
            final(self).height == old(self).height,
            final(self).time_steps == old(self).time_steps,
            final(self).boundary_condition == old(self).boundary_condition,
            final(self).symmetry_breaking == old(self).symmetry_breaking,
    {
        &mut self.variable_manager
    }

    /// The generator's extent and variable usage.
    pub fn statistics(&self) -> (r: ConstraintStatistics)
        requires
            self.wf(),
        ensures
            r.width == self.width,
            r.height == self.height,
            r.time_steps == self.time_steps,
            r.total_variables == self.variable_manager.next_id - 1,
    {
        ConstraintStatistics {
            width: self.width,
            height: self.height,
            time_steps: self.time_steps,
            total_variables: self.variable_manager.variable_count(),
        }
    }
}

/// The pinning clause set is satisfied by an assignment exactly when the
/// pinned layer matches the target cells: each unit clause forces its
/// cell's variable to the target value, and nothing else.
pub proof fn lemma_pinned_sat(
    a: spec_fn(int) -> bool,
    m: VariableManager,
    cells: Seq<bool>,
    cs: Seq<Clause>,
    t: int,
)
    requires
        m.wf(),
        pinned_ok(m, cells, cs, t),
    ensures
        crate::encoding::clauses_sat(a, clause_seq(cs)) <==> (forall|i: int|
            0 <= i < cs.len() ==> a(
                m.id_map()[m.key_at(i % (m.width as int), i / (m.width as int), t)] as int,
            ) == cells[i]),
    decreases cs.len(),
{
    let w = m.width as int;
    if cs.len() == 0 {
        assert(clause_seq(cs).len() == 0);
    } else {
        lemma_pinned_sat(a, m, cells, cs.drop_last(), t);
        assert(clause_seq(cs).drop_last() =~= clause_seq(cs.drop_last()));
        let n = cs.len() as int;
        let i = n - 1;
        let key = m.key_at(i % w, i / w, t);
        let id = m.id_map()[key];
        assert(m.id_map().contains_key(key));
        assert(1 <= id);
        let cl = cs[i].lits();
        assert(clause_seq(cs).last() == cl);
        let lit: int = if cells[i] {
            id as int
        } else {
            -(id as int)
        };
        assert(cl =~= seq![lit]) by {
            if cells[i] {
                assert(cs[i].literals@ == seq![id]);
            } else {
                assert(cs[i].literals@ == seq![(0 - id as int) as i32]);
                assert(((0 - id as int) as i32) as int == -(id as int));
            }
        }
        assert(crate::encoding::clause_sat(a, cl) <==> (a(id as int) == cells[i])) by {
            if crate::encoding::clause_sat(a, cl) {
                let k = choose|k: int|
                    0 <= k < cl.len() && crate::encoding::lit_sat(a, cl[k]);
                assert(k == 0);
                assert(crate::encoding::lit_sat(a, lit));
            }
            if a(id as int) == cells[i] {
                assert(crate::encoding::lit_sat(a, cl[0]));
            }
        }
        if crate::encoding::clauses_sat(a, clause_seq(cs)) {
            assert forall|k: int|
                0 <= k < cs.len() implies a(
                m.id_map()[m.key_at(k % w, k / w, t)] as int,
            ) == cells[k] by {
                if k < n - 1 {
                    assert(crate::encoding::clauses_sat(a, clause_seq(cs.drop_last())));
                }
            }
        }
        if forall|k: int|
            0 <= k < cs.len() ==> a(m.id_map()[m.key_at(k % w, k / w, t)] as int) == cells[k] {
            assert forall|k: int|
                0 <= k < cs.drop_last().len() implies a(
                m.id_map()[m.key_at(k % w, k / w, t)] as int,
            ) == cells[k] by {
                assert(0 <= k < cs.len());
            }
            assert(crate::encoding::clauses_sat(a, clause_seq(cs.drop_last())));
            assert(a(id as int) == cells[i]);
        }
    }
}

/// The identifiers of a cell's boundary-mapped neighbors in layer `t`,
/// read out of the manager, with multiplicity.
pub open spec fn neighbor_id_ints(
    m: VariableManager,
    b: BoundaryCondition,
    x: int,
    y: int,
    t: int,
) -> Seq<int> {
    let cs = neighbor_coords(m.width as int, m.height as int, b, x, y);
    Seq::new(cs.len(), |j: int| m.id_map()[m.key_at(cs[j].0, cs[j].1, t)] as int)
}

/// The manager has assigned identifiers to every coordinate of the list
/// in layer `t`.
pub open spec fn coords_keys_ok(m: VariableManager, cs: Seq<(int, int)>, t: int) -> bool
    decreases cs.len(),
{
    cs.len() == 0 || {
        let j = cs.len() - 1;
        &&& coords_keys_ok(m, cs.drop_last(), t)
        &&& m.id_map().contains_key(m.key_at(cs[j].0, cs[j].1, t))
    }
}

/// Reads one entry of a key-presence record.
pub proof fn lemma_coords_keys_ok_at(m: VariableManager, cs: Seq<(int, int)>, t: int, j: int)
    requires
        coords_keys_ok(m, cs, t),
        0 <= j < cs.len(),
    ensures
        m.id_map().contains_key(m.key_at(cs[j].0, cs[j].1, t)),
    decreases cs.len(),
{
    if j < cs.len() - 1 {
        lemma_coords_keys_ok_at(m, cs.drop_last(), t, j);
        assert(cs.drop_last()[j] == cs[j]);
    }
}

/// An identifier record implies presence of all its keys.
pub proof fn lemma_ids_for_coords_keys(
    m: VariableManager,
    cs: Seq<(int, int)>,
    ids: Seq<i32>,
    t: int,
)
    requires
        ids_for_coords(m, cs, ids, t),
    ensures
        coords_keys_ok(m, cs, t),
    decreases cs.len(),
{
    if cs.len() > 0 {
        lemma_ids_for_coords_keys(m, cs.drop_last(), ids.drop_last(), t);
    }
}

/// An identifier record reads off exactly the manager's identifiers.
pub proof fn lemma_ids_for_coords_ints(
    m: VariableManager,
    b: BoundaryCondition,
    x: int,
    y: int,
    ids: Seq<i32>,
    t: int,
)
    requires
        ids_for_coords(m, neighbor_coords(m.width as int, m.height as int, b, x, y), ids, t),
    ensures
        ids.map_values(|l: i32| l as int) == neighbor_id_ints(m, b, x, y, t),
{
    let cs = neighbor_coords(m.width as int, m.height as int, b, x, y);
    assert forall|j: int|
        0 <= j < ids.len() implies (#[trigger] ids[j]) as int == neighbor_id_ints(
        m,
        b,
        x,
        y,
        t,
    )[j] by {
        lemma_ids_for_coords_at(m, cs, ids, t, j);
    }
    assert(ids.map_values(|l: i32| l as int) =~= neighbor_id_ints(m, b, x, y, t));
}

/// One cell's transition family, read out of the manager.
pub open spec fn cell_trans_family(
    m: VariableManager,
    b: BoundaryCondition,
    x: int,
    y: int,
    t: int,
) -> Seq<Seq<int>> {
    cell_family(
        m.id_map()[m.key_at(x, y, t)] as int,
        m.id_map()[m.key_at(x, y, t + 1)] as int,
        neighbor_id_ints(m, b, x, y, t),
    )
}

/// The manager holds every identifier of one cell's family.
pub open spec fn cell_keys_ok(
    m: VariableManager,
    b: BoundaryCondition,
    x: int,
    y: int,
    t: int,
) -> bool {
    &&& m.id_map().contains_key(m.key_at(x, y, t))
    &&& m.id_map().contains_key(m.key_at(x, y, t + 1))
    &&& coords_keys_ok(m, neighbor_coords(m.width as int, m.height as int, b, x, y), t)
}

/// What the transition family of one cell says of an assignment: the
/// successor variable carries the rule applied to the cell variable and
/// the live count of its boundary-mapped neighbors.
pub open spec fn cell_next_ok(
    a: spec_fn(int) -> bool,
    m: VariableManager,
    b: BoundaryCondition,
    x: int,
    y: int,
    t: int,
) -> bool {
    a(m.id_map()[m.key_at(x, y, t + 1)] as int) == crate::rules::next_state(
        a(m.id_map()[m.key_at(x, y, t)] as int),
        crate::encoding::count_alive(a, neighbor_id_ints(m, b, x, y, t)),
    )
}

/// The concatenated transition families of the first `n` cells of one
/// layer, in row-major order.
pub open spec fn layer_families_upto(
    m: VariableManager,
    b: BoundaryCondition,
    t: int,
    n: int,
) -> Seq<Seq<int>>
    decreases n,
{
    if n <= 0 {
        Seq::empty()
    } else {
        layer_families_upto(m, b, t, n - 1) + cell_trans_family(
            m,
            b,
            (n - 1) % (m.width as int),
            (n - 1) / (m.width as int),
            t,
        )
    }
}

/// Key presence over the first `n` cells of one layer.
pub open spec fn layer_keys_upto(m: VariableManager, b: BoundaryCondition, t: int, n: int) -> bool
    decreases n,
{
    n <= 0 || (layer_keys_upto(m, b, t, n - 1) && cell_keys_ok(
        m,
        b,
        (n - 1) % (m.width as int),
        (n - 1) / (m.width as int),
        t,
    ))
}

/// Rule conformance over the first `n` cells of one layer.
pub open spec fn layer_ok_upto(
    a: spec_fn(int) -> bool,
    m: VariableManager,
    b: BoundaryCondition,
    t: int,
    n: int,
) -> bool
    decreases n,
{
    n <= 0 || (layer_ok_upto(a, m, b, t, n - 1) && cell_next_ok(
        a,
        m,
        b,
        (n - 1) % (m.width as int),
        (n - 1) / (m.width as int),
        t,
    ))
}

/// One cell's family and key record survive growth of the manager.
pub proof fn lemma_cell_family_stable(
    m1: VariableManager,
    m2: VariableManager,
    b: BoundaryCondition,
    x: int,
    y: int,
    t: int,
)
    requires
        vm_extends(m1, m2),
        cell_keys_ok(m1, b, x, y, t),
    ensures
        cell_keys_ok(m2, b, x, y, t),
        cell_trans_family(m2, b, x, y, t) == cell_trans_family(m1, b, x, y, t),
{
    let cs = neighbor_coords(m1.width as int, m1.height as int, b, x, y);
    lemma_coords_keys_stable(m1, m2, cs, t);
    assert forall|j: int|
        0 <= j < cs.len() implies #[trigger] neighbor_id_ints(m2, b, x, y, t)[j]
        == neighbor_id_ints(m1, b, x, y, t)[j] by {
        lemma_coords_keys_ok_at(m1, cs, t, j);
    }
    assert(neighbor_id_ints(m2, b, x, y, t) =~= neighbor_id_ints(m1, b, x, y, t));
}

/// Key presence over a coordinate list survives growth of the manager.
pub proof fn lemma_coords_keys_stable(
    m1: VariableManager,
    m2: VariableManager,
    cs: Seq<(int, int)>,
    t: int,
)
    requires
        vm_extends(m1, m2),
        coords_keys_ok(m1, cs, t),
    ensures
        coords_keys_ok(m2, cs, t),
    decreases cs.len(),
{
    if cs.len() > 0 {
        lemma_coords_keys_stable(m1, m2, cs.drop_last(), t);
    }
}

/// A layer's families and key records survive growth of the manager.
pub proof fn lemma_layer_families_stable(
    m1: VariableManager,
    m2: VariableManager,
    b: BoundaryCondition,
    t: int,
    n: int,
)
    requires
        vm_extends(m1, m2),
        layer_keys_upto(m1, b, t, n),
    ensures
        layer_keys_upto(m2, b, t, n),
        layer_families_upto(m2, b, t, n) == layer_families_upto(m1, b, t, n),
    decreases n,
{
    if n > 0 {
        lemma_layer_families_stable(m1, m2, b, t, n - 1);
        lemma_cell_family_stable(
            m1,
            m2,
            b,
            (n - 1) % (m1.width as int),
            (n - 1) / (m1.width as int),
            t,
        );
    }
}

/// Encoding soundness of one layer: an assignment satisfies the
/// concatenated transition families exactly when every cell's successor
/// variable carries the Game of Life rule applied to its cell variable
/// and the live count of its boundary-mapped neighbors.
pub proof fn lemma_layer_families_characterize(
    a: spec_fn(int) -> bool,
    m: VariableManager,
    b: BoundaryCondition,
    t: int,
    n: int,
)
    requires
        m.wf(),
        layer_keys_upto(m, b, t, n),
    ensures
        crate::encoding::clauses_sat(a, layer_families_upto(m, b, t, n)) <==> layer_ok_upto(
            a,
            m,
            b,
            t,
            n,
        ),
    decreases n,
{
    if n > 0 {
        lemma_layer_families_characterize(a, m, b, t, n - 1);
        let x = (n - 1) % (m.width as int);
        let y = (n - 1) / (m.width as int);
        crate::encoding::lemma_clauses_sat_concat(
            a,
            layer_families_upto(m, b, t, n - 1),
            cell_trans_family(m, b, x, y, t),
        );
        let cs = neighbor_coords(m.width as int, m.height as int, b, x, y);
        let ns = neighbor_id_ints(m, b, x, y, t);
        assert forall|j: int| 0 <= j < ns.len() implies #[trigger] ns[j] > 0 by {
            lemma_coords_keys_ok_at(m, cs, t, j);
        }
        assert(m.id_map()[m.key_at(x, y, t)] > 0);
        assert(m.id_map()[m.key_at(x, y, t + 1)] > 0);
        crate::encoding::lemma_cell_family_characterizes(
            a,
            m.id_map()[m.key_at(x, y, t)] as int,
            m.id_map()[m.key_at(x, y, t + 1)] as int,
            ns,
        );
    }
}

/// The concatenated transition families of the first `tcount` steps.
pub open spec fn layers_upto(m: VariableManager, b: BoundaryCondition, tcount: int) -> Seq<
    Seq<int>,
>
    decreases tcount,
{
    if tcount <= 0 {
        Seq::empty()
    } else {
        layers_upto(m, b, tcount - 1) + layer_families_upto(
            m,
            b,
            tcount - 1,
            (m.width as int) * (m.height as int),
        )
    }
}

/// Key presence over the first `tcount` steps.
pub open spec fn layers_keys_upto(m: VariableManager, b: BoundaryCondition, tcount: int) -> bool
    decreases tcount,
{
    tcount <= 0 || (layers_keys_upto(m, b, tcount - 1) && layer_keys_upto(
        m,
        b,
        tcount - 1,
        (m.width as int) * (m.height as int),
    ))
}

/// Rule conformance over the first `tcount` steps.
pub open spec fn layers_ok_upto(
    a: spec_fn(int) -> bool,
    m: VariableManager,
    b: BoundaryCondition,
    tcount: int,
) -> bool
    decreases tcount,
{
    tcount <= 0 || (layers_ok_upto(a, m, b, tcount - 1) && layer_ok_upto(
        a,
        m,
        b,
        tcount - 1,
        (m.width as int) * (m.height as int),
    ))
}

/// The step families and key records survive growth of the manager.
pub proof fn lemma_layers_stable(
    m1: VariableManager,
    m2: VariableManager,
    b: BoundaryCondition,
    tcount: int,
)
    requires
        vm_extends(m1, m2),
        layers_keys_upto(m1, b, tcount),
    ensures
        layers_keys_upto(m2, b, tcount),
        layers_upto(m2, b, tcount) == layers_upto(m1, b, tcount),
    decreases tcount,
{
    if tcount > 0 {
        lemma_layers_stable(m1, m2, b, tcount - 1);
        lemma_layer_families_stable(
            m1,
            m2,
            b,
            tcount - 1,
            (m1.width as int) * (m1.height as int),
        );
    }
}

/// Encoding soundness of all transition steps together.
pub proof fn lemma_layers_characterize(
    a: spec_fn(int) -> bool,
    m: VariableManager,
    b: BoundaryCondition,
    tcount: int,
)
    requires
        m.wf(),
        layers_keys_upto(m, b, tcount),
    ensures
        crate::encoding::clauses_sat(a, layers_upto(m, b, tcount)) <==> layers_ok_upto(
            a,
            m,
            b,
            tcount,
        ),
    decreases tcount,
{
    if tcount > 0 {
        lemma_layers_characterize(a, m, b, tcount - 1);
        crate::encoding::lemma_clauses_sat_concat(
            a,
            layers_upto(m, b, tcount - 1),
            layer_families_upto(m, b, tcount - 1, (m.width as int) * (m.height as int)),
        );
        lemma_layer_families_characterize(
            a,
            m,
            b,
            tcount - 1,
            (m.width as int) * (m.height as int),
        );
    }
}

/// Encoding soundness of the whole CNF: an assignment satisfies the
/// generated clause set exactly when it pins the final layer to the
/// target and, at every cell of every step, gives the successor variable
/// the Game of Life rule applied to the cell variable and the live count
/// of its boundary-mapped neighbors.
pub proof fn lemma_cnf_characterizes(
    a: spec_fn(int) -> bool,
    m: VariableManager,
    b: BoundaryCondition,
    cells: Seq<bool>,
    cs: Seq<Clause>,
    tfin: int,
)
    requires
        m.wf(),
        cells.len() == (m.width as int) * (m.height as int),
        cs.len() >= cells.len(),
        pinned_ok(m, cells, cs.take(cells.len() as int), tfin),
        clause_seq(cs.skip(cells.len() as int)) == layers_upto(m, b, tfin),
        layers_keys_upto(m, b, tfin),
    ensures
        crate::encoding::clauses_sat(a, clause_seq(cs)) <==> ((forall|i: int|
            0 <= i < cells.len() ==> a(
                m.id_map()[m.key_at(i % (m.width as int), i / (m.width as int), tfin)] as int,
            ) == cells[i]) && layers_ok_upto(a, m, b, tfin)),
{
    let nc = cells.len() as int;
    let head = cs.take(nc);
    let tail = cs.skip(nc);
    assert(cs =~= head + tail);
    assert(clause_seq(cs) =~= clause_seq(head) + clause_seq(tail));
    crate::encoding::lemma_clauses_sat_concat(a, clause_seq(head), clause_seq(tail));
    lemma_pinned_sat(a, m, cells, head, tfin);
    lemma_layers_characterize(a, m, b, tfin);
    assert(head.len() == nc);
}

} // verus!
