//! Lazy assignment of SAT variable identifiers to space-time cells.

use vstd::prelude::*;
use std::collections::HashMap;
use crate::errors::EngineError;
use crate::grid::{lemma_row_major, lemma_div_mod_of_row_major};

verus! {

broadcast use vstd::std_specs::hash::group_hash_axioms;

/// The dense key of a cell coordinate inside the space-time extent.
pub open spec fn cell_key(w: int, h: int, x: int, y: int, t: int) -> int {
    (t * h + y) * w + x
}

/// Distinct in-range coordinates give distinct keys.
pub proof fn lemma_cell_key_injective(
    w: int,
    h: int,
    ts: int,
    x1: int,
    y1: int,
    t1: int,
    x2: int,
    y2: int,
    t2: int,
)
    requires
        0 <= x1 < w,
        0 <= y1 < h,
        0 <= t1 < ts,
        0 <= x2 < w,
        0 <= y2 < h,
        0 <= t2 < ts,
        !(x1 == x2 && y1 == y2 && t1 == t2),
    ensures
        cell_key(w, h, x1, y1, t1) != cell_key(w, h, x2, y2, t2),
{
    assert(cell_key(w, h, x1, y1, t1) != cell_key(w, h, x2, y2, t2)) by (nonlinear_arith)
        requires
            0 <= x1 < w, 0 <= y1 < h, 0 <= t1 < ts,
            0 <= x2 < w, 0 <= y2 < h, 0 <= t2 < ts,
            !(x1 == x2 && y1 == y2 && t1 == t2);
}

/// An in-range key stays below the size of the extent.
pub proof fn lemma_cell_key_bounds(w: int, h: int, ts: int, x: int, y: int, t: int)
    requires
        0 <= x < w,
        0 <= y < h,
        0 <= t < ts,
    ensures
        0 <= cell_key(w, h, x, y, t) < w * h * ts,
{
    assert(0 <= cell_key(w, h, x, y, t) < w * h * ts) by (nonlinear_arith)
        requires 0 <= x < w, 0 <= y < h, 0 <= t < ts;
}

/// The set of dense keys below `n`.
pub open spec fn keys_below(n: int) -> Set<u64> {
    Set::new(|k: u64| (k as int) < n)
}

/// That key set is finite, with one key per value below `n`.
pub proof fn lemma_keys_below_len(n: int)
    requires
        0 <= n <= u64::MAX,
    ensures
        keys_below(n).finite(),
        keys_below(n).len() == n,
    decreases n,
{
    if n == 0 {
        assert(keys_below(0) =~= Set::<u64>::empty());
    } else {
        lemma_keys_below_len(n - 1);
        assert(keys_below(n) =~= keys_below(n - 1).insert((n - 1) as u64));
    }
}

/// The kinds of SAT variables of the encoding.
#[derive(Debug, Clone, PartialEq, Eq, Hash, Structural)]
pub enum VariableType {
    /// The state of the cell at `(x, y)` in time layer `t`.
    Cell { x: usize, y: usize, t: usize },
}

/// Hands out positive variable identifiers, one per space-time cell, in
/// first-request order; repeat requests return the same identifier.
#[derive(Debug)]
pub struct VariableManager {
    pub variable_map: HashMap<u64, i32>,
    pub next_id: i32,
    pub width: usize,
    pub height: usize,
    pub time_steps: usize,
}

impl VariableManager {
    /// The identifier map, keyed by the dense cell key.
    pub open spec fn id_map(&self) -> Map<u64, i32> {
        self.variable_map@
    }

    /// The identifier of an in-range coordinate, if assigned.
    pub open spec fn key_at(&self, x: int, y: int, t: int) -> u64 {
        cell_key(self.width as int, self.height as int, x, y, t) as u64
    }

    pub open spec fn in_range(&self, x: int, y: int, t: int) -> bool {
        0 <= x < self.width && 0 <= y < self.height && 0 <= t < self.time_steps
    }

    /// Every identifier is positive, below `next_id`, and assigned to at
    /// most one key; the extent fits in the identifier space.
    pub open spec fn wf(&self) -> bool {
        &&& (self.width as int) * (self.height as int) * (self.time_steps as int) < 0x7fff_ffff
        &&& 1 <= self.next_id
        &&& self.next_id as int <= (self.width as int) * (self.height as int) * (
        self.time_steps as int) + 1
        &&& self.id_map().dom().finite()
        &&& self.id_map().len() == self.next_id - 1
        &&& forall|k: u64|
            #![trigger self.id_map().contains_key(k)]
            #![trigger self.id_map()[k]]
            self.id_map().contains_key(k) ==> k < (self.width as int) * (self.height as int) * (
            self.time_steps as int) && 1 <= self.id_map()[k] < self.next_id
        &&& forall|k1: u64, k2: u64|
            #![trigger self.id_map().contains_key(k1), self.id_map().contains_key(k2)]
            #![trigger self.id_map()[k1], self.id_map()[k2]]
            self.id_map().contains_key(k1) && self.id_map().contains_key(k2) && k1 != k2
                ==> self.id_map()[k1] != self.id_map()[k2]
    }

    /// Creates a manager for a `width x height` grid over `time_steps`
    /// time layers. The extent must fit in the positive `i32` identifier
    /// space. The last parameter is accepted for interface stability and
    /// has no effect.
    pub fn new(width: usize, height: usize, time_steps: usize, _use_auxiliary: bool) -> (r:
        VariableManager)
        requires
            (width as int) * (height as int) * (time_steps as int) < 0x7fff_ffff,
        ensures
            r.width == width,
            r.height == height,
            r.time_steps == time_steps,
            r.next_id == 1,
            r.id_map() == Map::<u64, i32>::empty(),
            r.wf(),
    {
        let r = VariableManager {
            variable_map: HashMap::new(),
            next_id: 1,
            width,
            height,
            time_steps,
        };
        proof {
            assert(r.id_map().dom() =~= Set::<u64>::empty());
        }
        r
    }

    /// Checks that a variable's coordinates lie inside the extent.
    fn validate_variable(&self, var_type: &VariableType) -> (r: Result<(), EngineError>)
        ensures
            r is Ok <==> (var_type matches VariableType::Cell { x, y, t } && x < self.width && y
                < self.height && t < self.time_steps),
            r matches Err(e) ==> (var_type matches VariableType::Cell { x, y, t } && e == (
            EngineError::OutOfBounds { x: *x, y: *y, t: *t })),
    {
        match var_type {
            VariableType::Cell { x, y, t } => {
                if *x >= self.width || *y >= self.height || *t >= self.time_steps {
                    return Err(EngineError::OutOfBounds { x: *x, y: *y, t: *t });
                }
                Ok(())
            }
        }
    }

    /// Returns the identifier of the given variable, assigning the next
    /// free one on first request. Fails outside the extent.
    pub fn get_variable(&mut self, var_type: VariableType) -> (r: Result<i32, EngineError>)
        requires
            old(self).wf(),
        ensures
            final(self).wf(),
            final(self).width == old(self).width,
            final(self).height == old(self).height,
            final(self).time_steps == old(self).time_steps,
            r is Ok <==> (var_type matches VariableType::Cell { x, y, t } && x < old(self).width
                && y < old(self).height && t < old(self).time_steps),
            r matches Err(e) ==> *final(self) == *old(self) && (var_type
                matches VariableType::Cell { x, y, t } && e == (EngineError::OutOfBounds {
                x,
                y,
                t,
            })),
            r matches Ok(id) ==> (var_type matches VariableType::Cell { x, y, t } && {
                let key = old(self).key_at(x as int, y as int, t as int);
                &&& 1 <= id < final(self).next_id
                &&& final(self).id_map().contains_key(key)
                &&& final(self).id_map()[key] == id
                &&& old(self).id_map().contains_key(key) ==> (*final(self) == *old(self) && id
                    == old(self).id_map()[key])
                &&& !old(self).id_map().contains_key(key) ==> {
                    &&& id == old(self).next_id
                    &&& final(self).next_id == old(self).next_id + 1
                    &&& final(self).id_map() == old(self).id_map().insert(key, id)
                }
            }),
    {
        let VariableType::Cell { x, y, t } = var_type;
        if x >= self.width || y >= self.height || t >= self.time_steps {
            return Err(EngineError::OutOfBounds { x, y, t });
        }
        proof {
            lemma_cell_key_bounds(
                self.width as int,
                self.height as int,
                self.time_steps as int,
                x as int,
                y as int,
                t as int,
            );
        }
        proof {
            assert((t as int) * (self.height as int) + (y as int) < 0x7fff_ffff
                && ((t as int) * (self.height as int) + (y as int)) * (self.width as int) + (
            x as int) < 0x7fff_ffff) by (nonlinear_arith)
                requires
                    (x as int) < (self.width as int),
                    (y as int) < (self.height as int),
                    (t as int) < (self.time_steps as int),
                    0 <= x as int && 0 <= y as int && 0 <= t as int,
                    (self.width as int) * (self.height as int) * (self.time_steps as int)
                        < 0x7fff_ffff;
        }
        let key: u64 = ((t as u64) * (self.height as u64) + (y as u64)) * (self.width as u64) + (
        x as u64);
        if let Some(id) = self.variable_map.get(&key) {
            return Ok(*id);
        }
        proof {
            let prod = (self.width as int) * (self.height as int) * (self.time_steps as int);
            lemma_keys_below_len(prod);
            assert forall|k: u64| self.id_map().dom().insert(key).contains(k)
                implies #[trigger] keys_below(prod).contains(k) by {
                if k != key {
                    assert(self.id_map().contains_key(k));
                }
            }
            vstd::set_lib::lemma_len_subset(self.id_map().dom().insert(key), keys_below(prod));
            assert(self.id_map().dom().insert(key).len() == self.id_map().len() + 1);
        }
        let id = self.next_id;
        self.next_id = self.next_id + 1;
        self.variable_map.insert(key, id);
        proof {
            assert(self.id_map().dom() =~= old(self).id_map().dom().insert(key));
            assert forall|k1: u64, k2: u64|
                self.id_map().contains_key(k1) && self.id_map().contains_key(k2) && k1 != k2
                    implies #[trigger] self.id_map()[k1] != #[trigger] self.id_map()[k2] by {
                if k1 != key && k2 != key {
                    assert(old(self).id_map()[k1] != old(self).id_map()[k2]);
                } else if k1 == key {
                    assert(old(self).id_map()[k2] < id);
                } else {
                    assert(old(self).id_map()[k1] < id);
                }
            }
        }
        Ok(id)
    }

    /// The identifier of the cell at `(x, y)` in time layer `t`.
    pub fn cell_variable(&mut self, x: usize, y: usize, t: usize) -> (r: Result<i32, EngineError>)
        requires
            old(self).wf(),
        ensures
            final(self).wf(),
            final(self).width == old(self).width,
            final(self).height == old(self).height,
            final(self).time_steps == old(self).time_steps,
            r is Ok <==> (x < old(self).width && y < old(self).height && t < old(self).time_steps),
            r matches Err(e) ==> *final(self) == *old(self) && e == (EngineError::OutOfBounds {
                x,
                y,
                t,
            }),
            r matches Ok(id) ==> {
                let key = old(self).key_at(x as int, y as int, t as int);
                &&& 1 <= id < final(self).next_id
                &&& final(self).id_map().contains_key(key)
                &&& final(self).id_map()[key] == id
                &&& old(self).id_map().contains_key(key) ==> (*final(self) == *old(self) && id
                    == old(self).id_map()[key])
                &&& !old(self).id_map().contains_key(key) ==> {
                    &&& id == old(self).next_id
                    &&& final(self).next_id == old(self).next_id + 1
                    &&& final(self).id_map() == old(self).id_map().insert(key, id)
                }
            },
    {
        self.get_variable(VariableType::Cell { x, y, t })
    }

    /// The identifiers of every cell of time layer `t`, in row-major
    /// order. The identifiers are pairwise distinct.
    pub fn all_cell_variables_at_time(&mut self, t: usize) -> (r: Result<Vec<i32>, EngineError>)
        requires
            old(self).wf(),
        ensures
            final(self).wf(),
            final(self).width == old(self).width,
            final(self).height == old(self).height,
            final(self).time_steps == old(self).time_steps,
            r is Ok <==> (t < old(self).time_steps || old(self).width == 0 || old(self).height
                == 0),
            r matches Ok(v) ==> (v@.len() == old(self).width * old(self).height
                && ids_assigned(*final(self), v@, t as int)),
    {
        let mut variables: Vec<i32> = Vec::new();
        let w = self.width;
        let h = self.height;
        let ghost t_int = t as int;
        let mut y: usize = 0;
        while y < h
            invariant
                y <= h,
                t_int == t as int,
                w == self.width,
                h == self.height,
                self.wf(),
                self.width == old(self).width,
                self.height == old(self).height,
                self.time_steps == old(self).time_steps,
                w > 0 && y > 0 ==> t < self.time_steps,
                variables@.len() == y * w,
                ids_assigned(*self, variables@, t_int),
            decreases h - y,
        {
            let mut x: usize = 0;
            while x < w
                invariant
                    x <= w,
                    y < h,
                    t_int == t as int,
                    w == self.width,
                    h == self.height,
                    self.wf(),
                    self.width == old(self).width,
                    self.height == old(self).height,
                    self.time_steps == old(self).time_steps,
                    (x > 0 || y > 0) && w > 0 ==> t < self.time_steps,
                    variables@.len() == y * w + x,
                    ids_assigned(*self, variables@, t_int),
                decreases w - x,
            {
                let ghost prev = *self;
                let id = match self.cell_variable(x, y, t) {
                    Ok(id) => id,
                    Err(e) => {
                        return Err(e);
                    }
                };
                proof {
                    lemma_row_major(w as int, h as int, y as int, x as int);
                    lemma_div_mod_of_row_major(w as int, y as int, x as int);
                }
                let ghost prev_vars = variables@;
                variables.push(id);
                proof {
                    let n = variables@.len() as int;
                    assert(ids_assigned(prev, prev_vars, t_int));
                    let newkey = prev.key_at(x as int, y as int, t_int);
                    assert forall|k: u64|
                        prev.id_map().contains_key(k) implies #[trigger] self
                        .id_map().contains_key(k) && self.id_map()[k] == prev.id_map()[k] by {
                        if !prev.id_map().contains_key(newkey) {
                            assert(self.id_map() == prev.id_map().insert(newkey, id));
                            assert(k != newkey);
                        }
                    }
                    lemma_ids_assigned_extend(prev, *self, prev_vars, t_int);
                    assert(variables@.drop_last() =~= prev_vars);
                    assert(variables@[n - 1] == id);
                    assert(n - 1 == y * w + x);
                    assert((n - 1) % (self.width as int) == x as int && (n - 1) / (
                    self.width as int) == y as int);
                    assert(self.id_map().contains_key(self.key_at(x as int, y as int, t_int)));
                    assert(self.id_map()[self.key_at(x as int, y as int, t_int)] == id);
                    assert(ids_assigned(*self, variables@, t_int));
                }
                x += 1;
            }
            proof {
                assert(y * w + w == (y + 1) * w) by (nonlinear_arith);
            }
            y += 1;
        }
        proof {
            let ghost ow = old(self).width as int;
            let ghost oh = old(self).height as int;
            assert(h as int * w as int == ow * oh && (y as int) * (w as int) == oh * ow)
                by (nonlinear_arith)
                requires w as int == ow, h as int == oh, y as int == oh;
        }
        Ok(variables)
    }

    /// The number of identifiers handed out so far.
    pub fn variable_count(&self) -> (r: usize)
        requires
            self.wf(),
        ensures
            r == self.next_id - 1,
    {
        (self.next_id - 1) as usize
    }

    /// The extent: width, height and number of time layers.
    pub fn dimensions(&self) -> (r: (usize, usize, usize))
        ensures
            r == (self.width, self.height, self.time_steps),
    {
        (self.width, self.height, self.time_steps)
    }

    /// Usage counts.
    pub fn statistics(&self) -> (r: VariableStatistics)
        requires
            self.wf(),
        ensures
            r.total_variables == self.next_id - 1,
            r.cell_variables == self.next_id - 1,
    {
        let total = self.variable_count();
        VariableStatistics { total_variables: total, cell_variables: total }
    }

    /// Forgets every assignment and starts over from identifier 1.
    pub fn clear(&mut self)
        ensures
            final(self).width == old(self).width,
            final(self).height == old(self).height,
            final(self).time_steps == old(self).time_steps,
            final(self).next_id == 1,
            final(self).id_map() == Map::<u64, i32>::empty(),
            old(self).wf() ==> final(self).wf(),
    {
        self.variable_map.clear();
        self.next_id = 1;
        proof {
            assert(final(self).id_map() =~= Map::<u64, i32>::empty());
        }
    }
}

/// Every entry of `vars` is the identifier that `m` assigned to the cell
/// with that row-major index in time layer `t`.
pub open spec fn ids_assigned(m: VariableManager, vars: Seq<i32>, t: int) -> bool
    decreases vars.len(),
{
    vars.len() == 0 || {
        let k = vars.len() - 1;
        &&& ids_assigned(m, vars.drop_last(), t)
        &&& m.id_map().contains_key(m.key_at(k % (m.width as int), k / (m.width as int), t))
        &&& vars[k] == m.id_map()[m.key_at(k % (m.width as int), k / (m.width as int), t)]
    }
}

/// An assignment record stays valid when the identifier map only grows.
pub proof fn lemma_ids_assigned_extend(m1: VariableManager, m2: VariableManager, vars: Seq<i32>, t: int)
    requires
        ids_assigned(m1, vars, t),
        m2.width == m1.width,
        m2.height == m1.height,
        forall|k: u64|
            m1.id_map().contains_key(k) ==> #[trigger] m2.id_map().contains_key(k)
                && m2.id_map()[k] == m1.id_map()[k],
    ensures
        ids_assigned(m2, vars, t),
    decreases vars.len(),
{
    if vars.len() > 0 {
        lemma_ids_assigned_extend(m1, m2, vars.drop_last(), t);
    }
}

/// Reads one entry of an assignment record.
pub proof fn lemma_ids_assigned_at(m: VariableManager, vars: Seq<i32>, t: int, k: int)
    requires
        ids_assigned(m, vars, t),
        0 <= k < vars.len(),
    ensures
        m.id_map().contains_key(m.key_at(k % (m.width as int), k / (m.width as int), t)),
        vars[k] == m.id_map()[m.key_at(k % (m.width as int), k / (m.width as int), t)],
    decreases vars.len(),
{
    if k < vars.len() - 1 {
        lemma_ids_assigned_at(m, vars.drop_last(), t, k);
        assert(vars.drop_last()[k] == vars[k]);
    }
}

/// Identifiers assigned to one time layer are pairwise distinct.
pub proof fn lemma_ids_distinct(m: VariableManager, vars: Seq<i32>, t: int)
    requires
        m.wf(),
        m.width > 0,
        0 <= t < m.time_steps,
        vars.len() <= (m.width as int) * (m.height as int),
        ids_assigned(m, vars, t),
    ensures
        forall|i: int, j: int|
            0 <= i < vars.len() && 0 <= j < vars.len() && i != j ==> #[trigger] vars[i]
                != #[trigger] vars[j],
{
    let w = m.width as int;
    let h = m.height as int;
    assert forall|i: int, j: int|
        0 <= i < vars.len() && 0 <= j < vars.len() && i != j implies #[trigger] vars[i]
            != #[trigger] vars[j] by {
        let ix = i % w;
        let iy = i / w;
        let jx = j % w;
        let jy = j / w;
        vstd::arithmetic::div_mod::lemma_fundamental_div_mod(i, w);
        vstd::arithmetic::div_mod::lemma_fundamental_div_mod(j, w);
        assert(0 <= iy < h && 0 <= jy < h && !(ix == jx && iy == jy)) by (nonlinear_arith)
            requires
                w > 0,
                0 <= i < w * h,
                0 <= j < w * h,
                i != j,
                i == w * iy + ix,
                j == w * jy + jx,
                0 <= ix < w,
                0 <= jx < w;
        lemma_cell_key_bounds(w, h, m.time_steps as int, ix, iy, t);
        lemma_cell_key_bounds(w, h, m.time_steps as int, jx, jy, t);
        lemma_cell_key_injective(w, h, m.time_steps as int, ix, iy, t, jx, jy, t);
        lemma_ids_assigned_at(m, vars, t, i);
        lemma_ids_assigned_at(m, vars, t, j);
    }
}

/// Counts of the variables a manager has handed out.
#[derive(Debug, Clone)]
pub struct VariableStatistics {
    pub total_variables: usize,
    pub cell_variables: usize,
}

impl VariableStatistics {
    /// A short textual report of the counts.
    pub fn report(&self) -> (r: String)
        ensures
            r@.len() > 0,
    {
        proof {
            reveal_strlit("variables: ");
        }
        let mut s: String = "variables: ".to_owned();
        s.append(crate::textutil::usize_to_string(self.total_variables).as_str());
        s
    }
}

/// Identifier uniqueness: two distinct in-range coordinates never share an
/// identifier, whenever both have been assigned one.
pub proof fn lemma_variable_uniqueness(
    m: VariableManager,
    x1: int,
    y1: int,
    t1: int,
    x2: int,
    y2: int,
    t2: int,
)
    requires
        m.wf(),
        m.in_range(x1, y1, t1),
        m.in_range(x2, y2, t2),
        !(x1 == x2 && y1 == y2 && t1 == t2),
        m.id_map().contains_key(m.key_at(x1, y1, t1)),
        m.id_map().contains_key(m.key_at(x2, y2, t2)),
    ensures
        m.id_map()[m.key_at(x1, y1, t1)] != m.id_map()[m.key_at(x2, y2, t2)],
{
    lemma_cell_key_bounds(m.width as int, m.height as int, m.time_steps as int, x1, y1, t1);
    lemma_cell_key_bounds(m.width as int, m.height as int, m.time_steps as int, x2, y2, t2);
    lemma_cell_key_injective(
        m.width as int,
        m.height as int,
        m.time_steps as int,
        x1,
        y1,
        t1,
        x2,
        y2,
        t2,
    );
}

} // verus!
