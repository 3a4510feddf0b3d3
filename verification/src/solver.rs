//! The sequential SAT backend, wrapping the CaDiCaL solver.

use vstd::prelude::*;
use std::collections::HashMap;
use crate::clauses::{Clause, lits_ok};
use crate::errors::EngineError;

verus! {

broadcast use vstd::std_specs::hash::group_hash_axioms;

/// An opaque handle on one CaDiCaL instance. Verus refuses to declare
/// `cadical::Solver` itself (its callback type parameter carries an
/// outside trait bound), so the instance lives behind this hidden field.
#[verifier::external_body]
struct BackendHandle {
    inner: cadical::Solver<cadical::Timeout>,
}

/// Whether the backend holds a model, ready to be queried literal by
/// literal. It does after `solve` returned satisfiable and before any
/// further clause is added.
pub uninterp spec fn model_ready(s: BackendHandle) -> bool;

/// Relies on `cadical::Solver::new`: a fresh solver with no clauses.
#[verifier::external_body]
fn backend_new() -> BackendHandle {
    BackendHandle { inner: cadical::Solver::new() }
}

/// Relies on `cadical::Solver::add_clause`: adds one clause; every literal
/// must be nonzero and distinct from `i32::MIN`.
#[verifier::external_body]
fn backend_add_clause(s: &mut BackendHandle, literals: &Vec<i32>)
    requires
        lits_ok(literals@),
{
    s.inner.add_clause(literals.iter().copied());
}

/// Relies on `cadical::Solver::solve`: `Some(true)` when the added clauses
/// are satisfiable (a model is then available), `Some(false)` when they
/// are unsatisfiable, and `None` when the solver ran out of resources.
#[verifier::external_body]
fn backend_solve(s: &mut BackendHandle) -> (r: Option<bool>)
    ensures
        r == Some(true) ==> model_ready(*final(s)),
{
    s.inner.solve()
}

/// The valuation a handle's current model gives a literal. `value` is a
/// read-only query of the solver state, so its result is a function of
/// the handle value and the literal alone.
pub uninterp spec fn model_val(s: BackendHandle, lit: i32) -> Option<bool>;

/// Relies on `cadical::Solver::value`: the valuation of a literal in the
/// model found by the last `solve`; `None` when the model does not
/// constrain it. The solver state must be satisfiable.
#[verifier::external_body]
fn backend_value(s: &BackendHandle, lit: i32) -> (r: Option<bool>)
    requires
        model_ready(*s),
        lit != 0,
        lit != i32::MIN,
    ensures
        r == model_val(*s, lit),
{
    s.inner.value(lit)
}

/// The model of a handle, read out variable by variable over `1..=n`:
/// exactly the variables the model constrains, with their values.
spec fn model_map_upto(s: BackendHandle, n: int) -> Map<i32, bool>
    decreases n,
{
    if n <= 0 {
        Map::empty()
    } else {
        let m = model_map_upto(s, n - 1);
        if n <= i32::MAX {
            match model_val(s, n as i32) {
                Some(v) => m.insert(n as i32, v),
                None => m,
            }
        } else {
            m
        }
    }
}

/// The absolute value of a literal.
pub open spec fn abs_lit(l: i32) -> int {
    if l < 0 {
        -(l as int)
    } else {
        l as int
    }
}

/// The largest absolute literal among the first `n` of a clause.
pub open spec fn max_var_upto(s: Seq<i32>, n: int) -> int
    decreases n,
{
    if n <= 0 {
        0
    } else {
        let rest = max_var_upto(s, n - 1);
        if abs_lit(s[n - 1]) > rest {
            abs_lit(s[n - 1])
        } else {
            rest
        }
    }
}

/// The literals of the clause that rules out exactly one assignment:
/// for each assigned variable of `1..=n` in increasing order, the
/// negation of its assigned polarity.
pub open spec fn blocking_lits_upto(assignment: Map<i32, bool>, n: int) -> Seq<i32>
    decreases n,
{
    if n <= 0 {
        Seq::empty()
    } else {
        blocking_lits_upto(assignment, n - 1) + (if n <= i32::MAX && assignment.contains_key(
            n as i32,
        ) {
            seq![
                if assignment[n as i32] {
                    (0 - n) as i32
                } else {
                    n as i32
                },
            ]
        } else {
            Seq::<i32>::empty()
        })
    }
}

/// A model map read out over `1..=n` only holds keys in that range.
proof fn lemma_model_map_keys(s: BackendHandle, n: int, k: i32)
    requires
        model_map_upto(s, n).contains_key(k),
    ensures
        1 <= k as int <= n,
    decreases n,
{
    if n > 0 {
        if !(n <= i32::MAX && k as int == n) {
            lemma_model_map_keys(s, n - 1, k);
        }
    }
}

/// An empty blocking clause over keys bounded by `n` means the
/// assignment holds nothing at all.
proof fn lemma_blocking_empty(assignment: Map<i32, bool>, n: int)
    requires
        blocking_lits_upto(assignment, n).len() == 0,
        forall|k: i32| #[trigger] assignment.contains_key(k) ==> 1 <= k as int <= n,
    ensures
        assignment =~= Map::<i32, bool>::empty(),
    decreases n,
{
    if n <= 0 {
        assert forall|k: i32| !(#[trigger] assignment.contains_key(k)) by {}
    } else {
        assert(blocking_lits_upto(assignment, n - 1).len() == 0);
        if n <= i32::MAX && assignment.contains_key(n as i32) {
            assert(blocking_lits_upto(assignment, n).len() >= 1);
        }
        assert forall|k: i32| #[trigger] assignment.contains_key(k) implies 1 <= k as int <= n
            - 1 by {
            if k as int == n {
                assert(n <= i32::MAX);
            }
        }
        lemma_blocking_empty(assignment, n - 1);
    }
}

/// The verdict and model of one satisfiable solver call.
#[derive(Debug, Clone)]
pub struct SolverSolution {
    /// Truth value per variable identifier; variables the model leaves
    /// free read as false.
    pub assignment: HashMap<i32, bool>,
    /// Wall time of the call, in milliseconds.
    pub solve_time_ms: u64,
}

/// Counters describing a solving run.
#[derive(Debug, Clone)]
pub struct SolverStatistics {
    pub variable_count: usize,
    pub clause_count: usize,
    pub solve_time_ms: u64,
    pub result: SolverResultType,
}

#[derive(Debug, Clone, PartialEq, Eq, Structural)]
pub enum SolverResultType {
    Satisfiable,
    Unsatisfiable,
    Timeout,
    Error,
}

/// Configuration handed to a backend.
#[derive(Debug, Clone)]
pub struct SolverOptions {
    pub num_threads: Option<usize>,
    pub enable_preprocessing: bool,
    pub verbosity: u32,
    pub timeout_ms: Option<u64>,
    pub random_seed: Option<u64>,
}

impl Default for SolverOptions {
    /// One solver thread is chosen by the backend; preprocessing on.
    fn default() -> (r: SolverOptions)
        ensures
            r.num_threads.is_none(),
            r.enable_preprocessing,
            r.verbosity == 0,
            r.timeout_ms.is_none(),
            r.random_seed.is_none(),
    {
        SolverOptions {
            num_threads: None,
            enable_preprocessing: true,
            verbosity: 0,
            timeout_ms: None,
            random_seed: None,
        }
    }
}

/// The sequential backend: an incremental CaDiCaL instance together with
/// the clause and variable counters the engine reports.
pub struct SatSolver {
    solver: BackendHandle,
    variable_count: usize,
    clause_count: usize,
    timeout_ms: Option<u64>,
    model_available: bool,
}

impl SatSolver {
    /// The model flag tracks the backend's state.
    pub closed spec fn wf(&self) -> bool {
        self.model_available ==> model_ready(self.solver)
    }

    /// The largest variable identifier seen in any added clause.
    pub closed spec fn spec_variable_count(&self) -> int {
        self.variable_count as int
    }

    /// The number of clauses added so far.
    pub closed spec fn spec_clause_count(&self) -> int {
        self.clause_count as int
    }

    /// The backend's current model, restricted to the variables seen so
    /// far: exactly the variables the model constrains, with their
    /// values. Abstract to callers; `solve` pins its result to it.
    pub closed spec fn spec_model_map(&self) -> Map<i32, bool> {
        model_map_upto(self.solver, self.variable_count as int)
    }

    /// A fresh solver with no clauses.
    pub fn new() -> (r: SatSolver)
        ensures
            r.wf(),
            r.spec_variable_count() == 0,
            r.spec_clause_count() == 0,
    {
        SatSolver {
            solver: backend_new(),
            variable_count: 0,
            clause_count: 0,
            timeout_ms: None,
            model_available: false,
        }
    }

    /// Records a per-solve budget. The sequential backend does not
    /// interrupt itself, so the budget is informational.
    pub fn set_timeout(&mut self, timeout_ms: u64)
        requires
            old(self).wf(),
        ensures
            final(self).wf(),
            final(self).spec_variable_count() == old(self).spec_variable_count(),
            final(self).spec_clause_count() == old(self).spec_clause_count(),
    {
        self.timeout_ms = Some(timeout_ms);
    }

    /// Adds one clause. Fails on an empty clause; the caller must hand in
    /// usable literals.
    pub fn add_clause(&mut self, clause: &Clause) -> (r: Result<(), EngineError>)
        requires
            old(self).wf(),
            lits_ok(clause.literals@),
        ensures
            final(self).wf(),
            r is Ok <==> clause.literals@.len() > 0,
            r is Err ==> r == Result::<(), EngineError>::Err(EngineError::EmptyClause),
            r is Err ==> *final(self) == *old(self),
            r is Ok && old(self).spec_clause_count() < usize::MAX ==> final(self)
                .spec_clause_count() == old(self).spec_clause_count() + 1,
            r is Ok ==> final(self).spec_variable_count() == (if max_var_upto(
                clause.literals@,
                clause.literals@.len() as int,
            ) > old(self).spec_variable_count() {
                max_var_upto(clause.literals@, clause.literals@.len() as int)
            } else {
                old(self).spec_variable_count()
            }),
            final(self).spec_variable_count() >= old(self).spec_variable_count(),
    {
        if clause.literals.len() == 0 {
            return Err(EngineError::EmptyClause);
        }
        let n = clause.literals.len();
        let mut i: usize = 0;
        while i < n
            invariant
                i <= n,
                n == clause.literals@.len(),
                lits_ok(clause.literals@),
                self.wf(),
                self.solver == old(self).solver,
                self.model_available == old(self).model_available,
                self.clause_count == old(self).clause_count,
                self.timeout_ms == old(self).timeout_ms,
                self.variable_count as int == (if max_var_upto(clause.literals@, i as int) > old(
                    self,
                ).spec_variable_count() {
                    max_var_upto(clause.literals@, i as int)
                } else {
                    old(self).spec_variable_count()
                }),
            decreases n - i,
        {
            let lit = clause.literals[i];
            let var = if lit < 0 {
                (-lit) as usize
            } else {
                lit as usize
            };
            if var > self.variable_count {
                self.variable_count = var;
            }
            i += 1;
        }
        backend_add_clause(&mut self.solver, &clause.literals);
        self.model_available = false;
        if self.clause_count < usize::MAX {
            self.clause_count = self.clause_count + 1;
        }
        Ok(())
    }

    /// Adds a list of clauses; stops at the first empty one.
    pub fn add_clauses(&mut self, clauses: &[Clause]) -> (r: Result<(), EngineError>)
        requires
            old(self).wf(),
            forall|i: int| 0 <= i < clauses@.len() ==> lits_ok(#[trigger] clauses@[i].literals@),
        ensures
            final(self).wf(),
            r is Ok <==> (forall|i: int|
                0 <= i < clauses@.len() ==> #[trigger] clauses@[i].literals@.len() > 0),
            r is Err ==> r == Result::<(), EngineError>::Err(EngineError::EmptyClause),
    {
        let n = clauses.len();
        let mut i: usize = 0;
        while i < n
            invariant
                i <= n,
                n == clauses@.len(),
                self.wf(),
                forall|j: int| 0 <= j < clauses@.len() ==> lits_ok(
                    #[trigger] clauses@[j].literals@,
                ),
                forall|j: int| 0 <= j < i ==> #[trigger] clauses@[j].literals@.len() > 0,
            decreases n - i,
        {
            match self.add_clause(&clauses[i]) {
                Ok(()) => {}
                Err(e) => {
                    return Err(e);
                }
            }
            i += 1;
        }
        Ok(())
    }

    /// One solver call. `Ok(Some(..))` carries the backend's model, read
    /// out variable by variable; `Ok(None)` means the clause set is
    /// unsatisfiable or the solver gave up. Never fails.
    pub fn solve(&mut self) -> (r: Result<Option<SolverSolution>, EngineError>)
        requires
            old(self).wf(),
        ensures
            final(self).wf(),
            final(self).spec_variable_count() == old(self).spec_variable_count(),
            final(self).spec_clause_count() == old(self).spec_clause_count(),
            r is Ok,
            r matches Ok(opt) && opt matches Some(sol) ==> sol.assignment@ == final(self)
                .spec_model_map(),
            r matches Ok(opt) && opt matches Some(sol) ==> forall|k: i32|
                #[trigger] sol.assignment@.contains_key(k) ==> k >= 1,
    {
        let start = now_millis();
        let verdict = backend_solve(&mut self.solver);
        let elapsed = now_millis().saturating_sub(start);
        match verdict {
            Some(true) => {
                self.model_available = true;
                let assignment = self.extract_assignment();
                Ok(Some(SolverSolution { assignment, solve_time_ms: elapsed }))
            }
            _ => {
                self.model_available = false;
                Ok(None)
            }
        }
    }

    /// Reads the whole model of the last satisfiable call: exactly the
    /// constrained variables among `1..=variable_count`, with their
    /// values. Every key is a positive variable identifier.
    fn extract_assignment(&self) -> (r: HashMap<i32, bool>)
        requires
            self.wf(),
            self.model_available,
        ensures
            r@ == self.spec_model_map(),
            forall|k: i32| #[trigger] r@.contains_key(k) ==> k >= 1,
    {
        let mut assignment: HashMap<i32, bool> = HashMap::new();
        let n = self.variable_count;
        let mut i: usize = 0;
        proof {
            assert(assignment@ =~= model_map_upto(self.solver, 0));
        }
        while i < n
            invariant
                i <= n,
                n == self.variable_count,
                self.wf(),
                self.model_available,
                assignment@ == model_map_upto(self.solver, i as int),
                forall|k: i32| #[trigger] assignment@.contains_key(k) ==> k >= 1,
            decreases n - i,
        {
            if i < (i32::MAX as usize) {
                let v = (i + 1) as i32;
                if let Some(value) = backend_value(&self.solver, v) {
                    assignment.insert(v, value);
                }
            }
            i += 1;
        }
        assignment
    }

    /// Repeated solving with blocking clauses: returns up to
    /// `max_solutions` models, each excluded from the later searches by
    /// the clause that negates its whole assignment in increasing
    /// variable order, so one blocking clause is added per returned
    /// model, except possibly for the last. Stops early when the clause
    /// set becomes unsatisfiable or the solver gives up, and also when a
    /// model assigns no variable at all: such a model is the only one
    /// distinguishable on the variables seen so far, so the enumeration
    /// is complete. Never fails.
    pub fn solve_multiple(&mut self, max_solutions: usize) -> (r: Result<
        Vec<SolverSolution>,
        EngineError,
    >)
        requires
            old(self).wf(),
        ensures
            final(self).wf(),
            r is Ok,
            r matches Ok(v) ==> v@.len() <= max_solutions,
            r matches Ok(v) ==> (old(self).spec_clause_count() + v@.len() <= usize::MAX ==> (
            final(self).spec_clause_count() == old(self).spec_clause_count() + v@.len() || (
            v@.len() > 0 && v@[v@.len() - 1].assignment@ == Map::<i32, bool>::empty()
                && final(self).spec_clause_count() == old(self).spec_clause_count() + v@.len()
                - 1))),
            r matches Ok(v) ==> forall|j: int, k: i32|
                0 <= j < v@.len() && #[trigger] v@[j].assignment@.contains_key(k) ==> k >= 1,
    {
        let mut solutions: Vec<SolverSolution> = Vec::new();
        let start = now_millis();
        let mut i: usize = 0;
        while i < max_solutions
            invariant
                i <= max_solutions,
                solutions@.len() <= i,
                self.wf(),
                old(self).spec_clause_count() + solutions@.len() <= usize::MAX ==> self
                    .spec_clause_count() == old(self).spec_clause_count() + solutions@.len(),
                forall|j: int, k: i32|
                    0 <= j < solutions@.len() && #[trigger] solutions@[j].assignment@.contains_key(
                        k,
                    ) ==> k >= 1,
            decreases max_solutions - i,
        {
            let verdict = match self.solve() {
                Ok(v) => v,
                Err(e) => {
                    proof {
                        assert(false);
                    }
                    return Err(e);
                }
            };
            match verdict {
                Some(solution) => {
                    let blocking = self.blocking_clause(&solution.assignment);
                    let elapsed = now_millis().saturating_sub(start);
                    let ghost prev = solutions@;
                    solutions.push(
                        SolverSolution {
                            assignment: solution.assignment,
                            solve_time_ms: elapsed,
                        },
                    );
                    proof {
                        assert forall|j: int, k: i32|
                            0 <= j < solutions@.len()
                                && #[trigger] solutions@[j].assignment@.contains_key(k)
                                implies k >= 1 by {
                            if j < prev.len() {
                                assert(solutions@[j] == prev[j]);
                            }
                        }
                    }
                    if blocking.is_empty() {
                        // The model assigns no variable: no further model
                        // can differ on the variables seen so far.
                        proof {
                            assert(blocking_lits_upto(
                                solutions@.last().assignment@,
                                self.variable_count as int,
                            ).len() == 0);
                            assert forall|k: i32|
                                #[trigger] solutions@.last().assignment@.contains_key(k)
                                implies 1 <= k as int <= self.variable_count as int by {
                                lemma_model_map_keys(self.solver, self.variable_count as int, k);
                            }
                            lemma_blocking_empty(
                                solutions@.last().assignment@,
                                self.variable_count as int,
                            );
                        }
                        return Ok(solutions);
                    }
                    match self.add_clause(&blocking) {
                        Ok(()) => {}
                        Err(e) => {
                            proof {
                                assert(false);
                            }
                            return Err(e);
                        }
                    }
                }
                None => {
                    return Ok(solutions);
                }
            }
            i += 1;
        }
        Ok(solutions)
    }

    /// The clause that rules out exactly the given assignment: for each
    /// assigned variable of `1..=variable_count` in increasing order, the
    /// negation of its assigned polarity, and nothing else.
    fn blocking_clause(&self, assignment: &HashMap<i32, bool>) -> (r: Clause)
        requires
            forall|k: i32| #[trigger] assignment@.contains_key(k) ==> k >= 1,
        ensures
            r.literals@ == blocking_lits_upto(assignment@, self.variable_count as int),
            lits_ok(r.literals@),
    {
        let mut literals: Vec<i32> = Vec::new();
        let n = self.variable_count;
        let mut i: usize = 0;
        proof {
            assert(literals@ =~= blocking_lits_upto(assignment@, 0));
        }
        while i < n
            invariant
                i <= n,
                n == self.variable_count,
                forall|k: i32| #[trigger] assignment@.contains_key(k) ==> k >= 1,
                literals@ == blocking_lits_upto(assignment@, i as int),
                lits_ok(literals@),
            decreases n - i,
        {
            let ghost pre = literals@;
            if i < (i32::MAX as usize) {
                let v = (i + 1) as i32;
                if let Some(value) = assignment.get(&v) {
                    let lit: i32 = if *value {
                        -v
                    } else {
                        v
                    };
                    literals.push(lit);
                    proof {
                        assert forall|j: int|
                            0 <= j < literals@.len() implies #[trigger] literals@[j] != 0
                            && literals@[j] != i32::MIN by {
                            if j < pre.len() {
                                assert(literals@[j] == pre[j]);
                            }
                        }
                        assert(literals@ =~= pre + seq![lit]);
                    }
                } else {
                    proof {
                        assert(literals@ =~= pre + Seq::<i32>::empty());
                    }
                }
            }
            proof {
                assert(literals@ == blocking_lits_upto(assignment@, i as int + 1));
            }
            i += 1;
        }
        Clause { literals }
    }

    /// A placeholder consistency check; the deeper check is the
    /// validator's job.
    pub fn check_assignment(&self, _assignment: &HashMap<i32, bool>) -> (r: bool)
        ensures
            r,
    {
        true
    }

    /// The largest variable identifier seen so far.
    pub fn variable_count(&self) -> (r: usize)
        ensures
            r == self.spec_variable_count(),
    {
        self.variable_count
    }

    /// The number of clauses added so far.
    pub fn clause_count(&self) -> (r: usize)
        ensures
            r == self.spec_clause_count(),
    {
        self.clause_count
    }

    /// Counters of the current run; verdict and time are filled by the
    /// caller that watched the run.
    pub fn statistics(&self) -> (r: SolverStatistics)
        ensures
            r.variable_count == self.spec_variable_count(),
            r.clause_count == self.spec_clause_count(),
    {
        SolverStatistics {
            variable_count: self.variable_count,
            clause_count: self.clause_count,
            solve_time_ms: 0,
            result: SolverResultType::Error,
        }
    }

    /// Applies the recognized options; the sequential backend only honors
    /// the timeout record.
    pub fn configure(&mut self, options: &SolverOptions)
        requires
            old(self).wf(),
        ensures
            final(self).wf(),
            final(self).spec_variable_count() == old(self).spec_variable_count(),
            final(self).spec_clause_count() == old(self).spec_clause_count(),
    {
        if let Some(timeout_ms) = options.timeout_ms {
            self.set_timeout(timeout_ms);
        }
    }

    /// Drops every clause and starts over.
    pub fn reset(&mut self)
        ensures
            final(self).wf(),
            final(self).spec_variable_count() == 0,
            final(self).spec_clause_count() == 0,
    {
        self.solver = backend_new();
        self.variable_count = 0;
        self.clause_count = 0;
        self.model_available = false;
    }
}

/// Relies on `std::time::SystemTime::now`: the wall clock, read as whole
/// milliseconds since the epoch.
#[verifier::external_body]
pub(crate) fn now_millis() -> u64 {
    std::time::SystemTime::now().duration_since(std::time::UNIX_EPOCH).map(
        |d| d.as_millis() as u64,
    ).unwrap_or(0)
}

} // verus!
