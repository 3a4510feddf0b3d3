//! Backend selection behind one interface.

use vstd::prelude::*;
use std::collections::HashMap;
use crate::clauses::{Clause, lits_ok};
use crate::errors::EngineError;
use crate::settings::SolverBackend;
use crate::solver::{SatSolver, SolverOptions, SolverSolution, SolverStatistics};

verus! {

/// A solver of whichever backend the configuration chose. Only the
/// sequential CaDiCaL backend is linked into this build; asking for the
/// portfolio backend reports a backend error.
pub enum UnifiedSatSolver {
    Cadical(SatSolver),
}

impl UnifiedSatSolver {
    pub open spec fn wf(&self) -> bool {
        match self {
            UnifiedSatSolver::Cadical(s) => s.wf(),
        }
    }

    /// The largest variable identifier seen so far.
    pub open spec fn spec_variable_count(&self) -> int {
        match self {
            UnifiedSatSolver::Cadical(s) => s.spec_variable_count(),
        }
    }

    /// The number of clauses added so far.
    pub open spec fn spec_clause_count(&self) -> int {
        match self {
            UnifiedSatSolver::Cadical(s) => s.spec_clause_count(),
        }
    }

    /// The backend's current model, restricted to the variables seen so
    /// far.
    pub open spec fn spec_model_map(&self) -> Map<i32, bool> {
        match self {
            UnifiedSatSolver::Cadical(s) => s.spec_model_map(),
        }
    }

    /// A solver for the requested backend.
    pub fn new(backend: SolverBackend) -> (r: Result<UnifiedSatSolver, EngineError>)
        ensures
            r is Ok <==> backend == SolverBackend::Cadical,
            r matches Ok(s) ==> s.wf(),
    {
        match backend {
            SolverBackend::Cadical => Ok(UnifiedSatSolver::Cadical(SatSolver::new())),
            SolverBackend::Parkissat => Err(
                EngineError::BackendError("portfolio backend is not available".to_owned()),
            ),
        }
    }

    /// Adds one clause; fails on an empty clause, leaving the solver
    /// unchanged.
    pub fn add_clause(&mut self, clause: &Clause) -> (r: Result<(), EngineError>)
        requires
            old(self).wf(),
            lits_ok(clause.literals@),
        ensures
            final(self).wf(),
            r is Ok <==> clause.literals@.len() > 0,
            r is Err ==> r == Result::<(), EngineError>::Err(EngineError::EmptyClause),
            r is Err ==> *final(self) == *old(self),
            r is Ok && old(self).spec_clause_count() < usize::MAX ==> final(self)
                .spec_clause_count() == old(self).spec_clause_count() + 1,
            r is Ok ==> final(self).spec_variable_count() == (if crate::solver::max_var_upto(
                clause.literals@,
                clause.literals@.len() as int,
            ) > old(self).spec_variable_count() {
                crate::solver::max_var_upto(clause.literals@, clause.literals@.len() as int)
            } else {
                old(self).spec_variable_count()
            }),
    {
        match self {
            UnifiedSatSolver::Cadical(solver) => solver.add_clause(clause),
        }
    }

    /// Adds a list of clauses; stops at the first empty one.
    pub fn add_clauses(&mut self, clauses: &[Clause]) -> (r: Result<(), EngineError>)
        requires
            old(self).wf(),
            forall|i: int| 0 <= i < clauses@.len() ==> lits_ok(#[trigger] clauses@[i].literals@),
        ensures
            final(self).wf(),
            r is Ok <==> (forall|i: int|
                0 <= i < clauses@.len() ==> #[trigger] clauses@[i].literals@.len() > 0),
            r is Err ==> r == Result::<(), EngineError>::Err(EngineError::EmptyClause),
    {
        match self {
            UnifiedSatSolver::Cadical(solver) => solver.add_clauses(clauses),
        }
    }

    /// One solver call: `Ok(Some(..))` carries the backend's model, read
    /// out variable by variable; `Ok(None)` means unsatisfiable or given
    /// up. Never fails.
    pub fn solve(&mut self) -> (r: Result<Option<SolverSolution>, EngineError>)
        requires
            old(self).wf(),
        ensures
            final(self).wf(),
            final(self).spec_variable_count() == old(self).spec_variable_count(),
            final(self).spec_clause_count() == old(self).spec_clause_count(),
            r is Ok,
            r matches Ok(opt) && opt matches Some(sol) ==> sol.assignment@ == final(self)
                .spec_model_map(),
            r matches Ok(opt) && opt matches Some(sol) ==> forall|k: i32|
                #[trigger] sol.assignment@.contains_key(k) ==> k >= 1,
    {
        match self {
            UnifiedSatSolver::Cadical(solver) => solver.solve(),
        }
    }

    /// Up to `max_solutions` models, each blocked from later searches by
    /// the clause negating its whole assignment: one blocking clause per
    /// returned model, except possibly for a final model that assigns no
    /// variable. Never fails.
    pub fn solve_multiple(&mut self, max_solutions: usize) -> (r: Result<
        Vec<SolverSolution>,
        EngineError,
    >)
        requires
            old(self).wf(),
        ensures
            final(self).wf(),
            r is Ok,
            r matches Ok(v) ==> v@.len() <= max_solutions,
            r matches Ok(v) ==> (old(self).spec_clause_count() + v@.len() <= usize::MAX ==> (
            final(self).spec_clause_count() == old(self).spec_clause_count() + v@.len() || (
            v@.len() > 0 && v@[v@.len() - 1].assignment@ == Map::<i32, bool>::empty()
                && final(self).spec_clause_count() == old(self).spec_clause_count() + v@.len()
                - 1))),
            r matches Ok(v) ==> forall|j: int, k: i32|
                0 <= j < v@.len() && #[trigger] v@[j].assignment@.contains_key(k) ==> k >= 1,
    {
        match self {
            UnifiedSatSolver::Cadical(solver) => solver.solve_multiple(max_solutions),
        }
    }

    /// Counters of the current run.
    pub fn statistics(&self) -> (r: SolverStatistics)
    {
        match self {
            UnifiedSatSolver::Cadical(solver) => solver.statistics(),
        }
    }

    /// Drops every clause and starts over.
    pub fn reset(&mut self) -> (r: Result<(), EngineError>)
        ensures
            final(self).wf(),
            final(self).spec_variable_count() == 0,
            final(self).spec_clause_count() == 0,
            r is Ok,
    {
        match self {
            UnifiedSatSolver::Cadical(solver) => {
                solver.reset();
                Ok(())
            }
        }
    }

    /// A placeholder consistency check; the deeper check is the
    /// validator's job.
    pub fn check_assignment(&self, assignment: &HashMap<i32, bool>) -> (r: bool)
        ensures
            r,
    {
        match self {
            UnifiedSatSolver::Cadical(solver) => solver.check_assignment(assignment),
        }
    }

    /// The largest variable identifier seen so far.
    pub fn variable_count(&self) -> (r: usize)
        ensures
            r == self.spec_variable_count(),
    {
        match self {
            UnifiedSatSolver::Cadical(solver) => solver.variable_count(),
        }
    }

    /// The number of clauses added so far.
    pub fn clause_count(&self) -> (r: usize)
        ensures
            r == self.spec_clause_count(),
    {
        match self {
            UnifiedSatSolver::Cadical(solver) => solver.clause_count(),
        }
    }

    /// Applies the recognized options.
    pub fn configure(&mut self, options: &SolverOptions) -> (r: Result<(), EngineError>)
        requires
            old(self).wf(),
        ensures
            final(self).wf(),
            r is Ok,
    {
        match self {
            UnifiedSatSolver::Cadical(solver) => {
                solver.configure(options);
                Ok(())
            }
        }
    }

    /// Which backend this solver runs on.
    pub fn backend(&self) -> (r: SolverBackend)
        ensures
            r == SolverBackend::Cadical,
    {
        match self {
            UnifiedSatSolver::Cadical(_) => SolverBackend::Cadical,
        }
    }
}

} // verus!
