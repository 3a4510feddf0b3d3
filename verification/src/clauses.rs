//! CNF clauses as handed to the SAT backends.

use vstd::prelude::*;

verus! {

/// Every literal is a usable DIMACS literal: nonzero, and negatable
/// without overflow.
pub open spec fn lits_ok(s: Seq<i32>) -> bool {
    forall|i: int| 0 <= i < s.len() ==> #[trigger] s[i] != 0 && s[i] != i32::MIN
}

/// A disjunction of literals; a positive literal names a variable, a
/// negative one its negation.
#[derive(Debug, Clone, PartialEq, Eq)]
pub struct Clause {
    pub literals: Vec<i32>,
}

impl Clause {
    /// The literals as mathematical integers.
    pub open spec fn lits(&self) -> Seq<int> {
        self.literals@.map_values(|l: i32| l as int)
    }

    /// A clause from a literal list.
    pub fn new(literals: Vec<i32>) -> (r: Clause)
        ensures
            r.literals@ == literals@,
    {
        Clause { literals }
    }

    /// A clause of one literal.
    pub fn unit(literal: i32) -> (r: Clause)
        ensures
            r.literals@ =~= seq![literal],
    {
        let mut literals: Vec<i32> = Vec::new();
        literals.push(literal);
        Clause { literals }
    }

    /// A clause of two literals.
    pub fn binary(lit1: i32, lit2: i32) -> (r: Clause)
        ensures
            r.literals@ =~= seq![lit1, lit2],
    {
        let mut literals: Vec<i32> = Vec::new();
        literals.push(lit1);
        literals.push(lit2);
        Clause { literals }
    }

    /// Whether the clause has no literals; such a clause is unsatisfiable
    /// and refused by the backends.
    pub fn is_empty(&self) -> (r: bool)
        ensures
            r == (self.literals@.len() == 0),
    {
        self.literals.len() == 0
    }

    /// Whether the clause has exactly one literal.
    pub fn is_unit(&self) -> (r: bool)
        ensures
            r == (self.literals@.len() == 1),
    {
        self.literals.len() == 1
    }
}

/// The integer literal sequences of a clause list.
pub open spec fn clause_seq(cs: Seq<Clause>) -> Seq<Seq<int>> {
    cs.map_values(|c: Clause| c.lits())
}

/// Every clause is non-empty and every literal usable.
pub open spec fn clauses_ok(cs: Seq<Clause>) -> bool {
    forall|i: int|
        0 <= i < cs.len() ==> (#[trigger] cs[i].literals@.len() > 0 && lits_ok(cs[i].literals@))
}

} // verus!
