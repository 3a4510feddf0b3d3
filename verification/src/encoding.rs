//! Propositional semantics of the clause encoding.
//!
//! An assignment is a total valuation of the positive variable
//! identifiers. The transition relation of one cell is encoded as a family
//! of clauses, one per subset of the cell's neighbors and per polarity of
//! the cell itself; this module defines that family and proves that an
//! assignment satisfies it exactly when the cell's next state follows the
//! Game of Life rule.

use vstd::prelude::*;
use vstd::arithmetic::power2::pow2;
use crate::rules::next_state;

verus! {

/// Whether a literal holds under an assignment: a positive literal asserts
/// its variable, a negative one denies it.
pub open spec fn lit_sat(a: spec_fn(int) -> bool, lit: int) -> bool {
    if lit >= 0 {
        a(lit)
    } else {
        !a(-lit)
    }
}

/// A clause holds when at least one of its literals does.
pub open spec fn clause_sat(a: spec_fn(int) -> bool, c: Seq<int>) -> bool {
    exists|i: int| 0 <= i < c.len() && lit_sat(a, c[i])
}

/// A clause set holds when every clause does.
pub open spec fn clauses_sat(a: spec_fn(int) -> bool, cs: Seq<Seq<int>>) -> bool
    decreases cs.len(),
{
    cs.len() == 0 || (clauses_sat(a, cs.drop_last()) && clause_sat(a, cs.last()))
}

/// Satisfaction distributes over concatenation.
pub proof fn lemma_clauses_sat_concat(a: spec_fn(int) -> bool, s1: Seq<Seq<int>>, s2: Seq<
    Seq<int>,
>)
    ensures
        clauses_sat(a, s1 + s2) == (clauses_sat(a, s1) && clauses_sat(a, s2)),
    decreases s2.len(),
{
    if s2.len() == 0 {
        assert(s1 + s2 =~= s1);
    } else {
        lemma_clauses_sat_concat(a, s1, s2.drop_last());
        assert((s1 + s2).drop_last() =~= s1 + s2.drop_last());
        assert((s1 + s2).last() == s2.last());
    }
}

/// Satisfaction of a clause set reaches every member.
pub proof fn lemma_clauses_sat_at(a: spec_fn(int) -> bool, cs: Seq<Seq<int>>, i: int)
    requires
        clauses_sat(a, cs),
        0 <= i < cs.len(),
    ensures
        clause_sat(a, cs[i]),
    decreases cs.len(),
{
    if i < cs.len() - 1 {
        lemma_clauses_sat_at(a, cs.drop_last(), i);
        assert(cs.drop_last()[i] == cs[i]);
    }
}

/// A clause set is satisfied when every member is.
pub proof fn lemma_clauses_sat_all(a: spec_fn(int) -> bool, cs: Seq<Seq<int>>)
    requires
        forall|i: int| 0 <= i < cs.len() ==> clause_sat(a, #[trigger] cs[i]),
    ensures
        clauses_sat(a, cs),
    decreases cs.len(),
{
    if cs.len() > 0 {
        assert(forall|i: int|
            0 <= i < cs.drop_last().len() ==> clause_sat(a, #[trigger] cs.drop_last()[i]));
        lemma_clauses_sat_all(a, cs.drop_last());
    }
}

/// The subset flags encoded by the binary digits of `m`, least significant
/// digit first.
pub open spec fn flags_of(m: int, n: nat) -> Seq<bool>
    decreases n,
{
    if n == 0 {
        Seq::empty()
    } else {
        seq![m % 2 == 1] + flags_of(m / 2, (n - 1) as nat)
    }
}

/// The number encoding a given flag sequence.
pub open spec fn val_of(f: Seq<bool>) -> int
    decreases f.len(),
{
    if f.len() == 0 {
        0
    } else {
        (if f[0] {
            1int
        } else {
            0int
        }) + 2 * val_of(f.drop_first())
    }
}

/// Every flag sequence is encoded by exactly the number it denotes.
pub proof fn lemma_flags_of_val(f: Seq<bool>)
    ensures
        0 <= val_of(f) < pow2(f.len()),
        flags_of(val_of(f), f.len()) == f,
    decreases f.len(),
{
    vstd::arithmetic::power2::lemma_pow2_pos(f.len());
    if f.len() == 0 {
        assert(flags_of(0, 0) =~= f);
    } else {
        lemma_flags_of_val(f.drop_first());
        let v = val_of(f);
        let rest = val_of(f.drop_first());
        assert(v == (if f[0] { 1int } else { 0int }) + 2 * rest);
        assert(v % 2 == (if f[0] { 1int } else { 0int }) && v / 2 == rest) by (nonlinear_arith)
            requires v == (if f[0] { 1int } else { 0int }) + 2 * rest, 0 <= rest;
        assert(pow2(f.len()) == 2 * pow2((f.len() - 1) as nat)) by {
            vstd::arithmetic::power2::lemma_pow2_unfold(f.len());
        }
        assert(flags_of(v, f.len()) =~= f);
    }
}

/// The number of raised flags.
pub open spec fn popcount(f: Seq<bool>) -> int
    decreases f.len(),
{
    if f.len() == 0 {
        0
    } else {
        popcount(f.drop_last()) + if f.last() {
            1int
        } else {
            0int
        }
    }
}

/// The number of variables of `ns` that an assignment sets true, with
/// multiplicity.
pub open spec fn count_alive(a: spec_fn(int) -> bool, ns: Seq<int>) -> int
    decreases ns.len(),
{
    if ns.len() == 0 {
        0
    } else {
        count_alive(a, ns.drop_last()) + if a(ns.last()) {
            1int
        } else {
            0int
        }
    }
}

/// The flag pattern that an assignment induces on a neighbor list.
pub open spec fn alive_pattern(a: spec_fn(int) -> bool, ns: Seq<int>) -> Seq<bool> {
    Seq::new(ns.len(), |j: int| a(ns[j]))
}

/// The raised flags of the induced pattern count the live neighbors.
pub proof fn lemma_popcount_pattern(a: spec_fn(int) -> bool, ns: Seq<int>)
    ensures
        popcount(alive_pattern(a, ns)) == count_alive(a, ns),
    decreases ns.len(),
{
    if ns.len() > 0 {
        lemma_popcount_pattern(a, ns.drop_last());
        assert(alive_pattern(a, ns).drop_last() =~= alive_pattern(a, ns.drop_last()));
    }
}

/// One clause of a cell's transition family: it rules out the combination
/// in which the cell has polarity `cur`, the neighbors show exactly the
/// pattern `f`, and the successor variable disagrees with the rule.
pub open spec fn cell_clause(c: int, cp: int, cur: bool, ns: Seq<int>, f: Seq<bool>) -> Seq<
    int,
> {
    seq![
        if cur {
            -c
        } else {
            c
        },
        if next_state(cur, popcount(f)) {
            cp
        } else {
            -cp
        },
    ] + Seq::new(ns.len(), |j: int| if f[j] { -ns[j] } else { ns[j] })
}

/// The whole transition family of one cell: two clauses (one per cell
/// polarity) for each subset of the neighbor list, ordered by subset mask.
pub open spec fn cell_family(c: int, cp: int, ns: Seq<int>) -> Seq<Seq<int>> {
    Seq::new(
        2 * pow2(ns.len()),
        |i: int| cell_clause(c, cp, i % 2 == 0, ns, flags_of(i / 2, ns.len())),
    )
}

/// The transition family of a cell is satisfied exactly when the
/// successor variable carries the Game of Life rule applied to the cell
/// variable and the live count of its neighbor list.
pub proof fn lemma_cell_family_characterizes(
    a: spec_fn(int) -> bool,
    c: int,
    cp: int,
    ns: Seq<int>,
)
    requires
        c > 0,
        cp > 0,
        forall|j: int| 0 <= j < ns.len() ==> #[trigger] ns[j] > 0,
    ensures
        clauses_sat(a, cell_family(c, cp, ns)) <==> (a(cp) == next_state(
            a(c),
            count_alive(a, ns),
        )),
{
    let n = ns.len();
    let fam = cell_family(c, cp, ns);
    vstd::arithmetic::power2::lemma_pow2_pos(n);
    if a(cp) == next_state(a(c), count_alive(a, ns)) {
        assert forall|i: int| 0 <= i < fam.len() implies clause_sat(a, #[trigger] fam[i]) by {
            let cur = (i % 2 == 0);
            let f = flags_of(i / 2, n);
            let cl = cell_clause(c, cp, cur, ns, f);
            lemma_flags_len(i / 2, n);
            if cur != a(c) {
                assert(lit_sat(a, cl[0]));
                assert(clause_sat(a, cl));
            } else if f != alive_pattern(a, ns) {
                assert(!(f =~= alive_pattern(a, ns)));
                let j = choose|j: int| 0 <= j < n && f[j] != a(ns[j]);
                assert(lit_sat(a, cl[2 + j]));
                assert(clause_sat(a, cl));
            } else {
                lemma_popcount_pattern(a, ns);
                assert(popcount(f) == count_alive(a, ns));
                assert(lit_sat(a, cl[1]));
                assert(clause_sat(a, cl));
            }
        }
        lemma_clauses_sat_all(a, fam);
    }
    if clauses_sat(a, fam) {
        let p = alive_pattern(a, ns);
        lemma_flags_of_val(p);
        let m = val_of(p);
        let i = 2 * m + if a(c) {
            0int
        } else {
            1int
        };
        assert(0 <= i < 2 * pow2(n));
        assert(i % 2 == (if a(c) { 0int } else { 1int }) && i / 2 == m) by (nonlinear_arith)
            requires i == 2 * m + (if a(c) { 0int } else { 1int }), 0 <= m;
        lemma_clauses_sat_at(a, fam, i);
        let cl = cell_clause(c, cp, a(c), ns, p);
        assert(fam[i] == cl);
        let k = choose|k: int| 0 <= k < cl.len() && lit_sat(a, cl[k]);
        assert(!lit_sat(a, cl[0]));
        assert forall|j: int| 0 <= j < n implies !lit_sat(a, #[trigger] cl[2 + j]) by {
            assert(p[j] == a(ns[j]));
        }
        if k >= 2 {
            assert(!lit_sat(a, cl[2 + (k - 2)]));
        }
        assert(k == 1);
        lemma_popcount_pattern(a, ns);
        assert(lit_sat(a, cl[1]));
        assert(a(cp) == next_state(a(c), count_alive(a, ns)));
    }
}

/// A flag sequence read off a mask has the requested length.
pub proof fn lemma_flags_len(m: int, n: nat)
    ensures
        flags_of(m, n).len() == n,
    decreases n,
{
    if n > 0 {
        lemma_flags_len(m / 2, (n - 1) as nat);
    }
}

} // verus!
