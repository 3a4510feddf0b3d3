//! Encoding soundness, read at the grid level: a model of the generated
//! clause set is exactly an assignment whose extracted layers evolve,
//! step by step, onto the pinned target, under every boundary rule.
//!
//! The clause generator and the reference simulator count neighbors the
//! same way: one reading per Moore offset the boundary keeps, with
//! multiplicity. On small wrapped or mirrored grids several offsets land
//! on the same cell; both sides then count that cell once per offset, so
//! the bridge below needs no assumption on the boundary or the extent.

use vstd::prelude::*;
use crate::clauses::{Clause, clause_seq};
use crate::constraints::{
    cell_next_ok, layer_ok_upto, layers_keys_upto, layers_ok_upto, lemma_cnf_characterizes,
    mapped_offset, neighbor_coords, neighbor_id_ints, offset_dx, offset_dy, pinned_ok,
    raw_neighbors_upto,
};
use crate::encoding::{clauses_sat, count_alive};
use crate::grid::{
    gcell, lemma_div_mod_of_row_major, lemma_row_major, nb_ind, spec_count_neighbors,
};
use crate::rules::{next_state, step_cells};
use crate::settings::BoundaryCondition;
use crate::variables::VariableManager;

verus! {

/// The cells of one time layer, as an assignment values them.
pub open spec fn layer_of(a: spec_fn(int) -> bool, m: VariableManager, t: int) -> Seq<bool> {
    Seq::new(
        ((m.height as int) * (m.width as int)) as nat,
        |i: int|
            a(
                m.id_map()[m.key_at(i % (m.width as int), i / (m.width as int), t)] as int,
            ),
    )
}

/// The per-offset indicator sum over the first `k` offsets.
pub open spec fn sum_ind_upto(
    a: spec_fn(int) -> bool,
    m: VariableManager,
    b: BoundaryCondition,
    x: int,
    y: int,
    t: int,
    k: int,
) -> int
    decreases k,
{
    if k <= 0 {
        0
    } else {
        sum_ind_upto(a, m, b, x, y, t, k - 1) + match mapped_offset(
            m.width as int,
            m.height as int,
            b,
            x + offset_dx(k - 1),
            y + offset_dy(k - 1),
        ) {
            Some(c) => if a(m.id_map()[m.key_at(c.0, c.1, t)] as int) {
                1int
            } else {
                0int
            },
            None => 0int,
        }
    }
}

/// The identifiers of a coordinate list, as integers.
pub open spec fn ids_of(m: VariableManager, cs: Seq<(int, int)>, t: int) -> Seq<int> {
    Seq::new(cs.len(), |j: int| m.id_map()[m.key_at(cs[j].0, cs[j].1, t)] as int)
}

/// Counting the live entries of a mapped list equals the per-offset sum.
proof fn lemma_count_raw(
    a: spec_fn(int) -> bool,
    m: VariableManager,
    b: BoundaryCondition,
    x: int,
    y: int,
    t: int,
    k: int,
)
    requires
        0 <= k <= 8,
    ensures
        count_alive(a, ids_of(m, raw_neighbors_upto(m.width as int, m.height as int, b, x, y, k), t))
            == sum_ind_upto(a, m, b, x, y, t, k),
    decreases k,
{
    let w = m.width as int;
    let h = m.height as int;
    if k == 0 {
        assert(ids_of(m, raw_neighbors_upto(w, h, b, x, y, 0), t) =~= Seq::<int>::empty());
    } else {
        lemma_count_raw(a, m, b, x, y, t, k - 1);
        let s0 = raw_neighbors_upto(w, h, b, x, y, k - 1);
        let s1 = raw_neighbors_upto(w, h, b, x, y, k);
        match mapped_offset(w, h, b, x + offset_dx(k - 1), y + offset_dy(k - 1)) {
            Some(c) => {
                assert(s1 =~= s0.push(c));
                assert(ids_of(m, s1, t) =~= ids_of(m, s0, t).push(
                    m.id_map()[m.key_at(c.0, c.1, t)] as int,
                ));
                assert(ids_of(m, s1, t).drop_last() =~= ids_of(m, s0, t));
            }
            None => {
                assert(s1 =~= s0);
                assert(ids_of(m, s1, t) =~= ids_of(m, s0, t));
            }
        }
    }
}

/// One offset's indicator equals the simulator's boundary-mapped read of
/// the extracted layer.
proof fn lemma_offset_ind(
    a: spec_fn(int) -> bool,
    m: VariableManager,
    b: BoundaryCondition,
    x: int,
    y: int,
    t: int,
    dx: int,
    dy: int,
)
    requires
        m.width > 0,
        m.height > 0,
        -1 <= dx <= 1,
        -1 <= dy <= 1,
    ensures
        (match mapped_offset(m.width as int, m.height as int, b, x + dx, y + dy) {
            Some(c) => if a(m.id_map()[m.key_at(c.0, c.1, t)] as int) {
                1int
            } else {
                0int
            },
            None => 0int,
        }) == nb_ind(
            m.width as int,
            m.height as int,
            b,
            layer_of(a, m, t),
            y + dy,
            x + dx,
        ),
{
    let w = m.width as int;
    let h = m.height as int;
    let nx = x + dx;
    let ny = y + dy;
    let layer = layer_of(a, m, t);
    match b {
        BoundaryCondition::Dead => {
            if 0 <= nx < w && 0 <= ny < h {
                lemma_row_major(w, h, ny, nx);
                lemma_div_mod_of_row_major(w, ny, nx);
                assert(gcell(w, layer, ny, nx) == a(
                    m.id_map()[m.key_at(nx, ny, t)] as int,
                ));
            }
        }
        BoundaryCondition::Wrap => {
            let mx = nx % w;
            let my = ny % h;
            vstd::arithmetic::div_mod::lemma_mod_bound(nx, w);
            vstd::arithmetic::div_mod::lemma_mod_bound(ny, h);
            lemma_row_major(w, h, my, mx);
            lemma_div_mod_of_row_major(w, my, mx);
            assert(gcell(w, layer, my, mx) == a(m.id_map()[m.key_at(mx, my, t)] as int));
        }
        BoundaryCondition::Mirror => {
            let mx = crate::grid::mirror_coord(nx, w);
            let my = crate::grid::mirror_coord(ny, h);
            if 0 <= mx < w && 0 <= my < h {
                lemma_row_major(w, h, my, mx);
                lemma_div_mod_of_row_major(w, my, mx);
                assert(gcell(w, layer, my, mx) == a(m.id_map()[m.key_at(mx, my, t)] as int));
            }
        }
    }
}

/// The live count of the clause encoding's neighbor list equals the
/// simulator's neighbor count of the extracted layer, under every
/// boundary rule: both count one reading per kept Moore offset.
pub proof fn lemma_count_bridge(
    a: spec_fn(int) -> bool,
    m: VariableManager,
    b: BoundaryCondition,
    x: int,
    y: int,
    t: int,
)
    requires
        m.width > 0,
        m.height > 0,
    ensures
        count_alive(a, neighbor_id_ints(m, b, x, y, t)) == spec_count_neighbors(
            m.width as int,
            m.height as int,
            b,
            layer_of(a, m, t),
            y,
            x,
        ),
{
    let w = m.width as int;
    let h = m.height as int;
    let raw = raw_neighbors_upto(w, h, b, x, y, 8);
    assert(neighbor_coords(w, h, b, x, y) == raw);
    assert(neighbor_id_ints(m, b, x, y, t) =~= ids_of(m, raw, t));
    lemma_count_raw(a, m, b, x, y, t, 8);
    assert forall|k: int| 0 <= k < 8 implies (match mapped_offset(
        w,
        h,
        b,
        x + offset_dx(k),
        y + offset_dy(k),
    ) {
        Some(c) => if a(m.id_map()[m.key_at(c.0, c.1, t)] as int) {
            1int
        } else {
            0int
        },
        None => 0int,
    }) == nb_ind(w, h, b, layer_of(a, m, t), y + offset_dy(k), x + offset_dx(k)) by {
        lemma_offset_ind(a, m, b, x, y, t, offset_dx(k), offset_dy(k));
    }
    let layer = layer_of(a, m, t);
    assert(offset_dx(0) == -1 && offset_dy(0) == -1);
    assert(offset_dx(1) == 0 && offset_dy(1) == -1);
    assert(offset_dx(2) == 1 && offset_dy(2) == -1);
    assert(offset_dx(3) == -1 && offset_dy(3) == 0);
    assert(offset_dx(4) == 1 && offset_dy(4) == 0);
    assert(offset_dx(5) == -1 && offset_dy(5) == 1);
    assert(offset_dx(6) == 0 && offset_dy(6) == 1);
    assert(offset_dx(7) == 1 && offset_dy(7) == 1);
    assert(sum_ind_upto(a, m, b, x, y, t, 0) == 0);
    assert(sum_ind_upto(a, m, b, x, y, t, 1) == nb_ind(w, h, b, layer, y - 1, x - 1));
    assert(sum_ind_upto(a, m, b, x, y, t, 2) == sum_ind_upto(a, m, b, x, y, t, 1) + nb_ind(
        w,
        h,
        b,
        layer,
        y - 1,
        x,
    ));
    assert(sum_ind_upto(a, m, b, x, y, t, 3) == sum_ind_upto(a, m, b, x, y, t, 2) + nb_ind(
        w,
        h,
        b,
        layer,
        y - 1,
        x + 1,
    ));
    assert(sum_ind_upto(a, m, b, x, y, t, 4) == sum_ind_upto(a, m, b, x, y, t, 3) + nb_ind(
        w,
        h,
        b,
        layer,
        y,
        x - 1,
    ));
    assert(sum_ind_upto(a, m, b, x, y, t, 5) == sum_ind_upto(a, m, b, x, y, t, 4) + nb_ind(
        w,
        h,
        b,
        layer,
        y,
        x + 1,
    ));
    assert(sum_ind_upto(a, m, b, x, y, t, 6) == sum_ind_upto(a, m, b, x, y, t, 5) + nb_ind(
        w,
        h,
        b,
        layer,
        y + 1,
        x - 1,
    ));
    assert(sum_ind_upto(a, m, b, x, y, t, 7) == sum_ind_upto(a, m, b, x, y, t, 6) + nb_ind(
        w,
        h,
        b,
        layer,
        y + 1,
        x,
    ));
    assert(sum_ind_upto(a, m, b, x, y, t, 8) == sum_ind_upto(a, m, b, x, y, t, 7) + nb_ind(
        w,
        h,
        b,
        layer,
        y + 1,
        x + 1,
    ));
    assert(sum_ind_upto(a, m, b, x, y, t, 8) == spec_count_neighbors(w, h, b, layer, y, x));
}

/// Reads one cell of a layer conformance record.
proof fn lemma_layer_ok_at(
    a: spec_fn(int) -> bool,
    m: VariableManager,
    b: BoundaryCondition,
    t: int,
    n: int,
    i: int,
)
    requires
        layer_ok_upto(a, m, b, t, n),
        0 <= i < n,
    ensures
        cell_next_ok(a, m, b, i % (m.width as int), i / (m.width as int), t),
    decreases n,
{
    if i < n - 1 {
        lemma_layer_ok_at(a, m, b, t, n - 1, i);
    }
}

/// Builds a layer conformance record from pointwise facts.
proof fn lemma_layer_ok_all(
    a: spec_fn(int) -> bool,
    m: VariableManager,
    b: BoundaryCondition,
    t: int,
    n: int,
)
    requires
        forall|i: int|
            0 <= i < n ==> #[trigger] cell_next_ok(
                a,
                m,
                b,
                i % (m.width as int),
                i / (m.width as int),
                t,
            ),
    ensures
        layer_ok_upto(a, m, b, t, n),
    decreases n,
{
    if n > 0 {
        lemma_layer_ok_all(a, m, b, t, n - 1);
    }
}

/// One layer's conformance record says exactly that the next extracted
/// layer is the forward step of the current one.
pub proof fn lemma_layer_ok_is_step(
    a: spec_fn(int) -> bool,
    m: VariableManager,
    b: BoundaryCondition,
    t: int,
)
    requires
        m.width > 0,
        m.height > 0,
    ensures
        layer_ok_upto(a, m, b, t, (m.width as int) * (m.height as int)) <==> layer_of(a, m, t + 1)
            == step_cells(m.width as int, m.height as int, b, layer_of(a, m, t)),
{
    let w = m.width as int;
    let h = m.height as int;
    let n = w * h;
    let cur = layer_of(a, m, t);
    let nxt = layer_of(a, m, t + 1);
    let stepped = step_cells(w, h, b, cur);
    assert(w * h == h * w) by (nonlinear_arith);
    assert forall|i: int|
        0 <= i < n implies (cell_next_ok(a, m, b, i % w, i / w, t) <==> nxt[i] == stepped[i]) by {
        assert(0 <= i % w < w && 0 <= i / w < h) by (nonlinear_arith)
            requires w > 0, 0 <= i < w * h;
        lemma_count_bridge(a, m, b, i % w, i / w, t);
        assert(stepped[i] == next_state(cur[i], spec_count_neighbors(w, h, b, cur, i / w, i % w)));
        assert(cur[i] == a(m.id_map()[m.key_at(i % w, i / w, t)] as int));
        assert(nxt[i] == a(m.id_map()[m.key_at(i % w, i / w, t + 1)] as int));
    }
    if layer_ok_upto(a, m, b, t, n) {
        assert forall|i: int| 0 <= i < n implies nxt[i] == stepped[i] by {
            lemma_layer_ok_at(a, m, b, t, n, i);
        }
        assert(nxt =~= stepped);
    }
    if nxt == stepped {
        assert forall|i: int|
            0 <= i < n implies #[trigger] cell_next_ok(a, m, b, i % w, i / w, t) by {
            assert(nxt[i] == stepped[i]);
        }
        lemma_layer_ok_all(a, m, b, t, n);
    }
}

/// Reads one step of a multi-step conformance record.
proof fn lemma_layers_ok_at(
    a: spec_fn(int) -> bool,
    m: VariableManager,
    b: BoundaryCondition,
    tcount: int,
    t: int,
)
    requires
        layers_ok_upto(a, m, b, tcount),
        0 <= t < tcount,
    ensures
        layer_ok_upto(a, m, b, t, (m.width as int) * (m.height as int)),
    decreases tcount,
{
    if t < tcount - 1 {
        lemma_layers_ok_at(a, m, b, tcount - 1, t);
    }
}

/// Builds a multi-step conformance record from per-step facts.
proof fn lemma_layers_ok_all(
    a: spec_fn(int) -> bool,
    m: VariableManager,
    b: BoundaryCondition,
    tcount: int,
)
    requires
        forall|t: int|
            0 <= t < tcount ==> #[trigger] layer_ok_upto(
                a,
                m,
                b,
                t,
                (m.width as int) * (m.height as int),
            ),
    ensures
        layers_ok_upto(a, m, b, tcount),
    decreases tcount,
{
    if tcount > 0 {
        lemma_layers_ok_all(a, m, b, tcount - 1);
    }
}

/// Encoding soundness, grid-level: an assignment satisfies the generated
/// clause set exactly when its final extracted layer is the target and
/// every extracted layer steps forward onto the next, under every
/// boundary rule.
pub proof fn lemma_encoding_soundness(
    a: spec_fn(int) -> bool,
    m: VariableManager,
    b: BoundaryCondition,
    cells: Seq<bool>,
    cs: Seq<Clause>,
    tfin: int,
)
    requires
        m.wf(),
        m.width > 0,
        m.height > 0,
        0 <= tfin,
        cells.len() == (m.width as int) * (m.height as int),
        cs.len() >= cells.len(),
        pinned_ok(m, cells, cs.take(cells.len() as int), tfin),
        clause_seq(cs.skip(cells.len() as int)) == crate::constraints::layers_upto(m, b, tfin),
        layers_keys_upto(m, b, tfin),
    ensures
        clauses_sat(a, clause_seq(cs)) <==> (layer_of(a, m, tfin) == cells && (forall|t: int|
            0 <= t < tfin ==> layer_of(a, m, t + 1) == step_cells(
                m.width as int,
                m.height as int,
                b,
                layer_of(a, m, t),
            ))),
{
    let w = m.width as int;
    let h = m.height as int;
    lemma_cnf_characterizes(a, m, b, cells, cs, tfin);
    assert((forall|i: int|
        0 <= i < cells.len() ==> a(m.id_map()[m.key_at(i % w, i / w, tfin)] as int) == cells[i])
        <==> layer_of(a, m, tfin) == cells) by {
        assert(h * w == cells.len()) by (nonlinear_arith)
            requires cells.len() == w * h;
        if forall|i: int|
            0 <= i < cells.len() ==> a(m.id_map()[m.key_at(i % w, i / w, tfin)] as int)
                == cells[i] {
            assert forall|i: int|
                0 <= i < cells.len() implies #[trigger] layer_of(a, m, tfin)[i] == cells[i] by {
                assert(a(m.id_map()[m.key_at(i % w, i / w, tfin)] as int) == cells[i]);
            }
            assert(layer_of(a, m, tfin) =~= cells);
        }
        if layer_of(a, m, tfin) == cells {
            assert forall|i: int|
                0 <= i < cells.len() implies a(
                m.id_map()[m.key_at(i % w, i / w, tfin)] as int,
            ) == cells[i] by {
                assert(layer_of(a, m, tfin)[i] == cells[i]);
            }
        }
    }
    assert(layers_ok_upto(a, m, b, tfin) <==> (forall|t: int|
        0 <= t < tfin ==> layer_of(a, m, t + 1) == step_cells(w, h, b, layer_of(a, m, t)))) by {
        if layers_ok_upto(a, m, b, tfin) {
            assert forall|t: int|
                0 <= t < tfin implies layer_of(a, m, t + 1) == step_cells(
                w,
                h,
                b,
                layer_of(a, m, t),
            ) by {
                lemma_layers_ok_at(a, m, b, tfin, t);
                lemma_layer_ok_is_step(a, m, b, t);
            }
        }
        if forall|t: int|
            0 <= t < tfin ==> layer_of(a, m, t + 1) == step_cells(w, h, b, layer_of(a, m, t)) {
            assert forall|t: int|
                0 <= t < tfin implies #[trigger] layer_ok_upto(a, m, b, t, w * h) by {
                lemma_layer_ok_is_step(a, m, b, t);
                assert(layer_of(a, m, t + 1) == step_cells(w, h, b, layer_of(a, m, t)));
            }
            lemma_layers_ok_all(a, m, b, tfin);
        }
    }
}

} // verus!
