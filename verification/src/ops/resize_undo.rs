//! Undoing a resize of the grid: the operations of its undo chunk put the
//! dropped nodes back one by one and connect the dropped edges again.

use vstd::prelude::*;

use crate::graph::{edge_views, spec_in_bounds, Edge, Graph, GraphOp, Node};
use crate::ops::apply::{
    add_views, cell_on_grid, dangling, indices_where, is_resize, keyed_by_id, kept_nodes, lemma_add_views_agree,
    lemma_entry_filtered, lemma_filtered_entry, lemma_indices_where, lemma_reconnect_chain, off_grid, same_content,
    undoes_resize, fresh_node, inline_errors, is_node_place, is_output_set_side, is_param_set_side, is_set_label, is_set_state,
    lemma_sides_from_all, lemma_sides_phase, node_failure, node_piece_failure, node_place_step, op_step, restore_all_len,
    restore_len, restores_node, restores_nodes, run_ops, same_node, RunState,
};
use crate::piece_registry::PieceRegistry;
use crate::ops::auto_wire::reconnects;
use crate::ops::pruning::keep_edges;
use crate::types::{grid_lt, GridPos, TileSide};

verus! {

/// The states of a run from index `a` to index `b` run the operations
/// between them.
pub(crate) proof fn lemma_run_slice<F: Fn(&str, &str, &serde_json::Value) -> bool>(
    reg: PieceRegistry,
    f: F,
    ops: Seq<GraphOp>,
    ss: Seq<RunState>,
    a: int,
    b: int,
)
    requires
        run_ops(reg, f, ops, ss),
        0 <= a <= b <= ops.len(),
    ensures
        run_ops(reg, f, ops.subrange(a, b), ss.subrange(a, b + 1)),
{
    let sub = ops.subrange(a, b);
    let st = ss.subrange(a, b + 1);
    assert forall|i: int| #![trigger sub[i]] 0 <= i < sub.len() implies op_step(reg, f, st[i], sub[i], st[i + 1]) by {
        assert(sub[i] == ops[a + i]);
        assert(st[i] == ss[a + i]);
        assert(st[i + 1] == ss[a + i + 1]);
    }
}

/// Running the operations that put node `n` back at the empty cell `p`
/// without an error places a node with the same content and changes
/// nothing else.
#[verifier::spinoff_prover]
proof fn lemma_restore_node_run<F: Fn(&str, &str, &serde_json::Value) -> bool>(
    reg: PieceRegistry,
    f: F,
    u: Seq<GraphOp>,
    ss: Seq<RunState>,
    p: GridPos,
    n: Node,
)
    requires
        run_ops(reg, f, u, ss),
        forall|j: int| 0 <= j < ss.len() ==> #[trigger] ss[j].errors == ss[0].errors,
        restores_node(u, p, n),
        n.input_sides.keys_sorted(),
        n.input_sides.key_seq().len() == n.input_sides.value_seq().len(),
        spec_in_bounds(ss[0].graph, p),
        !ss[0].graph.nodes.as_map().contains_key(p),
    ensures
        ({
            let g = ss[0].graph;
            let h = ss.last().graph;
            &&& h.nodes.as_map().dom() == g.nodes.as_map().dom().insert(p)
            &&& same_node(h.nodes.as_map()[p], n)
            &&& forall|q: GridPos|
                q != p && #[trigger] g.nodes.as_map().contains_key(q) ==> h.nodes.as_map()[q] == g.nodes.as_map()[q]
            &&& h.edges.as_map() == g.edges.as_map()
            &&& h.name == g.name
            &&& h.cols == g.cols
            &&& h.rows == g.rows
        }),
{
    let g1 = ss[0].graph;
    let r = restore_len(n) as int;
    let a: int = if n.label is Some {
        1
    } else {
        0
    };
    let b: int = if n.node_state is Some {
        1
    } else {
        0
    };
    let k: int = n.input_sides.key_seq().len() as int;
    let c: int = if n.output_side is Some {
        1
    } else {
        0
    };
    // Placing the node again.
    assert(op_step(reg, f, ss[0], u[0], ss[1]));
    assert(is_node_place(u[0], p, n.piece_id, n.inline_params.as_map()));
    let s_a = ss[1];
    match u[0] {
        GraphOp::NodePlace { position, piece_id, inline_params } => {
            let oks = choose|oks: Seq<bool>|
                node_place_step(
                    reg,
                    f,
                    g1,
                    position,
                    piece_id,
                    inline_params,
                    oks,
                    s_a.graph,
                    ss[0].errors,
                    s_a.errors,
                    ss[0].outcome,
                    s_a.outcome,
                    ss[0].chunks,
                    s_a.chunks,
                );
            assert(reg.defs().contains_key(piece_id@)) by {
                if !reg.defs().contains_key(piece_id@) {
                    assert(s_a.errors.len() == ss[0].errors.len() + 1);
                }
            }
            let errs = inline_errors(
                reg.defs()[piece_id@],
                p,
                inline_params.key_seq(),
                oks,
                inline_params.key_seq().len(),
            );
            assert(errs.len() == 0) by {
                if errs.len() > 0 {
                    assert((ss[0].errors + errs).len() == ss[0].errors.len() + errs.len());
                }
            }
        },
        _ => {},
    }
    let n1 = s_a.graph.nodes.as_map()[p];
    assert(fresh_node(n1, n.piece_id, n.inline_params.as_map()));
    assert(s_a.graph.nodes.as_map().dom() =~= g1.nodes.as_map().dom().insert(p));
    // The label.
    let s_b = ss[1 + a];
    if a == 1 {
        assert(op_step(reg, f, ss[1], u[1], ss[2]));
        assert(is_set_label(u[1], p, n.label));
        assert(node_failure(s_a.graph, "node_set_label"@, p) is None);
    }
    assert(s_b.graph.nodes.as_map().dom() == s_a.graph.nodes.as_map().dom()) by {
        if a == 1 {
            assert(s_b.graph.nodes.as_map().dom() =~= s_a.graph.nodes.as_map().dom());
        }
    }
    // The state.
    let s_c = ss[1 + a + b];
    if b == 1 {
        assert(op_step(reg, f, ss[1 + a], u[1 + a], ss[1 + a + 1]));
        assert(is_set_state(u[1 + a], p, n.node_state));
        assert(node_failure(s_b.graph, "node_set_state"@, p) is None);
    }
    assert(s_c.graph.nodes.as_map().dom() == s_b.graph.nodes.as_map().dom()) by {
        if b == 1 {
            assert(s_c.graph.nodes.as_map().dom() =~= s_b.graph.nodes.as_map().dom());
        }
    }
    let nc = s_c.graph.nodes.as_map()[p];
    assert(nc.piece_id == n.piece_id);
    assert(nc.inline_params.as_map() == n.inline_params.as_map());
    assert(nc.input_sides.as_map() == Map::<Seq<char>, TileSide>::empty());
    assert(nc.output_side is None);
    assert(nc.label == n.label);
    assert(nc.node_state == n.node_state);
    assert(reg.defs().contains_key(nc.piece_id@));
    // The sides.
    lemma_sides_phase(reg, f, u, ss, 1 + a + b, p, n, k);
    lemma_sides_from_all(n.input_sides);
    let s_d = ss[1 + a + b + k];
    let nd = s_d.graph.nodes.as_map()[p];
    // The output side.
    let s_e = ss[r];
    if c == 1 {
        assert(op_step(reg, f, ss[1 + a + b + k], u[1 + a + b + k], ss[1 + a + b + k + 1]));
        assert(is_output_set_side(u[1 + a + b + k], p, n.output_side->0));
        assert(node_piece_failure(reg, s_d.graph, "output_set_side"@, p) is None);
        assert(reg.defs()[nd.piece_id@].output_type is Some) by {
            if reg.defs()[nd.piece_id@].output_type is None {
                assert(s_e.errors.len() == s_d.errors.len() + 1);
            }
        }
    }
    assert(ss.last() == s_e);
    assert(same_node(s_e.graph.nodes.as_map()[p], n));
    assert(s_e.graph.nodes.as_map().dom() =~= g1.nodes.as_map().dom().insert(p));
    assert forall|q: GridPos| q != p && #[trigger] g1.nodes.as_map().contains_key(q) implies s_e.graph.nodes.as_map()[q]
        == g1.nodes.as_map()[q] by {
        assert(s_a.graph.nodes.as_map()[q] == g1.nodes.as_map()[q]);
        assert(s_c.graph.nodes.as_map()[q] == s_a.graph.nodes.as_map()[q]) by {
            if a == 1 {
                assert(ss[2].graph.nodes.as_map()[q] == s_a.graph.nodes.as_map()[q]);
            }
            if b == 1 {
                assert(ss[1 + a + 1].graph.nodes.as_map()[q] == s_b.graph.nodes.as_map()[q]);
            }
        }
        assert(s_c.graph.nodes.as_map().contains_key(q));
    }
}

/// Running operations that put node `n` back at the empty cell `p`, from
/// index `start`, without an error, places a node with the same content
/// and changes nothing else.
proof fn lemma_restore_node<F: Fn(&str, &str, &serde_json::Value) -> bool>(
    reg: PieceRegistry,
    f: F,
    ops: Seq<GraphOp>,
    ss: Seq<RunState>,
    start: int,
    p: GridPos,
    n: Node,
)
    requires
        run_ops(reg, f, ops, ss),
        forall|j: int| 0 <= j < ss.len() ==> #[trigger] ss[j].errors == ss[0].errors,
        0 <= start,
        start + restore_len(n) <= ops.len(),
        restores_node(ops.subrange(start, start + restore_len(n)), p, n),
        n.input_sides.keys_sorted(),
        n.input_sides.key_seq().len() == n.input_sides.value_seq().len(),
        spec_in_bounds(ss[start].graph, p),
        !ss[start].graph.nodes.as_map().contains_key(p),
    ensures
        ({
            let g = ss[start].graph;
            let h = ss[start + restore_len(n)].graph;
            &&& h.nodes.as_map().dom() == g.nodes.as_map().dom().insert(p)
            &&& same_node(h.nodes.as_map()[p], n)
            &&& forall|q: GridPos|
                q != p && #[trigger] g.nodes.as_map().contains_key(q) ==> h.nodes.as_map()[q] == g.nodes.as_map()[q]
            &&& h.edges.as_map() == g.edges.as_map()
            &&& h.name == g.name
            &&& h.cols == g.cols
            &&& h.rows == g.rows
        }),
{
    let r = restore_len(n) as int;
    lemma_run_slice(reg, f, ops, ss, start, start + r);
    let st = ss.subrange(start, start + r + 1);
    assert forall|j: int| 0 <= j < st.len() implies #[trigger] st[j].errors == st[0].errors by {
        assert(st[j] == ss[start + j]);
    }
    lemma_restore_node_run(reg, f, ops.subrange(start, start + r), st, p, n);
    assert(st.last() == ss[start + r]);
}

/// Running operations that put the nodes `ns` back at the distinct empty
/// cells `ps`, from index `start`, without an error, places nodes with the
/// same content and changes nothing else.
#[verifier::spinoff_prover]
proof fn lemma_restore_nodes<F: Fn(&str, &str, &serde_json::Value) -> bool>(
    reg: PieceRegistry,
    f: F,
    ops: Seq<GraphOp>,
    ss: Seq<RunState>,
    start: int,
    ps: Seq<GridPos>,
    ns: Seq<Node>,
)
    requires
        run_ops(reg, f, ops, ss),
        forall|j: int| 0 <= j < ss.len() ==> #[trigger] ss[j].errors == ss[0].errors,
        0 <= start,
        start + restore_all_len(ns) <= ops.len(),
        restores_nodes(ops.subrange(start, start + restore_all_len(ns)), ps, ns),
        ps.len() == ns.len(),
        forall|i: int, j: int| 0 <= i < j < ps.len() ==> #[trigger] ps[i] != #[trigger] ps[j],
        forall|i: int|
            0 <= i < ps.len() ==> spec_in_bounds(ss[start].graph, #[trigger] ps[i])
                && !ss[start].graph.nodes.as_map().contains_key(ps[i]),
        forall|i: int|
            0 <= i < ns.len() ==> (#[trigger] ns[i]).input_sides.keys_sorted() && ns[i].input_sides.key_seq().len()
                == ns[i].input_sides.value_seq().len(),
    ensures
        ({
            let g = ss[start].graph;
            let h = ss[start + restore_all_len(ns)].graph;
            &&& forall|q: GridPos|
                #[trigger] h.nodes.as_map().contains_key(q) <==> (g.nodes.as_map().contains_key(q) || ps.contains(q))
            &&& forall|i: int| 0 <= i < ps.len() ==> same_node(h.nodes.as_map()[#[trigger] ps[i]], ns[i])
            &&& forall|q: GridPos|
                #[trigger] g.nodes.as_map().contains_key(q) ==> h.nodes.as_map()[q] == g.nodes.as_map()[q]
            &&& h.edges.as_map() == g.edges.as_map()
            &&& h.name == g.name
            &&& h.cols == g.cols
            &&& h.rows == g.rows
        }),
    decreases ns.len(),
{
    if ns.len() > 0 {
        let m = ns.len() - 1;
        let k = restore_all_len(ns.drop_last()) as int;
        let total = restore_all_len(ns) as int;
        let sub = ops.subrange(start, start + total);
        assert(sub.take(k) =~= ops.subrange(start, start + k));
        assert(sub.skip(k) =~= ops.subrange(start + k, start + total));
        let ps0 = ps.drop_last();
        let ns0 = ns.drop_last();
        assert forall|i: int, j: int| 0 <= i < j < ps0.len() implies #[trigger] ps0[i] != #[trigger] ps0[j] by {
            assert(ps0[i] == ps[i] && ps0[j] == ps[j]);
        }
        assert forall|i: int| 0 <= i < ps0.len() implies spec_in_bounds(ss[start].graph, #[trigger] ps0[i])
            && !ss[start].graph.nodes.as_map().contains_key(ps0[i]) by {
            assert(ps0[i] == ps[i]);
        }
        assert forall|i: int| 0 <= i < ns0.len() implies (#[trigger] ns0[i]).input_sides.keys_sorted()
            && ns0[i].input_sides.key_seq().len() == ns0[i].input_sides.value_seq().len() by {
            assert(ns0[i] == ns[i]);
        }
        lemma_restore_nodes(reg, f, ops, ss, start, ps0, ns0);
        let g = ss[start].graph;
        let mid = ss[start + k].graph;
        let p = ps[m];
        assert(ps.last() == p && ns.last() == ns[m]);
        assert(!ps0.contains(p)) by {
            if ps0.contains(p) {
                let i = choose|i: int| 0 <= i < ps0.len() && ps0[i] == p;
                assert(ps[i] == ps[m]);
            }
        }
        assert(spec_in_bounds(g, ps[m]));
        assert(!g.nodes.as_map().contains_key(ps[m]));
        assert(!mid.nodes.as_map().contains_key(p));
        assert(spec_in_bounds(mid, p));
        assert(total == k + restore_len(ns[m]));
        assert(ops.subrange(start + k, start + k + restore_len(ns[m])) == ops.subrange(start + k, start + total));
        lemma_restore_node(reg, f, ops, ss, start + k, p, ns[m]);
        let h = ss[start + total].graph;
        assert forall|q: GridPos| #[trigger] h.nodes.as_map().contains_key(q) <==> (g.nodes.as_map().contains_key(q)
            || ps.contains(q)) by {
            if ps.contains(q) && q != p {
                let i = choose|i: int| 0 <= i < ps.len() && ps[i] == q;
                assert(ps0[i] == q);
            }
            if ps0.contains(q) {
                let i = choose|i: int| 0 <= i < ps0.len() && ps0[i] == q;
                assert(ps[i] == q);
            }
            if q == p {
                assert(ps[m] == q);
            }
        }
        assert forall|i: int| 0 <= i < ps.len() implies same_node(h.nodes.as_map()[#[trigger] ps[i]], ns[i]) by {
            if i < m {
                assert(ps0[i] == ps[i] && ns0[i] == ns[i]);
                assert(ps[i] != p);
                assert(ps0.contains(ps[i]));
                assert(mid.nodes.as_map().contains_key(ps[i]));
                assert(same_node(mid.nodes.as_map()[ps0[i]], ns0[i]));
            }
        }
        assert forall|q: GridPos| #[trigger] g.nodes.as_map().contains_key(q) implies h.nodes.as_map()[q]
            == g.nodes.as_map()[q] by {
            assert(q != p);
            assert(mid.nodes.as_map().contains_key(q));
        }
    } else {
        assert(restore_all_len(ns) == 0);
    }
}


/// The cells of the nodes that a resize to `cols` by `rows` drops, in cell
/// order.
pub open spec fn dropped_cells(g: Graph, cols: u32, rows: u32) -> Seq<GridPos> {
    let keys = g.nodes.key_seq();
    indices_where(keys, off_grid(cols, rows), keys.len() as int).map_values(|i: int| keys[i])
}

/// The nodes that a resize to `cols` by `rows` drops, in cell order.
pub open spec fn dropped_nodes(g: Graph, cols: u32, rows: u32) -> Seq<Node> {
    let keys = g.nodes.key_seq();
    let vals = g.nodes.value_seq();
    indices_where(keys, off_grid(cols, rows), keys.len() as int).map_values(|i: int| vals[i])
}

/// The dropped cells are distinct cells of the graph off the new grid,
/// holding the dropped nodes, and every node off the new grid is among them.
proof fn lemma_dropped(g: Graph, cols: u32, rows: u32)
    requires
        g.nodes.keys_sorted(),
        g.nodes.key_seq().len() == g.nodes.value_seq().len(),
    ensures
        ({
            let ps = dropped_cells(g, cols, rows);
            let ns = dropped_nodes(g, cols, rows);
            &&& ps.len() == ns.len()
            &&& forall|i: int, j: int| 0 <= i < j < ps.len() ==> #[trigger] ps[i] != #[trigger] ps[j]
            &&& forall|i: int|
                0 <= i < ps.len() ==> g.nodes.as_map().contains_key(#[trigger] ps[i]) && g.nodes.as_map()[ps[i]]
                    == ns[i] && !cell_on_grid(cols, rows, ps[i])
            &&& forall|q: GridPos|
                #[trigger] g.nodes.as_map().contains_key(q) && !cell_on_grid(cols, rows, q) ==> ps.contains(q)
        }),
{
    let keys = g.nodes.key_seq();
    let idx = indices_where(keys, off_grid(cols, rows), keys.len() as int);
    let ps = dropped_cells(g, cols, rows);
    let ns = dropped_nodes(g, cols, rows);
    lemma_indices_where(keys, off_grid(cols, rows), keys.len() as int);
    g.nodes.lemma_keys_in_map();
    assert forall|i: int, j: int| 0 <= i < j < ps.len() implies #[trigger] ps[i] != #[trigger] ps[j] by {
        assert(idx[i] < idx[j]);
        assert(grid_lt(keys[idx[i]], keys[idx[j]]));
    }
    assert forall|i: int| 0 <= i < ps.len() implies g.nodes.as_map().contains_key(#[trigger] ps[i])
        && g.nodes.as_map()[ps[i]] == ns[i] && !cell_on_grid(cols, rows, ps[i]) by {
        g.nodes.lemma_value_of_key(idx[i]);
        assert(off_grid(cols, rows)(keys[idx[i]]));
    }
    assert forall|q: GridPos| #[trigger] g.nodes.as_map().contains_key(q) && !cell_on_grid(cols, rows, q) implies ps.contains(
        q,
    ) by {
        let i = choose|i: int| 0 <= i < keys.len() && keys[i] == q;
        assert(off_grid(cols, rows)(keys[i]));
        assert(idx.contains(i));
        let j = choose|j: int| 0 <= j < idx.len() && idx[j] == i;
        assert(ps[j] == q);
    }
}

/// Resizing back to the size of a graph whose nodes all lay on its grid,
/// without an error, keeps every node and edge that the first resize kept.
#[verifier::spinoff_prover]
proof fn lemma_resize_back<F: Fn(&str, &str, &serde_json::Value) -> bool>(
    reg: PieceRegistry,
    f: F,
    g0: Graph,
    cols: u32,
    rows: u32,
    s1: RunState,
    back: GraphOp,
    s2: RunState,
)
    requires
        forall|q: GridPos| #[trigger] g0.nodes.as_map().contains_key(q) ==> spec_in_bounds(g0, q),
        s1.graph.nodes.as_map() == kept_nodes(g0.nodes.as_map(), cols, rows),
        s1.graph.edges.as_map() == keep_edges(g0.edges.as_map(), dangling(kept_nodes(g0.nodes.as_map(), cols, rows), cols, rows)),
        s1.graph.cols == cols,
        s1.graph.rows == rows,
        !(cols == g0.cols && rows == g0.rows),
        is_resize(back, g0.cols, g0.rows),
        op_step(reg, f, s1, back, s2),
        s2.errors == s1.errors,
    ensures
        s2.graph.nodes.as_map() == s1.graph.nodes.as_map(),
        s2.graph.edges.as_map() == s1.graph.edges.as_map(),
        s2.graph.name == s1.graph.name,
        s2.graph.cols == g0.cols,
        s2.graph.rows == g0.rows,
{
    let g1 = s1.graph;
    let kept = kept_nodes(g0.nodes.as_map(), cols, rows);
    let dead = dangling(kept, cols, rows);
    assert(!(g0.cols == 0 || g0.rows == 0)) by {
        if g0.cols == 0 || g0.rows == 0 {
            assert(s2.errors.len() == s1.errors.len() + 1);
        }
    }
    assert(kept_nodes(g1.nodes.as_map(), g0.cols, g0.rows) =~= g1.nodes.as_map()) by {
        assert forall|q: GridPos| #[trigger] g1.nodes.as_map().contains_key(q) implies cell_on_grid(g0.cols, g0.rows, q) by {
            assert(g0.nodes.as_map().contains_key(q));
            assert(spec_in_bounds(g0, q));
        }
    }
    assert(keep_edges(g1.edges.as_map(), dangling(g1.nodes.as_map(), g0.cols, g0.rows)) =~= g1.edges.as_map()) by {
        assert forall|kk: u128| #[trigger] g1.edges.as_map().contains_key(kk) implies !dangling(
            g1.nodes.as_map(),
            g0.cols,
            g0.rows,
        )(g1.edges.as_map()[kk]) by {
            let e = g1.edges.as_map()[kk];
            assert(!dead(e));
            assert(g0.nodes.as_map().contains_key(e.from) && g0.nodes.as_map().contains_key(e.to_node));
            assert(spec_in_bounds(g0, e.from) && spec_in_bounds(g0, e.to_node));
        }
    }
}

/// Resizing the grid, then running the operations of its undo chunk, gives
/// back a graph with the same content, when the graph's maps are sorted, its
/// nodes lie on its grid with sorted side maps, its edges are stored under
/// their own ids, and no undo operation records an error.
#[verifier::spinoff_prover]
pub proof fn lemma_resize_undone<F: Fn(&str, &str, &serde_json::Value) -> bool>(
    reg: PieceRegistry,
    f: F,
    s0: RunState,
    op: GraphOp,
    s1: RunState,
    ss: Seq<RunState>,
)
    requires
        op is ResizeGrid,
        keyed_by_id(s0.graph),
        s0.graph.nodes.keys_sorted(),
        s0.graph.nodes.key_seq().len() == s0.graph.nodes.value_seq().len(),
        s0.graph.edges.keys_sorted(),
        s0.graph.edges.key_seq().len() == s0.graph.edges.value_seq().len(),
        forall|q: GridPos| #[trigger] s0.graph.nodes.as_map().contains_key(q) ==> spec_in_bounds(s0.graph, q),
        forall|q: GridPos|
            #[trigger] s0.graph.nodes.as_map().contains_key(q) ==> s0.graph.nodes.as_map()[q].input_sides.keys_sorted()
                && s0.graph.nodes.as_map()[q].input_sides.key_seq().len()
                == s0.graph.nodes.as_map()[q].input_sides.value_seq().len(),
        op_step(reg, f, s0, op, s1),
        s1.chunks.len() == s0.chunks.len() + 1,
        run_ops(reg, f, s1.chunks.last()@, ss),
        ss[0] == s1,
        forall|i: int| 0 <= i < ss.len() ==> #[trigger] ss[i].errors == s1.errors,
    ensures
        same_content(ss.last().graph, s0.graph),
{
    let g0 = s0.graph;
    let g1 = s1.graph;
    let cols = op->cols;
    let rows = op->rows;
    assert(!(cols == 0 || rows == 0) && !(cols == g0.cols && rows == g0.rows));
    let ps = dropped_cells(g0, cols, rows);
    let ns = dropped_nodes(g0, cols, rows);
    let kept = kept_nodes(g0.nodes.as_map(), cols, rows);
    let dead = dangling(kept, cols, rows);
    let gone = g0.edges.value_seq().filter(dead);
    let u = s1.chunks.last()@;
    let total = restore_all_len(ns) as int;
    assert(undoes_resize(u, g0.cols, g0.rows, ps, ns, gone));
    assert forall|j: int| 0 <= j < ss.len() implies #[trigger] ss[j].errors == ss[0].errors by {}
    lemma_dropped(g0, cols, rows);
    // The resize back keeps every node and edge.
    assert(op_step(reg, f, ss[0], u[0], ss[1]));
    lemma_resize_back(reg, f, g0, cols, rows, ss[0], u[0], ss[1]);
    let g2 = ss[1].graph;
    // The dropped nodes come back.
    assert forall|i: int| 0 <= i < ps.len() implies spec_in_bounds(g2, #[trigger] ps[i])
        && !g2.nodes.as_map().contains_key(ps[i]) by {
        assert(g0.nodes.as_map().contains_key(ps[i]));
        assert(spec_in_bounds(g0, ps[i]));
    }
    assert forall|i: int| 0 <= i < ns.len() implies (#[trigger] ns[i]).input_sides.keys_sorted()
        && ns[i].input_sides.key_seq().len() == ns[i].input_sides.value_seq().len() by {
        assert(g0.nodes.as_map().contains_key(ps[i]) && g0.nodes.as_map()[ps[i]] == ns[i]);
    }
    lemma_restore_nodes(reg, f, u, ss, 1, ps, ns);
    let s_e = ss[1 + total];
    // The dropped edges come back.
    let es = gone.map_values(|e: Edge| e@);
    assert forall|j: int| 0 <= j < es.len() implies reconnects(#[trigger] u[(1 + total) + j], es[j]) by {
        assert(u.skip(1 + total)[j] == u[1 + total + j]);
    }
    lemma_reconnect_chain(reg, f, u, ss, 1 + total, es, es.len() as int);
    assert(es.take(es.len() as int) =~= es);
    let last = ss[1 + total + es.len() as int];
    assert(ss.len() == u.len() + 1);
    assert(last == ss.last());
    let m0 = g0.edges.as_map();
    let t = edge_views(m0);
    assert forall|j: int| 0 <= j < es.len() implies t.contains_key(#[trigger] es[j].id) && t[es[j].id] == es[j] by {
        let x = gone[j];
        assert(gone.contains(x)) by {
            assert(gone[j] == x);
        }
        lemma_filtered_entry(g0.edges, dead, x);
    }
    let base = edge_views(s_e.graph.edges.as_map());
    assert forall|kk: u128| #[trigger] base.contains_key(kk) implies t.contains_key(kk) && t[kk] == base[kk] by {}
    lemma_add_views_agree(base, es, t);
    assert forall|kk: u128| #[trigger] t.contains_key(kk) implies add_views(base, es).contains_key(kk) by {
        if !base.contains_key(kk) {
            assert(dead(m0[kk]));
            lemma_entry_filtered(g0.edges, dead, kk);
            let i = choose|i: int| 0 <= i < gone.len() && gone[i] == m0[kk];
            assert(es[i].id == kk);
        }
    }
    assert(add_views(base, es) =~= t);
    // The nodes are those of the graph before.
    assert forall|q: GridPos| #[trigger] last.graph.nodes.as_map().contains_key(q) == g0.nodes.as_map().contains_key(q) by {
        if ps.contains(q) {
            let j = choose|j: int| 0 <= j < ps.len() && ps[j] == q;
            assert(g0.nodes.as_map().contains_key(ps[j]));
        }
        if g0.nodes.as_map().contains_key(q) && cell_on_grid(cols, rows, q) {
            assert(g2.nodes.as_map().contains_key(q));
        }
    }
    assert(last.graph.nodes.as_map().dom() =~= g0.nodes.as_map().dom());
    assert forall|q: GridPos| #[trigger] last.graph.nodes.as_map().contains_key(q) implies same_node(
        last.graph.nodes.as_map()[q],
        g0.nodes.as_map()[q],
    ) by {
        if ps.contains(q) {
            let j = choose|j: int| 0 <= j < ps.len() && ps[j] == q;
            assert(same_node(s_e.graph.nodes.as_map()[ps[j]], ns[j]));
        } else {
            assert(cell_on_grid(cols, rows, q));
            assert(g2.nodes.as_map().contains_key(q));
        }
    }
}

} // verus!
