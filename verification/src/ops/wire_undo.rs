//! Undoing the wiring of a node: its undo chunk disconnects the edges that
//! wiring added, last first, then connects the edges it removed again.

use vstd::prelude::*;

use crate::graph::{edge_views, EdgeView, Graph, GraphOp, Node};
use crate::ops::apply::{
    add_views, keyed_by_id, lemma_entry_filtered, lemma_filtered_entry, lemma_reconnect_chain, node_auto_wire_step,
    node_failure, op_step, run_ops, same_content, RunState,
};
use crate::ops::auto_wire::{
    disconnects, edge_seq_views, reconnects, spec_auto_wire, unwiring_ops, wire_inputs, wire_output,
};
use crate::ops::pruning::{keep_edges, stale_after_rewire};
use crate::piece::PieceDef;
use crate::piece_registry::PieceRegistry;
use crate::types::GridPos;

verus! {

/// The edges that wiring the node at `p` adds take ids that no edge of `g`
/// carries and that differ from each other.
pub open spec fn wire_fresh(g: Graph, reg: PieceRegistry, p: GridPos, ids: Seq<u128>) -> bool {
    match spec_auto_wire(g, reg, p, ids) {
        None => true,
        Some(w) => {
            &&& forall|j: int, k: int|
                0 <= j < k < w.added.len() ==> #[trigger] w.added[j].id != #[trigger] w.added[k].id
            &&& forall|j: int| 0 <= j < w.added.len() ==> !g.edges.as_map().contains_key(#[trigger] w.added[j].id)
        },
    }
}

/// Wiring the inputs inserts the added edges, in order, into the edges it
/// starts from.
proof fn lemma_wire_inputs_added(
    g: Graph,
    reg: PieceRegistry,
    pos: GridPos,
    node: Node,
    def: PieceDef,
    edges: Map<u128, EdgeView>,
    ids: Seq<u128>,
    j: int,
)
    ensures
        wire_inputs(g, reg, pos, node, def, edges, ids, j).0 == add_views(
            edges,
            wire_inputs(g, reg, pos, node, def, edges, ids, j).1,
        ),
    decreases j,
{
    if j > 0 {
        lemma_wire_inputs_added(g, reg, pos, node, def, edges, ids, j - 1);
        let (m, added) = wire_inputs(g, reg, pos, node, def, edges, ids, j - 1);
        let r = wire_inputs(g, reg, pos, node, def, edges, ids, j);
        if r.1.len() > added.len() {
            assert(r.1.drop_last() =~= added);
        } else {
            assert(r.1 == added);
        }
    }
}

/// A key of `add_views(base, es)` is a key of `base` or the id of an edge of `es`.
proof fn lemma_add_views_keys(base: Map<u128, EdgeView>, es: Seq<EdgeView>, k: u128)
    ensures
        add_views(base, es).contains_key(k) == (base.contains_key(k) || exists|j: int|
            0 <= j < es.len() && #[trigger] es[j].id == k),
    decreases es.len(),
{
    if es.len() > 0 {
        let prev = es.drop_last();
        lemma_add_views_keys(base, prev, k);
        if exists|j: int| 0 <= j < prev.len() && #[trigger] prev[j].id == k {
            let j = choose|j: int| 0 <= j < prev.len() && #[trigger] prev[j].id == k;
            assert(es[j].id == k);
        }
        if exists|j: int| 0 <= j < es.len() && #[trigger] es[j].id == k {
            let j = choose|j: int| 0 <= j < es.len() && #[trigger] es[j].id == k;
            if j < es.len() - 1 {
                assert(prev[j].id == k);
            }
        }
    }
}

/// Disconnecting the edges `es`, last first, from a graph whose edges are
/// `base` with `es` added, without an error, leaves `base` with the first
/// edges of `es`, when the ids of `es` are fresh for `base` and distinct.
proof fn lemma_disconnect_chain<F: Fn(&str, &str, &serde_json::Value) -> bool>(
    reg: PieceRegistry,
    f: F,
    ops: Seq<GraphOp>,
    ss: Seq<RunState>,
    base: Map<u128, EdgeView>,
    es: Seq<EdgeView>,
    n: int,
)
    requires
        run_ops(reg, f, ops, ss),
        es.len() <= ops.len(),
        forall|k: int| 0 <= k < es.len() ==> disconnects(#[trigger] ops[k], es[es.len() - 1 - k].id),
        forall|i: int| 0 <= i < ss.len() ==> #[trigger] ss[i].errors == ss[0].errors,
        edge_views(ss[0].graph.edges.as_map()) == add_views(base, es),
        forall|j: int, k: int| 0 <= j < k < es.len() ==> #[trigger] es[j].id != #[trigger] es[k].id,
        forall|j: int| 0 <= j < es.len() ==> !base.contains_key(#[trigger] es[j].id),
        0 <= n <= es.len(),
    ensures
        ss[n].graph.nodes == ss[0].graph.nodes,
        ss[n].graph.name == ss[0].graph.name,
        ss[n].graph.cols == ss[0].graph.cols,
        ss[n].graph.rows == ss[0].graph.rows,
        edge_views(ss[n].graph.edges.as_map()) == add_views(base, es.take(es.len() - n)),
    decreases n,
{
    if n == 0 {
        assert(es.take(es.len() as int) =~= es);
    } else {
        lemma_disconnect_chain(reg, f, ops, ss, base, es, n - 1);
        let i = n - 1;
        let m = es.len() - n;
        let pre = es.take(m);
        let cur = es.take(m + 1);
        let x = es[m];
        assert(cur.drop_last() =~= pre);
        assert(cur.last() == x);
        assert(disconnects(ops[i], es[es.len() - 1 - i].id));
        assert(es.len() - 1 - i == m);
        assert(op_step(reg, f, ss[i], ops[i], ss[i + 1]));
        let m0 = ss[i].graph.edges.as_map();
        assert(edge_views(m0) == add_views(base, pre).insert(x.id, x));
        assert(edge_views(m0).contains_key(x.id));
        assert(m0.contains_key(x.id));
        assert(ss[i + 1].errors == ss[i].errors);
        lemma_add_views_keys(base, pre, x.id);
        assert(!add_views(base, pre).contains_key(x.id)) by {
            if exists|j: int| 0 <= j < pre.len() && #[trigger] pre[j].id == x.id {
                let j = choose|j: int| 0 <= j < pre.len() && #[trigger] pre[j].id == x.id;
                assert(es[j].id == es[m].id);
            }
        }
        let a = add_views(base, pre);
        assert(edge_views(m0.remove(x.id)) =~= edge_views(m0).remove(x.id));
        assert(a.insert(x.id, x).remove(x.id) =~= a);
        assert(edge_views(ss[n].graph.edges.as_map()) == a);
    }
}

/// Wiring a node, then running the operations of its undo chunk, gives back
/// a graph with the same content, when the graph's edges are sorted and
/// stored under their own ids, the edges wiring adds take fresh distinct
/// ids, and no undo operation records an error.
pub proof fn lemma_auto_wire_undone<F: Fn(&str, &str, &serde_json::Value) -> bool>(
    reg: PieceRegistry,
    f: F,
    s0: RunState,
    op: GraphOp,
    s1: RunState,
    ss: Seq<RunState>,
)
    requires
        op is NodeAutoWire,
        keyed_by_id(s0.graph),
        s0.graph.edges.keys_sorted(),
        s0.graph.edges.key_seq().len() == s0.graph.edges.value_seq().len(),
        forall|ids: Seq<u128>|
            #[trigger] node_auto_wire_step(reg, s0, op->NodeAutoWire_position, ids, s1) ==> wire_fresh(
                s0.graph,
                reg,
                op->NodeAutoWire_position,
                ids,
            ),
        op_step(reg, f, s0, op, s1),
        s1.chunks.len() == s0.chunks.len() + 1,
        run_ops(reg, f, s1.chunks.last()@, ss),
        ss[0] == s1,
        forall|i: int| 0 <= i < ss.len() ==> #[trigger] ss[i].errors == s1.errors,
    ensures
        same_content(ss.last().graph, s0.graph),
{
    let g0 = s0.graph;
    let g1 = s1.graph;
    let p = op->NodeAutoWire_position;
    let ids = choose|ids: Seq<u128>| node_auto_wire_step(reg, s0, p, ids, s1);
    assert(node_auto_wire_step(reg, s0, p, ids, s1));
    assert(wire_fresh(g0, reg, p, ids));
    assert(node_failure(g0, "node_auto_wire"@, p) is None);
    let w = spec_auto_wire(g0, reg, p, ids)->Some_0;
    assert(spec_auto_wire(g0, reg, p, ids) is Some);
    let node = g0.nodes.as_map()[p];
    let def = reg.defs()[node.piece_id@];
    let doomed = stale_after_rewire(g0, reg, p);
    let kept = edge_views(keep_edges(g0.edges.as_map(), doomed));
    let gone = g0.edges.value_seq().filter(doomed);
    assert(w.removed == edge_seq_views(gone));
    lemma_wire_inputs_added(g0, reg, p, node, def, kept, ids, def.params@.len() as int);
    let (wired, added0) = wire_inputs(g0, reg, p, node, def, kept, ids, def.params@.len() as int);
    assert(w.edges == add_views(kept, w.added)) by {
        match wire_output(g0, reg, p, node, def, wired, ids[added0.len() as int]) {
            Some(out) => {
                assert(w.added.drop_last() =~= added0);
            },
            None => {},
        }
    }
    let u = s1.chunks.last()@;
    assert(unwiring_ops(u, w.removed, w.added));
    assert forall|j: int| 0 <= j < ss.len() implies #[trigger] ss[j].errors == ss[0].errors by {}
    // Disconnecting the added edges.
    assert forall|j: int| 0 <= j < w.added.len() implies !kept.contains_key(#[trigger] w.added[j].id) by {
        assert(!g0.edges.as_map().contains_key(w.added[j].id));
    }
    let na = w.added.len() as int;
    lemma_disconnect_chain(reg, f, u, ss, kept, w.added, na);
    assert(w.added.take(0) =~= Seq::<EdgeView>::empty());
    let s_a = ss[na];
    assert(edge_views(s_a.graph.edges.as_map()) == kept);
    // Connecting the removed edges again.
    let es = w.removed;
    assert forall|j: int| 0 <= j < es.len() implies reconnects(#[trigger] u[na + j], es[j]) by {}
    lemma_reconnect_chain(reg, f, u, ss, na, es, es.len() as int);
    assert(es.take(es.len() as int) =~= es);
    let last = ss[na + es.len() as int];
    assert(ss.len() == u.len() + 1);
    assert(last == ss.last());
    let m0 = g0.edges.as_map();
    let t = edge_views(m0);
    assert forall|j: int| 0 <= j < es.len() implies t.contains_key(#[trigger] es[j].id) && t[es[j].id] == es[j] by {
        let x = gone[j];
        assert(es[j] == x@);
        assert(gone.contains(x)) by {
            assert(gone[j] == x);
        }
        lemma_filtered_entry(g0.edges, doomed, x);
    }
    assert forall|kk: u128| #[trigger] kept.contains_key(kk) implies t.contains_key(kk) && t[kk] == kept[kk] by {}
    crate::ops::apply::lemma_add_views_agree(kept, es, t);
    assert forall|kk: u128| #[trigger] t.contains_key(kk) implies add_views(kept, es).contains_key(kk) by {
        if !kept.contains_key(kk) {
            assert(doomed(m0[kk]));
            lemma_entry_filtered(g0.edges, doomed, kk);
            let i = choose|i: int| 0 <= i < gone.len() && gone[i] == m0[kk];
            assert(es[i].id == kk);
        }
    }
    assert(add_views(kept, es) =~= t);
    assert(last.graph.nodes == g0.nodes);
    assert(last.graph.nodes.as_map().dom() =~= g0.nodes.as_map().dom());
}

} // verus!
