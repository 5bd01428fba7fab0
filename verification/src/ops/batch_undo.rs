//! Undoing the placement of a batch of nodes: its undo chunk removes the
//! placed nodes, last first.

use vstd::prelude::*;

use crate::graph::{BatchPlaceEntry, Edge, GraphOp, Node};
use crate::ops::apply::{
    batch_errors, batch_place_step, entry_errors, is_node_remove, lemma_batch_errors_empty, node_failure, op_step,
    removes_in_reverse, run_ops, same_content, touching, RunState,
};
use crate::ops::pruning::{keep_edges, touches};
use crate::piece_registry::PieceRegistry;
use crate::graph::spec_in_bounds;
use crate::types::GridPos;

verus! {

/// `m` with the last `k` cells of `ps` removed.
pub open spec fn removed_from(m: Map<GridPos, Node>, ps: Seq<GridPos>, k: int) -> Map<GridPos, Node>
    decreases k,
{
    if k <= 0 {
        m
    } else {
        removed_from(m, ps, k - 1).remove(ps[ps.len() - k])
    }
}

/// A cell is left by `removed_from` when it was there and is not among the
/// last `k` cells of `ps`; it keeps its node.
proof fn lemma_removed_from(m: Map<GridPos, Node>, ps: Seq<GridPos>, k: int, q: GridPos)
    requires
        0 <= k <= ps.len(),
    ensures
        removed_from(m, ps, k).contains_key(q) == (m.contains_key(q) && !exists|j: int|
            ps.len() - k <= j < ps.len() && #[trigger] ps[j] == q),
        removed_from(m, ps, k).contains_key(q) ==> removed_from(m, ps, k)[q] == m[q],
    decreases k,
{
    if k > 0 {
        lemma_removed_from(m, ps, k - 1, q);
        let at = ps.len() - k;
        if exists|j: int| ps.len() - k <= j < ps.len() && #[trigger] ps[j] == q {
            let j = choose|j: int| ps.len() - k <= j < ps.len() && #[trigger] ps[j] == q;
            if j != at {
                assert(ps.len() - (k - 1) <= j);
            }
        }
    }
}

/// Removing the cells `ps`, last first, without an error, from a graph whose
/// edges touch none of them removes exactly those nodes.
proof fn lemma_remove_chain<F: Fn(&str, &str, &serde_json::Value) -> bool>(
    reg: PieceRegistry,
    f: F,
    u: Seq<GraphOp>,
    ss: Seq<RunState>,
    ps: Seq<GridPos>,
    edges0: Map<u128, Edge>,
    k: int,
)
    requires
        run_ops(reg, f, u, ss),
        forall|i: int|
            0 <= i < ps.len() ==> spec_in_bounds(ss[0].graph, #[trigger] ps[i]) && ss[0].graph.nodes.as_map().contains_key(
                ps[i],
            ),
        forall|i: int, j: int| 0 <= i < j < ps.len() ==> #[trigger] ps[i] != #[trigger] ps[j],
        u.len() == ps.len(),
        forall|i: int| 0 <= i < ps.len() ==> is_node_remove(#[trigger] u[i], ps[ps.len() - 1 - i]),
        ss[0].graph.edges.as_map() == edges0,
        forall|kk: u128, i: int|
            #![trigger edges0[kk], ps[i]]
            edges0.contains_key(kk) && 0 <= i < ps.len() ==> !touches(edges0[kk], ps[i]),
        0 <= k <= ps.len(),
    ensures
        ss[k].graph.nodes.as_map() == removed_from(ss[0].graph.nodes.as_map(), ps, k),
        ss[k].errors == ss[0].errors,
        ss[k].graph.edges.as_map() == edges0,
        ss[k].graph.name == ss[0].graph.name,
        ss[k].graph.cols == ss[0].graph.cols,
        ss[k].graph.rows == ss[0].graph.rows,
    decreases k,
{
    if k > 0 {
        lemma_remove_chain(reg, f, u, ss, ps, edges0, k - 1);
        let i = k - 1;
        let p = ps[ps.len() - k];
        assert(ps.len() - 1 - i == ps.len() - k);
        assert(is_node_remove(u[i], p));
        assert(op_step(reg, f, ss[i], u[i], ss[i + 1]));
        lemma_removed_from(ss[0].graph.nodes.as_map(), ps, k - 1, p);
        if exists|j: int| ps.len() - (k - 1) <= j < ps.len() && #[trigger] ps[j] == p {
            let j = choose|j: int| ps.len() - (k - 1) <= j < ps.len() && #[trigger] ps[j] == p;
            assert(ps[ps.len() - k] != ps[j]);
        }
        assert(spec_in_bounds(ss[0].graph, ps[ps.len() - k]));
        assert(node_failure(ss[i].graph, "node_remove"@, p) is None);
        assert(ss[i + 1].errors == ss[i].errors);
        assert forall|kk: u128| #[trigger] edges0.contains_key(kk) implies !touching(p)(edges0[kk]) by {
            assert(!touches(edges0[kk], ps[ps.len() - k]));
        }
        assert(keep_edges(edges0, touching(p)) =~= edges0);
    }
}

/// Placing a batch of nodes without explicit edges or wiring, then running
/// the operations of its undo chunk, records no error and gives back a graph
/// with the same content, when no edge of the graph touches a cell of the
/// batch.
pub proof fn lemma_batch_place_undone<F: Fn(&str, &str, &serde_json::Value) -> bool>(
    reg: PieceRegistry,
    f: F,
    s0: RunState,
    op: GraphOp,
    s1: RunState,
    ss: Seq<RunState>,
)
    requires
        op is NodeBatchPlace,
        op->NodeBatchPlace_edges@.len() == 0,
        !op->NodeBatchPlace_auto_wire,
        forall|kk: u128, i: int|
            #![trigger s0.graph.edges.as_map()[kk], op->NodeBatchPlace_nodes@[i]]
            s0.graph.edges.as_map().contains_key(kk) && 0 <= i < op->NodeBatchPlace_nodes@.len() ==> !touches(
                s0.graph.edges.as_map()[kk],
                op->NodeBatchPlace_nodes@[i].position,
            ),
        op_step(reg, f, s0, op, s1),
        s1.chunks.len() == s0.chunks.len() + 1,
        run_ops(reg, f, s1.chunks.last()@, ss),
        ss[0] == s1,
    ensures
        forall|i: int| 0 <= i < ss.len() ==> #[trigger] ss[i].errors == s1.errors,
        same_content(ss.last().graph, s0.graph),
{
    let g0 = s0.graph;
    let entries: Seq<BatchPlaceEntry> = op->NodeBatchPlace_nodes@;
    let bedges = op->NodeBatchPlace_edges@;
    let auto = op->NodeBatchPlace_auto_wire;
    let (okss, placed, conn, fresh, wired, wids) = choose|
        okss: Seq<Seq<bool>>,
        placed: RunState,
        conn: Seq<RunState>,
        fresh: Seq<u128>,
        wired: Seq<RunState>,
        wids: Seq<Seq<u128>>,
    | batch_place_step(reg, f, s0, entries, bedges, auto, okss, placed, conn, fresh, wired, wids, s1);
    assert(batch_place_step(reg, f, s0, entries, bedges, auto, okss, placed, conn, fresh, wired, wids, s1));
    let errs = batch_errors(reg, g0, entries, okss, entries.len());
    assert(errs.len() == 0);
    assert(conn.len() == 1);
    assert(s1 == placed);
    let g1 = s1.graph;
    let n = entries.len() as int;
    let ps = entries.map_values(|e: BatchPlaceEntry| e.position);
    let u = s1.chunks.last()@;
    assert(removes_in_reverse(u, entries));
    lemma_batch_errors_empty(reg, g0, entries, okss, entries.len());
    assert forall|i: int| 0 <= i < n implies !g0.nodes.as_map().contains_key(#[trigger] ps[i]) by {
        assert(entry_errors(reg, g0, entries.take(i), entries[i], okss[i]).len() == 0);
    }
    assert forall|i: int| 0 <= i < ps.len() implies is_node_remove(#[trigger] u[i], ps[ps.len() - 1 - i]) by {
        assert(is_node_remove(u[i], entries[entries.len() - 1 - i].position));
    }
    let edges0 = g0.edges.as_map();
    assert forall|kk: u128, i: int|
        #![trigger edges0[kk], ps[i]]
        edges0.contains_key(kk) && 0 <= i < ps.len() implies !touches(edges0[kk], ps[i]) by {
        assert(!touches(edges0[kk], entries[i].position));
    }
    assert forall|i: int| 0 <= i < ps.len() implies spec_in_bounds(s1.graph, #[trigger] ps[i])
        && s1.graph.nodes.as_map().contains_key(ps[i]) by {
        assert(entry_errors(reg, g0, entries.take(i), entries[i], okss[i]).len() == 0);
        assert(ps[i] == entries[i].position);
    }
    assert forall|i: int, j: int| 0 <= i < j < ps.len() implies #[trigger] ps[i] != #[trigger] ps[j] by {
        assert(entry_errors(reg, g0, entries.take(j), entries[j], okss[j]).len() == 0);
        assert(entries.take(j)[i] == entries[i]);
        assert(!crate::ops::apply::taken_by(entries.take(j), entries[j].position));
    }
    lemma_remove_chain(reg, f, u, ss, ps, edges0, n);
    assert forall|i: int| 0 <= i < ss.len() implies #[trigger] ss[i].errors == s1.errors by {
        lemma_remove_chain(reg, f, u, ss, ps, edges0, i);
    }
    assert(ss.len() == u.len() + 1);
    let last = ss[n];
    assert(last == ss.last());
    let m1 = g1.nodes.as_map();
    let fin = last.graph.nodes.as_map();
    assert forall|q: GridPos| #[trigger] fin.contains_key(q) == g0.nodes.as_map().contains_key(q) && (fin.contains_key(
        q,
    ) ==> fin[q] == g0.nodes.as_map()[q]) by {
        lemma_removed_from(m1, ps, n, q);
        if exists|j: int| 0 <= j < n && #[trigger] ps[j] == q {
            let j = choose|j: int| 0 <= j < n && #[trigger] ps[j] == q;
            assert(!g0.nodes.as_map().contains_key(ps[j]));
        } else {
            assert(!crate::ops::apply::taken_by(entries, q)) by {
                if crate::ops::apply::taken_by(entries, q) {
                    let j = choose|j: int| 0 <= j < entries.len() && #[trigger] entries[j].position == q;
                    assert(ps[j] == q);
                }
            }
        }
    }
    assert(fin.dom() =~= g0.nodes.as_map().dom());
}

/// A batch placement either refuses the whole batch, changing nothing but
/// the errors, or places every node of it and records the chunk that
/// removes them: a refused entry never leaves part of the batch placed.
pub proof fn lemma_batch_all_or_nothing<F: Fn(&str, &str, &serde_json::Value) -> bool>(
    reg: PieceRegistry,
    f: F,
    s0: RunState,
    op: GraphOp,
    s1: RunState,
)
    requires
        op is NodeBatchPlace,
        op_step(reg, f, s0, op, s1),
    ensures
        s1.chunks.len() == s0.chunks.len() ==> s1.graph == s0.graph && s1.outcome == s0.outcome && s1.errors.len()
            > s0.errors.len(),
        s1.chunks.len() != s0.chunks.len() ==> s1.chunks.len() > s0.chunks.len() && removes_in_reverse(
            s1.chunks[s0.chunks.len() as int]@,
            op->NodeBatchPlace_nodes@,
        ),
{
    let entries: Seq<BatchPlaceEntry> = op->NodeBatchPlace_nodes@;
    let bedges = op->NodeBatchPlace_edges@;
    let auto = op->NodeBatchPlace_auto_wire;
    let (okss, placed, conn, fresh, wired, wids) = choose|
        okss: Seq<Seq<bool>>,
        placed: RunState,
        conn: Seq<RunState>,
        fresh: Seq<u128>,
        wired: Seq<RunState>,
        wids: Seq<Seq<u128>>,
    | batch_place_step(reg, f, s0, entries, bedges, auto, okss, placed, conn, fresh, wired, wids, s1);
    assert(batch_place_step(reg, f, s0, entries, bedges, auto, okss, placed, conn, fresh, wired, wids, s1));
    let errs = batch_errors(reg, s0.graph, entries, okss, entries.len());
    if errs.len() > 0 {
        assert((s0.errors + errs).len() == s0.errors.len() + errs.len());
    } else {
        let c = placed.chunks;
        lemma_connect_chain_grows(reg, bedges, fresh, conn, bedges.len() as int);
        assert(conn.last() == conn[bedges.len() as int]);
        if auto {
            lemma_wire_chain_grows(reg, entries, wids, wired, entries.len() as int);
            assert(wired.last() == wired[entries.len() as int]);
        }
        assert(s1.chunks.len() >= c.len());
        assert(s1.chunks.take(c.len() as int) == c);
        assert(c.drop_last() == s0.chunks);
        assert(s1.chunks[s0.chunks.len() as int] == s1.chunks.take(c.len() as int)[s0.chunks.len() as int]);
        assert(c[s0.chunks.len() as int] == c.last());
    }
}

/// Connecting edges only appends undo chunks.
proof fn lemma_connect_chain_grows(
    reg: PieceRegistry,
    edges: Seq<crate::graph::BatchPlaceEdge>,
    fresh: Seq<u128>,
    ss: Seq<RunState>,
    k: int,
)
    requires
        crate::ops::apply::connect_chain(reg, edges, fresh, ss),
        0 <= k <= edges.len(),
    ensures
        ss[k].chunks.len() >= ss[0].chunks.len(),
        ss[k].chunks.take(ss[0].chunks.len() as int) == ss[0].chunks,
    decreases k,
{
    if k == 0 {
        assert(ss[0].chunks.take(ss[0].chunks.len() as int) =~= ss[0].chunks);
    } else {
        lemma_connect_chain_grows(reg, edges, fresh, ss, k - 1);
        let e = edges[k - 1];
        assert(crate::ops::apply::edge_connect_step(
            reg,
            ss[k - 1].graph,
            None,
            e.from,
            e.to_node,
            e.to_param@,
            fresh[k - 1],
            ss[k].graph,
            ss[k - 1].errors,
            ss[k].errors,
            ss[k - 1].outcome,
            ss[k].outcome,
            ss[k - 1].chunks,
            ss[k].chunks,
        ));
        let a = ss[0].chunks.len() as int;
        if ss[k].chunks != ss[k - 1].chunks {
            assert(ss[k].chunks.drop_last() == ss[k - 1].chunks);
            assert(ss[k].chunks.take(a) =~= ss[k - 1].chunks.take(a));
        }
    }
}

/// Wiring nodes only appends undo chunks.
proof fn lemma_wire_chain_grows(
    reg: PieceRegistry,
    entries: Seq<BatchPlaceEntry>,
    ids: Seq<Seq<u128>>,
    ss: Seq<RunState>,
    k: int,
)
    requires
        crate::ops::apply::wire_chain(reg, entries, ids, ss),
        0 <= k <= entries.len(),
    ensures
        ss[k].chunks.len() >= ss[0].chunks.len(),
        ss[k].chunks.take(ss[0].chunks.len() as int) == ss[0].chunks,
    decreases k,
{
    if k == 0 {
        assert(ss[0].chunks.take(ss[0].chunks.len() as int) =~= ss[0].chunks);
    } else {
        lemma_wire_chain_grows(reg, entries, ids, ss, k - 1);
        assert(crate::ops::apply::wire_step(reg, ss[k - 1], entries[k - 1].position, ids[k - 1], ss[k]));
        let a = ss[0].chunks.len() as int;
        if ss[k].chunks != ss[k - 1].chunks {
            assert(ss[k].chunks.take(ss[k - 1].chunks.len() as int) == ss[k - 1].chunks);
            assert(ss[k].chunks.take(a) =~= ss[k - 1].chunks.take(a));
        }
    }
}

} // verus!
