//! Wiring a node to its neighbours: drop its edges that no longer fit,
//! connect each free parameter to the neighbour on its side, and connect
//! its output to the neighbour it faces.

use vstd::prelude::*;

use crate::graph::{edge_views, Edge, EdgeView, Graph, GraphOp, Node};
use crate::internal::{effective_input_side, spec_effective_input_side, spec_side_from_to_node};
use crate::ops::pruning::{keep_edges, nodes_interior, prune_invalid_touching_edges, stale_after_rewire};
use crate::ops::types::{opt_text, ApplyOpsOutcome};
use crate::ops::validation::{
    find_edge_into, first_candidate_from, lemma_validate_ok, link_ok, node_output_side, probe_edge_connect,
    slot_taken, slot_taken_in, spec_connect_base, view_into, spec_node_output_side, spec_pick_target_param, spec_probe_edge_connect,
    spec_source_type, validate_edge_connect,
};
use crate::piece::PieceDef;
use crate::piece_registry::PieceRegistry;
use crate::types::{adjacent_in_direction, spec_adjacent, EdgeId, GridPos};

verus! {

/// The views of a list of edges.
pub open spec fn edge_seq_views(s: Seq<Edge>) -> Seq<EdgeView> {
    s.map_values(|e: Edge| e@)
}

/// The parameter the picker chooses for an edge from `from` into the node at
/// `to`, reading nodes from `g` and edges from `edges`.
pub open spec fn pick_param_in(
    g: Graph,
    edges: Map<u128, EdgeView>,
    reg: PieceRegistry,
    from: GridPos,
    to: GridPos,
) -> Option<Seq<char>> {
    match spec_connect_base(g, reg, from, to) {
        Err(_) => None,
        Ok((fnode, tnode, fdef, tdef)) => match spec_side_from_to_node(to, from) {
            None => None,
            Some(ts) => match spec_source_type(fnode, fdef, from, ts) {
                Err(_) => None,
                Ok(src) => match first_candidate_from(edges, to, tnode, tdef, ts, src, 0) {
                    Some(j) => Some(tdef.params@[j].id@),
                    None => None,
                },
            },
        },
    }
}

/// The parameter `pick_target_param_for_edge` chooses is the one
/// `pick_param_in` names for the graph's own nodes and edges.
proof fn lemma_pick_param(g: Graph, reg: PieceRegistry, from: GridPos, to: GridPos)
    ensures
        spec_pick_target_param(g, reg, from, to).to_param == pick_param_in(g, edge_views(g.edges.as_map()), reg, from, to),
{
}

/// The edges after wiring the first `j` parameters of `def` into the node at
/// `pos`, starting from `edges`, and the edges added, in order. A parameter
/// is wired when no edge feeds it yet, the neighbour on its side holds a
/// node, and that neighbour's edge into it passes the connection checks;
/// the `k`-th edge added takes id `ids[k]`.
pub open spec fn wire_inputs(
    g: Graph,
    reg: PieceRegistry,
    pos: GridPos,
    node: Node,
    def: PieceDef,
    edges: Map<u128, EdgeView>,
    ids: Seq<u128>,
    j: int,
) -> (Map<u128, EdgeView>, Seq<EdgeView>)
    decreases j,
{
    if j <= 0 {
        (edges, seq![])
    } else {
        let (m, added) = wire_inputs(g, reg, pos, node, def, edges, ids, j - 1);
        let pid = def.params@[j - 1].id@;
        let side = spec_effective_input_side(node, def, pid);
        let src = spec_adjacent(pos, side);
        if !slot_taken_in(m, pos, pid) && side is Some && src != pos && g.nodes.as_map().contains_key(src) && link_ok(
            g,
            reg,
            src,
            pos,
            pid,
        ) {
            let e = EdgeView { id: ids[added.len() as int], from: src, to_node: pos, to_param: pid };
            (m.insert(e.id, e), added.push(e))
        } else {
            (m, added)
        }
    }
}

proof fn lemma_wire_inputs_prefix(
    g: Graph,
    reg: PieceRegistry,
    pos: GridPos,
    node: Node,
    def: PieceDef,
    edges: Map<u128, EdgeView>,
    ids: Seq<u128>,
    more: Seq<u128>,
    j: int,
)
    requires
        wire_inputs(g, reg, pos, node, def, edges, ids, j).1.len() <= ids.len(),
        more.take(ids.len() as int) == ids,
        ids.len() <= more.len(),
    ensures
        wire_inputs(g, reg, pos, node, def, edges, more, j) == wire_inputs(g, reg, pos, node, def, edges, ids, j),
    decreases j,
{
    if j > 0 {
        let prev = wire_inputs(g, reg, pos, node, def, edges, ids, j - 1);
        assert(prev.1.len() <= wire_inputs(g, reg, pos, node, def, edges, ids, j).1.len());
        lemma_wire_inputs_prefix(g, reg, pos, node, def, edges, ids, more, j - 1);
        if prev.1.len() < ids.len() {
            assert(more[prev.1.len() as int] == more.take(ids.len() as int)[prev.1.len() as int]);
        }
    }
}

/// The edge from the node at `pos` into the neighbour its output faces, with
/// id `id`, when that neighbour holds a node and the picker finds a
/// parameter for it.
pub open spec fn wire_output(
    g: Graph,
    reg: PieceRegistry,
    pos: GridPos,
    node: Node,
    def: PieceDef,
    edges: Map<u128, EdgeView>,
    id: u128,
) -> Option<EdgeView> {
    let os = spec_node_output_side(node, def);
    let tgt = spec_adjacent(pos, os);
    if os is Some && tgt != pos && g.nodes.as_map().contains_key(tgt) {
        match pick_param_in(g, edges, reg, pos, tgt) {
            Some(p) => Some(EdgeView { id, from: pos, to_node: tgt, to_param: p }),
            None => None,
        }
    } else {
        None
    }
}

/// What wiring a node does, given the ids its new edges take.
pub struct WireView {
    pub edges: Map<u128, EdgeView>,
    pub removed: Seq<EdgeView>,
    pub added: Seq<EdgeView>,
}

/// Wiring the node at `pos` of `g`: nothing when there is no node there or
/// its piece is unknown; else its edges that would no longer be accepted
/// are removed (in id order), its free parameters are wired in order, and
/// then its output; the new edges take `ids` in order.
pub open spec fn spec_auto_wire(g: Graph, reg: PieceRegistry, pos: GridPos, ids: Seq<u128>) -> Option<WireView> {
    if !g.nodes.as_map().contains_key(pos) {
        None
    } else if !reg.defs().contains_key(g.nodes.as_map()[pos].piece_id@) {
        None
    } else {
        let node = g.nodes.as_map()[pos];
        let def = reg.defs()[node.piece_id@];
        let doomed = stale_after_rewire(g, reg, pos);
        let kept = edge_views(keep_edges(g.edges.as_map(), doomed));
        let removed = edge_seq_views(g.edges.value_seq().filter(doomed));
        let (wired, added) = wire_inputs(g, reg, pos, node, def, kept, ids, def.params@.len() as int);
        match wire_output(g, reg, pos, node, def, wired, ids[added.len() as int]) {
            Some(out) => Some(WireView { edges: wired.insert(out.id, out), removed, added: added.push(out) }),
            None => Some(WireView { edges: wired, removed, added }),
        }
    }
}

/// `op` disconnects the edge with id `id`.
pub open spec fn disconnects(op: GraphOp, id: u128) -> bool {
    op matches GraphOp::EdgeDisconnect { edge_id } && edge_id@ == id
}

/// `op` connects edge `e` under its own id.
pub open spec fn reconnects(op: GraphOp, e: EdgeView) -> bool {
    op matches GraphOp::EdgeConnect { edge_id: Some(i), from, to_node, to_param } && i@ == e.id && from == e.from
        && to_node == e.to_node && to_param@ == e.to_param
}

/// The operations wiring records as applied: a disconnect for each removed
/// edge, then a connect for each added one.
pub open spec fn wiring_ops(ops: Seq<GraphOp>, removed: Seq<EdgeView>, added: Seq<EdgeView>) -> bool {
    &&& ops.len() == removed.len() + added.len()
    &&& forall|i: int| 0 <= i < removed.len() ==> disconnects(#[trigger] ops[i], removed[i].id)
    &&& forall|k: int| 0 <= k < added.len() ==> reconnects(#[trigger] ops[removed.len() + k], added[k])
}

/// The operations that undo wiring: disconnect the added edges, last
/// first, then connect the removed ones again.
pub open spec fn unwiring_ops(ops: Seq<GraphOp>, removed: Seq<EdgeView>, added: Seq<EdgeView>) -> bool {
    &&& ops.len() == removed.len() + added.len()
    &&& forall|k: int| 0 <= k < added.len() ==> disconnects(#[trigger] ops[k], added[added.len() - 1 - k].id)
    &&& forall|i: int| 0 <= i < removed.len() ==> reconnects(#[trigger] ops[added.len() + i], removed[i])
}

/// Wiring the node at `pos` of `g` with new edge ids `ids` turns the edges
/// into `edges_after`, the outcome `out0` into `out1` and the undo chunks
/// `chunks0` into `chunks1`. When wiring changes no edge, the outcome and the
/// chunks stay as they were; else the removed edges and the operations are
/// appended to the outcome and one undo chunk is added.
pub open spec fn auto_wired(
    g: Graph,
    reg: PieceRegistry,
    pos: GridPos,
    ids: Seq<u128>,
    edges_after: Map<u128, Edge>,
    out0: ApplyOpsOutcome,
    out1: ApplyOpsOutcome,
    chunks0: Seq<Vec<GraphOp>>,
    chunks1: Seq<Vec<GraphOp>>,
) -> bool {
    match spec_auto_wire(g, reg, pos, ids) {
        None => edges_after == g.edges.as_map() && out1 == out0 && chunks1 == chunks0,
        Some(w) => {
            &&& edge_views(edges_after) == w.edges
            &&& if w.removed.len() == 0 && w.added.len() == 0 {
                out1 == out0 && chunks1 == chunks0
            } else {
                &&& out1.undo_ops == out0.undo_ops
                &&& edge_seq_views(out1.removed_edges@) == edge_seq_views(out0.removed_edges@) + w.removed
                &&& out1.applied_ops@.take(out0.applied_ops@.len() as int) == out0.applied_ops@
                &&& out0.applied_ops@.len() <= out1.applied_ops@.len()
                &&& wiring_ops(out1.applied_ops@.skip(out0.applied_ops@.len() as int), w.removed, w.added)
                &&& chunks1.len() == chunks0.len() + 1
                &&& chunks1.take(chunks0.len() as int) == chunks0
                &&& unwiring_ops(chunks1[chunks0.len() as int]@, w.removed, w.added)
            }
        },
    }
}

proof fn lemma_edge_views_insert(m: Map<u128, Edge>, k: u128, e: Edge)
    ensures
        edge_views(m.insert(k, e)) == edge_views(m).insert(k, e@),
{
    assert(edge_views(m.insert(k, e)) =~= edge_views(m).insert(k, e@));
}

/// The connect operation that restores `edge` under its own id.
pub fn edge_connect_from(edge: &Edge) -> (r: GraphOp)
    ensures
        reconnects(r, edge@),
{
    GraphOp::EdgeConnect {
        edge_id: Some(edge.id.clone()),
        from: edge.from,
        to_node: edge.to_node,
        to_param: edge.to_param.clone(),
    }
}

/// Wires the node at `position` to its neighbours (see `spec_auto_wire` and
/// `auto_wired`). New edges take fresh random ids, so the contract holds
/// for whichever ids come out.
pub fn auto_wire_node(
    graph: &mut Graph,
    registry: &PieceRegistry,
    position: &GridPos,
    outcome: &mut ApplyOpsOutcome,
    inverse_chunks: &mut Vec<Vec<GraphOp>>,
)
    requires
        nodes_interior(*old(graph)),
    ensures
        final(graph).nodes == old(graph).nodes,
        final(graph).name == old(graph).name,
        final(graph).cols == old(graph).cols,
        final(graph).rows == old(graph).rows,
        exists|ids: Seq<u128>|
            auto_wired(
                *old(graph),
                *registry,
                *position,
                ids,
                final(graph).edges.as_map(),
                *old(outcome),
                *final(outcome),
                old(inverse_chunks)@,
                final(inverse_chunks)@,
            ),
{
    let ghost g0 = *graph;
    if !graph.nodes.contains_key(position) {
        proof {
            assert(auto_wired(g0, *registry, *position, seq![], graph.edges.as_map(), *outcome, *outcome, inverse_chunks@, inverse_chunks@));
        }
        return;
    }
    let known = match graph.nodes.get(position) {
        Some(n) => registry.get(n.piece_id.as_str()).is_some(),
        None => false,
    };
    if !known {
        proof {
            assert(auto_wired(g0, *registry, *position, seq![], graph.edges.as_map(), *outcome, *outcome, inverse_chunks@, inverse_chunks@));
        }
        return;
    }
    let mut removed_for_node: Vec<Edge> = Vec::new();
    prune_invalid_touching_edges(graph, registry, position, &mut removed_for_node);
    let ghost doomed = stale_after_rewire(g0, *registry, *position);
    let ghost kept = edge_views(keep_edges(g0.edges.as_map(), doomed));
    let node = match graph.nodes.get(position) {
        Some(n) => n,
        None => {
            return;
        },
    };
    let def = match registry.get(node.piece_id.as_str()) {
        Some(d) => d,
        None => {
            return;
        },
    };
    let mut added_edges: Vec<Edge> = Vec::new();
    let ghost mut drawn: Seq<u128> = seq![];
    let mut j: usize = 0;
    while j < def.params.len()
        invariant
            graph.nodes == g0.nodes,
            graph.name == g0.name,
            graph.cols == g0.cols,
            graph.rows == g0.rows,
            nodes_interior(g0),
            g0.nodes.as_map().contains_key(*position),
            *node == g0.nodes.as_map()[*position],
            registry.defs().contains_key(node.piece_id@),
            *def == registry.defs()[node.piece_id@],
            j <= def.params@.len(),
            drawn.len() == added_edges@.len(),
            (edge_views(graph.edges.as_map()), edge_seq_views(added_edges@)) == wire_inputs(
                g0,
                *registry,
                *position,
                *node,
                *def,
                kept,
                drawn,
                j as int,
            ),
        decreases def.params@.len() - j,
    {
        let ghost before = (edge_views(graph.edges.as_map()), edge_seq_views(added_edges@));
        let param = &def.params[j];
        let taken = find_edge_into(graph, position, param.id.as_str()).is_some();
        let side = effective_input_side(node, def, param.id.as_str());
        let mut wired = false;
        if !taken && side.is_some() {
            let source_pos = adjacent_in_direction(position, side);
            if source_pos != *position && graph.nodes.contains_key(&source_pos) {
                let check = validate_edge_connect(graph, registry, &source_pos, position, param.id.as_str());
                proof {
                    lemma_validate_ok(*graph, *registry, source_pos, *position, param.id@);
                }
                if check.is_ok() {
                    let id = EdgeId::new();
                    let edge = Edge { id, from: source_pos, to_node: *position, to_param: param.id.clone() };
                    let ghost m_before = graph.edges.as_map();
                    graph.edges.insert(edge.id.clone(), edge.clone());
                    proof {
                        lemma_edge_views_insert(m_before, edge.id@, edge);
                        assert(drawn.push(id@).take(drawn.len() as int) =~= drawn);
                        lemma_wire_inputs_prefix(g0, *registry, *position, *node, *def, kept, drawn, drawn.push(id@), j as int);
                    }
                    added_edges.push(edge);
                    proof {
                        drawn = drawn.push(id@);
                        assert(edge_seq_views(added_edges@) =~= before.1.push(edge@));
                    }
                    wired = true;
                }
            }
        }
        j = j + 1;
    }
    let ghost wired_map = edge_views(graph.edges.as_map());
    let ghost inputs_added = edge_seq_views(added_edges@);
    match node_output_side(node, def) {
        Some(output_side) => {
            let target_pos = adjacent_in_direction(position, Some(output_side));
            if target_pos != *position && graph.nodes.contains_key(&target_pos) {
                let probe = probe_edge_connect(graph, registry, position, &target_pos, None);
                proof {
                    lemma_pick_param(*graph, *registry, *position, target_pos);
                }
                match probe.to_param {
                    Some(to_param) => {
                        let id = EdgeId::new();
                        let edge = Edge { id, from: *position, to_node: target_pos, to_param };
                        let ghost m_before = graph.edges.as_map();
                        graph.edges.insert(edge.id.clone(), edge.clone());
                        proof {
                            lemma_edge_views_insert(m_before, edge.id@, edge);
                            assert(drawn.push(id@).take(drawn.len() as int) =~= drawn);
                            lemma_wire_inputs_prefix(
                                g0,
                                *registry,
                                *position,
                                *node,
                                *def,
                                kept,
                                drawn,
                                drawn.push(id@),
                                def.params@.len() as int,
                            );
                        }
                        added_edges.push(edge);
                        proof {
                            drawn = drawn.push(id@);
                            assert(edge_seq_views(added_edges@) =~= inputs_added.push(edge@));
                        }
                    },
                    None => {},
                }
            }
        },
        None => {},
    }
    proof {
        let w = spec_auto_wire(g0, *registry, *position, drawn);
        assert(w is Some);
        assert(edge_views(graph.edges.as_map()) == w.unwrap().edges);
        assert(edge_seq_views(added_edges@) == w.unwrap().added);
        assert(edge_seq_views(removed_for_node@) == w.unwrap().removed) by {
            assert(removed_for_node@ =~= g0.edges.value_seq().filter(doomed));
        }
    }
    if removed_for_node.len() == 0 && added_edges.len() == 0 {
        proof {
            assert(auto_wired(g0, *registry, *position, drawn, graph.edges.as_map(), *outcome, *outcome, inverse_chunks@, inverse_chunks@));
        }
        return;
    }
    let ghost out0 = *outcome;
    let ghost removed_v = edge_seq_views(removed_for_node@);
    let ghost added_v = edge_seq_views(added_edges@);
    let mut inverse: Vec<GraphOp> = Vec::new();
    let mut i: usize = 0;
    while i < removed_for_node.len()
        invariant
            i <= removed_for_node@.len(),
            removed_v == edge_seq_views(removed_for_node@),
            outcome.undo_ops == out0.undo_ops,
            edge_seq_views(outcome.removed_edges@) == edge_seq_views(out0.removed_edges@) + removed_v.take(i as int),
            outcome.applied_ops@.len() == out0.applied_ops@.len() + i,
            outcome.applied_ops@.take(out0.applied_ops@.len() as int) == out0.applied_ops@,
            forall|t: int|
                0 <= t < i ==> disconnects(#[trigger] outcome.applied_ops@[out0.applied_ops@.len() + t], removed_v[t].id),
            inverse@.len() == i,
            forall|t: int| 0 <= t < i ==> reconnects(#[trigger] inverse@[t], removed_v[t]),
        decreases removed_for_node@.len() - i,
    {
        let edge = &removed_for_node[i];
        let ghost rv = edge_seq_views(outcome.removed_edges@);
        outcome.removed_edges.push(edge.clone());
        outcome.applied_ops.push(GraphOp::EdgeDisconnect { edge_id: edge.id.clone() });
        inverse.push(edge_connect_from(edge));
        proof {
            assert(edge_seq_views(outcome.removed_edges@) =~= rv.push(removed_v[i as int]));
            assert(removed_v.take(i + 1) =~= removed_v.take(i as int).push(removed_v[i as int]));
            assert(outcome.applied_ops@.take(out0.applied_ops@.len() as int) =~= out0.applied_ops@);
        }
        i = i + 1;
    }
    let ghost r = removed_for_node@.len() as int;
    let mut k: usize = 0;
    while k < added_edges.len()
        invariant
            k <= added_edges@.len(),
            r == removed_v.len(),
            added_v == edge_seq_views(added_edges@),
            outcome.undo_ops == out0.undo_ops,
            edge_seq_views(outcome.removed_edges@) == edge_seq_views(out0.removed_edges@) + removed_v,
            outcome.applied_ops@.len() == out0.applied_ops@.len() + r + k,
            outcome.applied_ops@.take(out0.applied_ops@.len() as int) == out0.applied_ops@,
            forall|t: int|
                0 <= t < r ==> disconnects(#[trigger] outcome.applied_ops@[out0.applied_ops@.len() + t], removed_v[t].id),
            forall|t: int|
                0 <= t < k ==> reconnects(#[trigger] outcome.applied_ops@[out0.applied_ops@.len() + r + t], added_v[t]),
            inverse@.len() == r + k,
            forall|t: int| 0 <= t < k ==> disconnects(#[trigger] inverse@[t], added_v[k - 1 - t].id),
            forall|t: int| 0 <= t < r ==> reconnects(#[trigger] inverse@[k + t], removed_v[t]),
        decreases added_edges@.len() - k,
    {
        let edge = &added_edges[k];
        let ghost inv_before = inverse@;
        outcome.applied_ops.push(
            GraphOp::EdgeConnect {
                edge_id: Some(edge.id.clone()),
                from: edge.from,
                to_node: edge.to_node,
                to_param: edge.to_param.clone(),
            },
        );
        inverse.insert(0, GraphOp::EdgeDisconnect { edge_id: edge.id.clone() });
        proof {
            assert(outcome.applied_ops@.take(out0.applied_ops@.len() as int) =~= out0.applied_ops@);
            assert forall|t: int| 0 <= t < k + 1 implies disconnects(#[trigger] inverse@[t], added_v[k + 1 - 1 - t].id) by {
                if t > 0 {
                    assert(inverse@[t] == inv_before[t - 1]);
                }
            }
            assert forall|t: int| 0 <= t < r implies reconnects(#[trigger] inverse@[k + 1 + t], removed_v[t]) by {
                assert(inverse@[k + 1 + t] == inv_before[k + t]);
            }
        }
        k = k + 1;
    }
    let ghost chunks0 = inverse_chunks@;
    inverse_chunks.push(inverse);
    proof {
        let w = spec_auto_wire(g0, *registry, *position, drawn).unwrap();
        let skipped = outcome.applied_ops@.skip(out0.applied_ops@.len() as int);
        assert forall|t: int| 0 <= t < removed_v.len() implies disconnects(#[trigger] skipped[t], removed_v[t].id) by {
            assert(skipped[t] == outcome.applied_ops@[out0.applied_ops@.len() + t]);
        }
        assert forall|t: int| 0 <= t < added_v.len() implies reconnects(#[trigger] skipped[removed_v.len() + t], added_v[t]) by {
            assert(skipped[removed_v.len() + t] == outcome.applied_ops@[out0.applied_ops@.len() + r + t]);
        }
        assert(wiring_ops(skipped, w.removed, w.added));
        assert(inverse_chunks@.take(chunks0.len() as int) =~= chunks0);
        assert(auto_wired(g0, *registry, *position, drawn, graph.edges.as_map(), out0, *outcome, chunks0, inverse_chunks@));
    }
}

/// The edge view starts or ends at `pos`.
pub open spec fn view_touches(e: EdgeView, pos: GridPos) -> bool {
    e.from == pos || e.to_node == pos
}

#[verifier::spinoff_prover]
proof fn lemma_wire_inputs_local(
    g: Graph,
    reg: PieceRegistry,
    pos: GridPos,
    node: Node,
    def: PieceDef,
    edges: Map<u128, EdgeView>,
    ids: Seq<u128>,
    j: int,
)
    ensures
        ({
            let (m, added) = wire_inputs(g, reg, pos, node, def, edges, ids, j);
            &&& forall|i: int| 0 <= i < added.len() ==> (#[trigger] added[i]).to_node == pos
            &&& forall|k: u128|
                !(exists|i: int| 0 <= i < added.len() && (#[trigger] added[i]).id == k) ==> (#[trigger] m.contains_key(k)
                    == edges.contains_key(k) && (edges.contains_key(k) ==> m[k] == edges[k]))
        }),
    decreases j,
{
    if j > 0 {
        lemma_wire_inputs_local(g, reg, pos, node, def, edges, ids, j - 1);
        let (m0, a0) = wire_inputs(g, reg, pos, node, def, edges, ids, j - 1);
        let (m, added) = wire_inputs(g, reg, pos, node, def, edges, ids, j);
        if added.len() > a0.len() {
            assert(added == a0.push(added.last()));
            assert forall|k: u128|
                !(exists|i: int| 0 <= i < added.len() && (#[trigger] added[i]).id == k) implies (#[trigger] m.contains_key(k)
                    == edges.contains_key(k) && (edges.contains_key(k) ==> m[k] == edges[k])) by {
                assert(added[added.len() - 1].id != k);
                assert(!(exists|i: int| 0 <= i < a0.len() && (#[trigger] a0[i]).id == k)) by {
                    if exists|i: int| 0 <= i < a0.len() && (#[trigger] a0[i]).id == k {
                        let i = choose|i: int| 0 <= i < a0.len() && (#[trigger] a0[i]).id == k;
                        assert(added[i] == a0[i]);
                    }
                }
            }
            assert forall|i: int| 0 <= i < added.len() implies (#[trigger] added[i]).to_node == pos by {
                if i < a0.len() {
                    assert(added[i] == a0[i]);
                }
            }
        } else {
            assert(added == a0 && m == m0);
        }
    }
}

/// Auto-wiring the node at `pos` changes only edges at that node: every
/// edge it removes or adds starts or ends at `pos`, and every other edge
/// keeps its entry unless a new edge took its id.
pub proof fn lemma_auto_wire_is_local(g: Graph, reg: PieceRegistry, pos: GridPos, ids: Seq<u128>)
    requires
        spec_auto_wire(g, reg, pos, ids) is Some,
    ensures
        ({
            let w = spec_auto_wire(g, reg, pos, ids)->Some_0;
            let before = edge_views(g.edges.as_map());
            &&& forall|i: int| 0 <= i < w.removed.len() ==> view_touches(#[trigger] w.removed[i], pos)
            &&& forall|i: int| 0 <= i < w.added.len() ==> view_touches(#[trigger] w.added[i], pos)
            &&& forall|k: u128|
                before.contains_key(k) && !view_touches(before[k], pos) && !(exists|i: int|
                    0 <= i < w.added.len() && (#[trigger] w.added[i]).id == k) ==> #[trigger] w.edges.contains_key(k)
                    && w.edges[k] == before[k]
        }),
{
    broadcast use vstd::seq_lib::group_filter_ensures;

    let node = g.nodes.as_map()[pos];
    let def = reg.defs()[node.piece_id@];
    let doomed = stale_after_rewire(g, reg, pos);
    let kept = edge_views(keep_edges(g.edges.as_map(), doomed));
    let before = edge_views(g.edges.as_map());
    let (wired, added) = wire_inputs(g, reg, pos, node, def, kept, ids, def.params@.len() as int);
    lemma_wire_inputs_local(g, reg, pos, node, def, kept, ids, def.params@.len() as int);
    let w = spec_auto_wire(g, reg, pos, ids)->Some_0;
    let rem = g.edges.value_seq().filter(doomed);
    assert forall|i: int| 0 <= i < w.removed.len() implies view_touches(#[trigger] w.removed[i], pos) by {
        assert(w.removed[i] == rem[i]@);
        assert(doomed(rem[i]));
    }
    assert forall|i: int| 0 <= i < w.added.len() implies view_touches(#[trigger] w.added[i], pos) by {
        if i < added.len() {
            assert(w.added[i] == added[i]);
        }
    }
    assert forall|k: u128|
        before.contains_key(k) && !view_touches(before[k], pos) && !(exists|i: int|
            0 <= i < w.added.len() && (#[trigger] w.added[i]).id == k) implies #[trigger] w.edges.contains_key(k)
        && w.edges[k] == before[k] by {
        assert(!doomed(g.edges.as_map()[k]));
        assert(kept.contains_key(k) && kept[k] == before[k]);
        assert(!(exists|i: int| 0 <= i < added.len() && (#[trigger] added[i]).id == k)) by {
            if exists|i: int| 0 <= i < added.len() && (#[trigger] added[i]).id == k {
                let i = choose|i: int| 0 <= i < added.len() && (#[trigger] added[i]).id == k;
                assert(w.added[i] == added[i]);
            }
        }
        if w.added.len() > added.len() {
            assert(w.added[added.len() as int].id != k);
        }
    }
}


/// Parameter `pid` of the node at `pos` can be wired from its side: the
/// side is known, the neighbour there holds a node, and the edge from that
/// neighbour into `pid` passes the connection checks other than the free
/// slot.
pub open spec fn wireable(g: Graph, reg: PieceRegistry, pos: GridPos, node: Node, def: PieceDef, pid: Seq<char>) -> bool {
    let side = spec_effective_input_side(node, def, pid);
    let src = spec_adjacent(pos, side);
    &&& side is Some
    &&& src != pos
    &&& g.nodes.as_map().contains_key(src)
    &&& link_ok(g, reg, src, pos, pid)
}

/// Ids drawn for new edges: all different, and none taken by an edge of `m`.
pub open spec fn fresh_ids(ids: Seq<u128>, keys: Set<u128>) -> bool {
    &&& forall|i: int, k: int| 0 <= i < k < ids.len() ==> ids[i] != ids[k]
    &&& forall|i: int| 0 <= i < ids.len() ==> !keys.contains(#[trigger] ids[i])
}

proof fn lemma_wire_inputs_feed(
    g: Graph,
    reg: PieceRegistry,
    pos: GridPos,
    node: Node,
    def: PieceDef,
    edges: Map<u128, EdgeView>,
    ids: Seq<u128>,
    j: int,
)
    requires
        0 <= j <= def.params@.len(),
        j <= ids.len(),
        fresh_ids(ids, edges.dom()),
    ensures
        ({
            let (m, added) = wire_inputs(g, reg, pos, node, def, edges, ids, j);
            &&& added.len() <= j
            &&& forall|i: int| 0 <= i < added.len() ==> (#[trigger] added[i]).id == ids[i]
            &&& forall|i: int|
                0 <= i < added.len() ==> m.contains_key((#[trigger] added[i]).id) && m[added[i].id] == added[i]
                    && added[i].to_node == pos && link_ok(g, reg, added[i].from, pos, added[i].to_param)
            &&& forall|k: u128| #[trigger] edges.contains_key(k) ==> m.contains_key(k) && m[k] == edges[k]
            &&& forall|k: u128|
                #[trigger] m.contains_key(k) ==> edges.contains_key(k) || exists|i: int| 0 <= i < added.len() && ids[i] == k
            &&& forall|t: int|
                0 <= t < j && wireable(g, reg, pos, node, def, #[trigger] def.params@[t].id@) ==> slot_taken_in(
                    m,
                    pos,
                    def.params@[t].id@,
                )
        }),
    decreases j,
{
    if j > 0 {
        lemma_wire_inputs_feed(g, reg, pos, node, def, edges, ids, j - 1);
        let (m0, a0) = wire_inputs(g, reg, pos, node, def, edges, ids, j - 1);
        let (m, added) = wire_inputs(g, reg, pos, node, def, edges, ids, j);
        let pid = def.params@[j - 1].id@;
        if added.len() > a0.len() {
            let a = a0.len() as int;
            let e = added[a];
            assert(e.id == ids[a]);
            assert(!m0.contains_key(ids[a])) by {
                if m0.contains_key(ids[a]) {
                    if !edges.contains_key(ids[a]) {
                        let i = choose|i: int| 0 <= i < a0.len() && ids[i] == ids[a];
                        assert(i < a);
                    }
                }
            }
            assert(m == m0.insert(ids[a], e));
            assert forall|t: int|
                0 <= t < j && wireable(g, reg, pos, node, def, #[trigger] def.params@[t].id@) implies slot_taken_in(
                m,
                pos,
                def.params@[t].id@,
            ) by {
                if t < j - 1 {
                    let k = choose|k: u128| m0.contains_key(k) && #[trigger] view_into(m0[k], pos, def.params@[t].id@);
                    assert(m.contains_key(k) && m[k] == m0[k]);
                } else {
                    assert(view_into(m[ids[a]], pos, pid));
                }
            }
            assert forall|i: int| 0 <= i < added.len() implies (#[trigger] added[i]).id == ids[i] by {
                if i < a {
                    assert(added[i] == a0[i]);
                }
            }
            assert forall|i: int| 0 <= i < added.len() implies m.contains_key((#[trigger] added[i]).id) && m[added[i].id] == added[i]
                && added[i].to_node == pos && link_ok(g, reg, added[i].from, pos, added[i].to_param) by {
                if i < a {
                    assert(added[i] == a0[i]);
                    assert(ids[i] != ids[a]);
                    assert(m0.contains_key(a0[i].id) && m0[a0[i].id] == a0[i]);
                } else {
                    assert(i == a);
                    assert(m[ids[a]] == e);
                }
            }
            assert forall|k: u128| #[trigger] m.contains_key(k) implies edges.contains_key(k) || exists|i: int|
                0 <= i < added.len() && ids[i] == k by {
                if k != ids[a] && !edges.contains_key(k) {
                    let i = choose|i: int| 0 <= i < a0.len() && ids[i] == k;
                    assert(0 <= i < added.len() && ids[i] == k);
                }
            }
        } else {
            assert(m == m0 && added == a0);
            assert forall|i: int| 0 <= i < added.len() implies m.contains_key((#[trigger] added[i]).id) && m[added[i].id] == added[i]
                && added[i].to_node == pos && link_ok(g, reg, added[i].from, pos, added[i].to_param) by {
                assert(added[i] == a0[i]);
            }
            assert forall|t: int|
                0 <= t < j && wireable(g, reg, pos, node, def, #[trigger] def.params@[t].id@) implies slot_taken_in(
                m,
                pos,
                def.params@[t].id@,
            ) by {
                if t == j - 1 {
                    assert(slot_taken_in(m0, pos, pid));
                }
            }
        }
    }
}

/// After auto-wiring the node at `pos` with fresh ids (enough of them, all
/// different and unused), every parameter of its piece that can be wired
/// from its side (the side is known, the neighbour there holds a node, and
/// that neighbour's edge into the parameter passes the connection checks)
/// is fed by an edge, whether it was fed before or not.
pub proof fn lemma_auto_wire_feeds_every_wireable_param(g: Graph, reg: PieceRegistry, pos: GridPos, ids: Seq<u128>)
    requires
        spec_auto_wire(g, reg, pos, ids) is Some,
        ids.len() > reg.defs()[g.nodes.as_map()[pos].piece_id@].params@.len(),
        fresh_ids(ids, g.edges.as_map().dom()),
    ensures
        ({
            let node = g.nodes.as_map()[pos];
            let def = reg.defs()[node.piece_id@];
            forall|t: int|
                0 <= t < def.params@.len() && wireable(g, reg, pos, node, def, #[trigger] def.params@[t].id@)
                    ==> slot_taken_in(spec_auto_wire(g, reg, pos, ids)->Some_0.edges, pos, def.params@[t].id@)
        }),
{
    let node = g.nodes.as_map()[pos];
    let def = reg.defs()[node.piece_id@];
    let doomed = stale_after_rewire(g, reg, pos);
    let kept = edge_views(keep_edges(g.edges.as_map(), doomed));
    assert(kept.dom().subset_of(g.edges.as_map().dom()));
    let n = def.params@.len() as int;
    lemma_wire_inputs_feed(g, reg, pos, node, def, kept, ids, n);
    let (wired, added) = wire_inputs(g, reg, pos, node, def, kept, ids, n);
    let w = spec_auto_wire(g, reg, pos, ids)->Some_0;
    let a = added.len() as int;
    if w.edges != wired {
        let out = wire_output(g, reg, pos, node, def, wired, ids[a])->Some_0;
        assert(w.edges == wired.insert(out.id, out));
        assert(out.id == ids[a]);
        assert(!wired.contains_key(ids[a])) by {
            if wired.contains_key(ids[a]) {
                if !kept.contains_key(ids[a]) {
                    let i = choose|i: int| 0 <= i < added.len() && ids[i] == ids[a];
                    assert(i < a);
                }
            }
        }
        assert forall|t: int|
            0 <= t < n && wireable(g, reg, pos, node, def, #[trigger] def.params@[t].id@) implies slot_taken_in(
            w.edges,
            pos,
            def.params@[t].id@,
        ) by {
            let k = choose|k: u128| wired.contains_key(k) && #[trigger] view_into(wired[k], pos, def.params@[t].id@);
            assert(w.edges.contains_key(k) && w.edges[k] == wired[k]);
        }
    }
}


/// After auto-wiring the node at `pos` with fresh ids, every edge into the
/// node passes the connection checks other than the free slot: stale edges
/// into it are gone and every edge it gains is checked.
pub proof fn lemma_auto_wire_inputs_all_valid(g: Graph, reg: PieceRegistry, pos: GridPos, ids: Seq<u128>)
    requires
        spec_auto_wire(g, reg, pos, ids) is Some,
        ids.len() > reg.defs()[g.nodes.as_map()[pos].piece_id@].params@.len(),
        fresh_ids(ids, g.edges.as_map().dom()),
    ensures
        ({
            let w = spec_auto_wire(g, reg, pos, ids)->Some_0.edges;
            forall|k: u128|
                #[trigger] w.contains_key(k) && w[k].to_node == pos ==> link_ok(g, reg, w[k].from, pos, w[k].to_param)
        }),
{
    let node = g.nodes.as_map()[pos];
    let def = reg.defs()[node.piece_id@];
    let doomed = stale_after_rewire(g, reg, pos);
    let kept = edge_views(keep_edges(g.edges.as_map(), doomed));
    assert(kept.dom().subset_of(g.edges.as_map().dom()));
    let n = def.params@.len() as int;
    lemma_wire_inputs_feed(g, reg, pos, node, def, kept, ids, n);
    let (wired, added) = wire_inputs(g, reg, pos, node, def, kept, ids, n);
    let w = spec_auto_wire(g, reg, pos, ids)->Some_0;
    assert forall|k: u128| #[trigger] wired.contains_key(k) && wired[k].to_node == pos implies link_ok(
        g,
        reg,
        wired[k].from,
        pos,
        wired[k].to_param,
    ) by {
        if kept.contains_key(k) {
            let e = g.edges.as_map()[k];
            assert(!doomed(e));
            assert(wired[k] == e@);
        } else {
            let i = choose|i: int| 0 <= i < added.len() && ids[i] == k;
            assert(wired[added[i].id] == added[i]);
        }
    }
    if w.edges != wired {
        let a = added.len() as int;
        let out = wire_output(g, reg, pos, node, def, wired, ids[a])->Some_0;
        assert(w.edges == wired.insert(out.id, out));
        assert(out.to_node != pos);
    }
}

} // verus!
