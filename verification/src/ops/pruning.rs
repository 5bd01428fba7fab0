//! Dropping the edges of a node that no longer fit after it moved or was
//! rewired.

use vstd::prelude::*;

use crate::graph::{Edge, Graph};
use crate::internal::{effective_input_side, find_param, first_param, spec_effective_input_side};
use crate::ops::validation::{
    interior, link_ok, resolve_edge_connect_base, schema_accepts, source_output_type_for_target_side, spec_connect_base,
    spec_source_type,
};
use crate::piece_registry::PieceRegistry;
use crate::types::{adjacent_in_direction, spec_adjacent, EdgeId, GridPos};

verus! {

/// `e` starts or ends at `pos`.
pub open spec fn touches(e: Edge, pos: GridPos) -> bool {
    e.from == pos || e.to_node == pos
}

/// The edge still comes from the neighbour on its parameter's side. An
/// edge whose target node is gone fails; one whose target piece or
/// parameter is unknown passes, as nothing places it.
pub open spec fn spec_edge_still_adjacent(g: Graph, reg: PieceRegistry, e: Edge) -> bool {
    let nodes = g.nodes.as_map();
    if !nodes.contains_key(e.to_node) {
        false
    } else if !reg.defs().contains_key(nodes[e.to_node].piece_id@) {
        true
    } else {
        let def = reg.defs()[nodes[e.to_node].piece_id@];
        match first_param(def, e.to_param@) {
            None => true,
            Some(_) => spec_adjacent(e.to_node, spec_effective_input_side(nodes[e.to_node], def, e.to_param@))
                == e.from,
        }
    }
}

/// The edge still passes every check of a new connection but the one for
/// a free parameter: both nodes and pieces exist, the parameter exists,
/// the source is its neighbour, the source's output faces it and the types
/// connect.
pub open spec fn spec_edge_still_valid(g: Graph, reg: PieceRegistry, e: Edge) -> bool {
    link_ok(g, reg, e.from, e.to_node, e.to_param@)
}

/// Every node of `g` sits at a cell with neighbours inside the `i32` range.
pub open spec fn nodes_interior(g: Graph) -> bool {
    forall|p: GridPos| #[trigger] g.nodes.as_map().contains_key(p) ==> interior(p)
}

pub fn edge_is_still_adjacent(edge: &Edge, graph: &Graph, registry: &PieceRegistry) -> (r: bool)
    requires
        nodes_interior(*graph),
    ensures
        r == spec_edge_still_adjacent(*graph, *registry, *edge),
{
    let target_node = match graph.nodes.get(&edge.to_node) {
        Some(n) => n,
        None => {
            return false;
        },
    };
    let target_def = match registry.get(target_node.piece_id.as_str()) {
        Some(d) => d,
        None => {
            return true;
        },
    };
    match find_param(target_def, edge.to_param.as_str()) {
        None => true,
        Some(_) => {
            let side = effective_input_side(target_node, target_def, edge.to_param.as_str());
            let expected = adjacent_in_direction(&edge.to_node, side);
            expected == edge.from
        },
    }
}

pub fn edge_is_still_valid(edge: &Edge, graph: &Graph, registry: &PieceRegistry) -> (r: bool)
    requires
        nodes_interior(*graph),
    ensures
        r == spec_edge_still_valid(*graph, *registry, *edge),
{
    let (from_node, to_node_ref, from_def, to_def) = match resolve_edge_connect_base(
        graph,
        registry,
        &edge.from,
        &edge.to_node,
    ) {
        Ok(base) => base,
        Err(_) => {
            return false;
        },
    };
    let param_def = match find_param(to_def, edge.to_param.as_str()) {
        Some(p) => p,
        None => {
            return false;
        },
    };
    let target_side = match effective_input_side(to_node_ref, to_def, edge.to_param.as_str()) {
        Some(s) => s,
        None => param_def.side,
    };
    let expected = adjacent_in_direction(&edge.to_node, Some(target_side));
    if expected != edge.from {
        return false;
    }
    match source_output_type_for_target_side(from_node, from_def, &edge.from, target_side) {
        Err(_) => false,
        Ok(source_type) => param_def.schema.accepts(&source_type),
    }
}

/// The entries of `m` whose edge does not satisfy `doomed`.
pub open spec fn keep_edges(m: Map<u128, Edge>, doomed: spec_fn(Edge) -> bool) -> Map<u128, Edge> {
    Map::new(|k: u128| m.contains_key(k) && !doomed(m[k]), |k: u128| m[k])
}

/// The edges that touch `pos` and no longer come from the right neighbour.
pub open spec fn stale_after_move(g: Graph, reg: PieceRegistry, pos: GridPos) -> spec_fn(Edge) -> bool {
    |e: Edge| touches(e, pos) && !spec_edge_still_adjacent(g, reg, e)
}

/// The edges that touch `pos` and would no longer be accepted.
pub open spec fn stale_after_rewire(g: Graph, reg: PieceRegistry, pos: GridPos) -> spec_fn(Edge) -> bool {
    |e: Edge| touches(e, pos) && !spec_edge_still_valid(g, reg, e)
}

/// The indices, among the first `n` edges, of those satisfying `doomed`.
pub(crate) open spec fn doomed_indices(vals: Seq<Edge>, doomed: spec_fn(Edge) -> bool, n: int) -> Seq<int>
    decreases n,
{
    if n <= 0 {
        seq![]
    } else if doomed(vals[n - 1]) {
        doomed_indices(vals, doomed, n - 1).push(n - 1)
    } else {
        doomed_indices(vals, doomed, n - 1)
    }
}

pub(crate) proof fn lemma_doomed_indices(vals: Seq<Edge>, doomed: spec_fn(Edge) -> bool, n: int)
    requires
        0 <= n <= vals.len(),
    ensures
        forall|t: int|
            0 <= t < doomed_indices(vals, doomed, n).len() ==> 0 <= #[trigger] doomed_indices(vals, doomed, n)[t]
                < n && doomed(vals[doomed_indices(vals, doomed, n)[t]]),
        forall|s: int, t: int|
            0 <= s < t < doomed_indices(vals, doomed, n).len() ==> #[trigger] doomed_indices(vals, doomed, n)[s]
                < #[trigger] doomed_indices(vals, doomed, n)[t],
        forall|i: int|
            0 <= i < n && doomed(#[trigger] vals[i]) ==> doomed_indices(vals, doomed, n).contains(i),
        doomed_indices(vals, doomed, n).map_values(|i: int| vals[i]) == vals.take(n).filter(doomed),
    decreases n,
{
    broadcast use Seq::lemma_filter_push;

    if n > 0 {
        lemma_doomed_indices(vals, doomed, n - 1);
        assert(vals.take(n) =~= vals.take(n - 1).push(vals[n - 1]));
        let prev = doomed_indices(vals, doomed, n - 1);
        if doomed(vals[n - 1]) {
            assert(prev.push(n - 1).map_values(|i: int| vals[i]) =~= prev.map_values(|i: int| vals[i]).push(
                vals[n - 1],
            ));
            assert forall|i: int| 0 <= i < n && doomed(#[trigger] vals[i]) implies prev.push(n - 1).contains(i) by {
                if i < n - 1 {
                    let t = choose|t: int| 0 <= t < prev.len() && prev[t] == i;
                    assert(prev.push(n - 1)[t] == i);
                } else {
                    assert(prev.push(n - 1)[prev.len() as int] == i);
                }
            }
        }
    } else {
        assert(vals.take(0) =~= Seq::<Edge>::empty());
        assert(Seq::<Edge>::empty().filter(doomed) =~= Seq::<Edge>::empty()) by {
            reveal(Seq::filter);
        }
        assert(doomed_indices(vals, doomed, 0).map_values(|i: int| vals[i]) =~= Seq::<Edge>::empty());
    }
}

/// Removes from `graph` the edges that satisfy `doomed`, given the ids of
/// exactly those edges in id order, and appends them to `removed`.
pub(crate) fn remove_listed_edges(
    graph: &mut Graph,
    ids: &Vec<EdgeId>,
    removed: &mut Vec<Edge>,
    Ghost(doomed): Ghost<spec_fn(Edge) -> bool>,
    Ghost(idx): Ghost<Seq<int>>,
)
    requires
        ids@.len() == idx.len(),
        forall|t: int|
            0 <= t < idx.len() ==> 0 <= #[trigger] idx[t] < old(graph).edges.key_seq().len() && ids@[t]@
                == old(graph).edges.key_seq()[idx[t]],
        forall|s: int, t: int| 0 <= s < t < idx.len() ==> #[trigger] idx[s] < #[trigger] idx[t],
        forall|i: int|
            0 <= i < old(graph).edges.value_seq().len() && doomed(#[trigger] old(graph).edges.value_seq()[i])
                ==> idx.contains(i),
        forall|t: int| 0 <= t < idx.len() ==> doomed(old(graph).edges.value_seq()[#[trigger] idx[t]]),
        old(graph).edges.key_seq().len() == old(graph).edges.value_seq().len(),
        old(graph).edges.keys_sorted(),
        forall|i: int|
            #![trigger old(graph).edges.key_seq()[i]]
            0 <= i < old(graph).edges.key_seq().len() ==> old(graph).edges.as_map().contains_key(
                old(graph).edges.key_seq()[i],
            ) && old(graph).edges.as_map()[old(graph).edges.key_seq()[i]] == old(graph).edges.value_seq()[i],
        forall|k: u128|
            #[trigger] old(graph).edges.as_map().contains_key(k) ==> exists|i: int|
                0 <= i < old(graph).edges.key_seq().len() && old(graph).edges.key_seq()[i] == k,
    ensures
        final(graph).nodes == old(graph).nodes,
        final(graph).name == old(graph).name,
        final(graph).cols == old(graph).cols,
        final(graph).rows == old(graph).rows,
        final(graph).edges.as_map() == keep_edges(old(graph).edges.as_map(), doomed),
        final(removed)@ == old(removed)@ + idx.map_values(|i: int| old(graph).edges.value_seq()[i]),
{
    let ghost m0 = graph.edges.as_map();
    let ghost ks = graph.edges.key_seq();
    let ghost vs = graph.edges.value_seq();
    let ghost r0 = removed@;
    let mut t: usize = 0;
    while t < ids.len()
        invariant
            ids@.len() == idx.len(),
            0 <= t <= ids@.len(),
            forall|u: int| 0 <= u < idx.len() ==> 0 <= #[trigger] idx[u] < ks.len() && ids@[u]@ == ks[idx[u]],
            forall|s: int, u: int| 0 <= s < u < idx.len() ==> #[trigger] idx[s] < #[trigger] idx[u],
            ks.len() == vs.len(),
            forall|i: int, j: int| 0 <= i < j < ks.len() ==> #[trigger] ks[i] < #[trigger] ks[j],
            forall|i: int|
                #![trigger ks[i]]
                0 <= i < ks.len() ==> m0.contains_key(ks[i]) && m0[ks[i]] == vs[i],
            graph.nodes == old(graph).nodes,
            graph.name == old(graph).name,
            graph.cols == old(graph).cols,
            graph.rows == old(graph).rows,
            graph.edges.as_map() == Map::new(
                |k: u128| m0.contains_key(k) && !(exists|u: int| 0 <= u < t && #[trigger] ids@[u]@ == k),
                |k: u128| m0[k],
            ),
            removed@ == r0 + idx.take(t as int).map_values(|i: int| vs[i]),
        decreases ids@.len() - t,
    {
        let ghost before = graph.edges.as_map();
        let ghost k = ids@[t as int]@;
        let gone = graph.edges.remove(&ids[t]);
        proof {
            assert(k == ks[idx[t as int]]);
            assert(m0.contains_key(k) && m0[k] == vs[idx[t as int]]);
            assert(!(exists|u: int| 0 <= u < t && #[trigger] ids@[u]@ == k)) by {
                if exists|u: int| 0 <= u < t && #[trigger] ids@[u]@ == k {
                    let u = choose|u: int| 0 <= u < t && #[trigger] ids@[u]@ == k;
                    assert(idx[u] < idx[t as int]);
                    assert(ks[idx[u]] < ks[idx[t as int]]);
                }
            }
            assert(before.contains_key(k));
        }
        let edge = match gone {
            Some(e) => e,
            None => {
                proof {
                    assert(false);
                }
                return;
            },
        };
        removed.push(edge);
        proof {
            assert(idx.take(t + 1) =~= idx.take(t as int).push(idx[t as int]));
            assert(idx.take(t + 1).map_values(|i: int| vs[i]) =~= idx.take(t as int).map_values(|i: int| vs[i]).push(
                vs[idx[t as int]],
            ));
            assert forall|kk: u128|
                #[trigger] graph.edges.as_map().contains_key(kk) == (m0.contains_key(kk) && !(exists|u: int|
                    0 <= u < t + 1 && #[trigger] ids@[u]@ == kk)) by {
                if kk == k {
                    assert(ids@[t as int]@ == kk);
                } else if exists|u: int| 0 <= u < t + 1 && #[trigger] ids@[u]@ == kk {
                    let u = choose|u: int| 0 <= u < t + 1 && #[trigger] ids@[u]@ == kk;
                    assert(u < t);
                }
            }
            assert(graph.edges.as_map() =~= Map::new(
                |kk: u128| m0.contains_key(kk) && !(exists|u: int| 0 <= u < t + 1 && #[trigger] ids@[u]@ == kk),
                |kk: u128| m0[kk],
            ));
        }
        t = t + 1;
    }
    proof {
        assert(idx.take(ids@.len() as int) =~= idx);
        assert forall|kk: u128| (m0.contains_key(kk) && !(exists|u: int| 0 <= u < ids@.len() && #[trigger] ids@[u]@ == kk))
            == keep_edges(m0, doomed).contains_key(kk) by {
            if m0.contains_key(kk) {
                let i = choose|i: int| 0 <= i < ks.len() && ks[i] == kk;
                assert(m0[kk] == vs[i]);
                if doomed(m0[kk]) {
                    assert(idx.contains(i));
                    let u = choose|u: int| 0 <= u < idx.len() && idx[u] == i;
                    assert(ids@[u]@ == kk);
                }
                if exists|u: int| 0 <= u < ids@.len() && #[trigger] ids@[u]@ == kk {
                    let u = choose|u: int| 0 <= u < ids@.len() && #[trigger] ids@[u]@ == kk;
                    assert(ks[idx[u]] == kk);
                    if idx[u] != i {
                        if idx[u] < i {
                            assert(ks[idx[u]] < ks[i]);
                        } else {
                            assert(ks[i] < ks[idx[u]]);
                        }
                    }
                    assert(doomed(vs[idx[u]]));
                }
            }
        }
        assert(graph.edges.as_map() =~= keep_edges(m0, doomed));
    }
}

/// The ids, in id order, of the edges of `graph` that satisfy `doomed`.
fn collect_doomed_ids(
    graph: &Graph,
    registry: &PieceRegistry,
    node_pos: &GridPos,
    after_move: bool,
) -> (r: Vec<EdgeId>)
    requires
        nodes_interior(*graph),
    ensures
        ({
            let doomed = if after_move {
                stale_after_move(*graph, *registry, *node_pos)
            } else {
                stale_after_rewire(*graph, *registry, *node_pos)
            };
            let idx = doomed_indices(graph.edges.value_seq(), doomed, graph.edges.value_seq().len() as int);
            &&& r@.len() == idx.len()
            &&& forall|t: int| 0 <= t < idx.len() ==> #[trigger] r@[t]@ == graph.edges.key_seq()[idx[t]]
        }),
{
    let n = graph.edges.len();
    let ghost doomed = if after_move {
        stale_after_move(*graph, *registry, *node_pos)
    } else {
        stale_after_rewire(*graph, *registry, *node_pos)
    };
    let ghost vs = graph.edges.value_seq();
    let ghost ks = graph.edges.key_seq();
    let mut ids: Vec<EdgeId> = Vec::new();
    let mut i: usize = 0;
    while i < n
        invariant
            n == ks.len(),
            ks.len() == vs.len(),
            ks == graph.edges.key_seq(),
            vs == graph.edges.value_seq(),
            nodes_interior(*graph),
            doomed == (if after_move {
                stale_after_move(*graph, *registry, *node_pos)
            } else {
                stale_after_rewire(*graph, *registry, *node_pos)
            }),
            i <= n,
            ids@.len() == doomed_indices(vs, doomed, i as int).len(),
            forall|t: int|
                0 <= t < ids@.len() ==> #[trigger] ids@[t]@ == ks[doomed_indices(vs, doomed, i as int)[t]],
        decreases n - i,
    {
        let e = graph.edges.value_at(i);
        let touching = e.from == *node_pos || e.to_node == *node_pos;
        let stale = touching && if after_move {
            !edge_is_still_adjacent(e, graph, registry)
        } else {
            !edge_is_still_valid(e, graph, registry)
        };
        if stale {
            let id = graph.edges.key_at(i).clone();
            ids.push(id);
        }
        proof {
            assert(stale == doomed(vs[i as int]));
        }
        i = i + 1;
    }
    ids
}

/// Removes the edges touching `node_pos` that no longer come from the
/// neighbour on their parameter's side, appending them (in id order) to
/// `removed_edges`.
pub fn prune_invalid_edges_for_node(
    graph: &mut Graph,
    registry: &PieceRegistry,
    node_pos: &GridPos,
    removed_edges: &mut Vec<Edge>,
)
    requires
        nodes_interior(*old(graph)),
    ensures
        final(graph).nodes == old(graph).nodes,
        final(graph).name == old(graph).name,
        final(graph).cols == old(graph).cols,
        final(graph).rows == old(graph).rows,
        final(graph).edges.as_map() == keep_edges(
            old(graph).edges.as_map(),
            stale_after_move(*old(graph), *registry, *node_pos),
        ),
        final(removed_edges)@ == old(removed_edges)@ + old(graph).edges.value_seq().filter(
            stale_after_move(*old(graph), *registry, *node_pos),
        ),
{
    prune_touching(graph, registry, node_pos, removed_edges, true);
}

/// Removes the edges touching `node_pos` that would no longer be accepted
/// as new connections, appending them (in id order) to `removed_edges`.
pub fn prune_invalid_touching_edges(
    graph: &mut Graph,
    registry: &PieceRegistry,
    node_pos: &GridPos,
    removed_edges: &mut Vec<Edge>,
)
    requires
        nodes_interior(*old(graph)),
    ensures
        final(graph).nodes == old(graph).nodes,
        final(graph).name == old(graph).name,
        final(graph).cols == old(graph).cols,
        final(graph).rows == old(graph).rows,
        final(graph).edges.as_map() == keep_edges(
            old(graph).edges.as_map(),
            stale_after_rewire(*old(graph), *registry, *node_pos),
        ),
        final(removed_edges)@ == old(removed_edges)@ + old(graph).edges.value_seq().filter(
            stale_after_rewire(*old(graph), *registry, *node_pos),
        ),
{
    prune_touching(graph, registry, node_pos, removed_edges, false);
}

fn prune_touching(
    graph: &mut Graph,
    registry: &PieceRegistry,
    node_pos: &GridPos,
    removed_edges: &mut Vec<Edge>,
    after_move: bool,
)
    requires
        nodes_interior(*old(graph)),
    ensures
        ({
            let doomed = if after_move {
                stale_after_move(*old(graph), *registry, *node_pos)
            } else {
                stale_after_rewire(*old(graph), *registry, *node_pos)
            };
            &&& final(graph).nodes == old(graph).nodes
            &&& final(graph).name == old(graph).name
            &&& final(graph).cols == old(graph).cols
            &&& final(graph).rows == old(graph).rows
            &&& final(graph).edges.as_map() == keep_edges(old(graph).edges.as_map(), doomed)
            &&& final(removed_edges)@ == old(removed_edges)@ + old(graph).edges.value_seq().filter(doomed)
        }),
{
    let ghost doomed = if after_move {
        stale_after_move(*graph, *registry, *node_pos)
    } else {
        stale_after_rewire(*graph, *registry, *node_pos)
    };
    let ghost vs = graph.edges.value_seq();
    let n = graph.edges.len();
    let ids = collect_doomed_ids(graph, registry, node_pos, after_move);
    proof {
        lemma_doomed_indices(vs, doomed, n as int);
        assert(vs.take(n as int) =~= vs);
    }
    remove_listed_edges(
        graph,
        &ids,
        removed_edges,
        Ghost(doomed),
        Ghost(doomed_indices(vs, doomed, n as int)),
    );
}

/// Pruning a node's edges a second time, on the graph the first pruning
/// left, removes nothing more: after a move and after a rewire alike.
pub proof fn lemma_prune_idempotent(g: Graph, g2: Graph, reg: PieceRegistry, pos: GridPos, after_move: bool)
    requires
        g2.nodes == g.nodes,
        g2.edges.as_map() == keep_edges(
            g.edges.as_map(),
            if after_move {
                stale_after_move(g, reg, pos)
            } else {
                stale_after_rewire(g, reg, pos)
            },
        ),
    ensures
        keep_edges(
            g2.edges.as_map(),
            if after_move {
                stale_after_move(g2, reg, pos)
            } else {
                stale_after_rewire(g2, reg, pos)
            },
        ) == g2.edges.as_map(),
{
    let p2 = if after_move {
        stale_after_move(g2, reg, pos)
    } else {
        stale_after_rewire(g2, reg, pos)
    };
    let p1 = if after_move {
        stale_after_move(g, reg, pos)
    } else {
        stale_after_rewire(g, reg, pos)
    };
    assert forall|k: u128| #[trigger] g2.edges.as_map().contains_key(k) implies !p2(g2.edges.as_map()[k]) by {
        let e = g2.edges.as_map()[k];
        assert(!p1(e));
        assert(spec_edge_still_adjacent(g2, reg, e) == spec_edge_still_adjacent(g, reg, e));
        assert(spec_connect_base(g2, reg, e.from, e.to_node) == spec_connect_base(g, reg, e.from, e.to_node));
    }
    assert(keep_edges(g2.edges.as_map(), p2) =~= g2.edges.as_map());
}


/// Pruning the edges touching `pos` as `prune_invalid_touching_edges` does
/// leaves only edges of the graph; every edge left that starts or ends at
/// `pos` passes the connection checks other than the free slot, at both
/// ends; and every edge that does not touch `pos`, or that passes those
/// checks, is kept as it was.
pub proof fn lemma_prune_touching_sound_and_complete(g: Graph, reg: PieceRegistry, pos: GridPos)
    ensures
        ({
            let before = g.edges.as_map();
            let after = keep_edges(before, stale_after_rewire(g, reg, pos));
            &&& forall|k: u128| #[trigger] after.contains_key(k) ==> before.contains_key(k) && after[k] == before[k]
            &&& forall|k: u128|
                #[trigger] after.contains_key(k) && (after[k].from == pos || after[k].to_node == pos) ==> link_ok(
                    g,
                    reg,
                    after[k].from,
                    after[k].to_node,
                    after[k].to_param@,
                )
            &&& forall|k: u128|
                #[trigger] before.contains_key(k) && (!(before[k].from == pos || before[k].to_node == pos) || link_ok(
                    g,
                    reg,
                    before[k].from,
                    before[k].to_node,
                    before[k].to_param@,
                )) ==> after.contains_key(k)
        }),
{
}


/// Pruning the edges touching a moved node at `pos` leaves only edges of
/// the graph; every edge left that starts or ends at `pos` still comes from
/// the neighbour on its parameter's side; and every edge that does not
/// touch `pos`, or that still does, is kept as it was.
pub proof fn lemma_prune_after_move_sound_and_complete(g: Graph, reg: PieceRegistry, pos: GridPos)
    ensures
        ({
            let before = g.edges.as_map();
            let after = keep_edges(before, stale_after_move(g, reg, pos));
            &&& forall|k: u128| #[trigger] after.contains_key(k) ==> before.contains_key(k) && after[k] == before[k]
            &&& forall|k: u128|
                #[trigger] after.contains_key(k) && (after[k].from == pos || after[k].to_node == pos)
                    ==> spec_edge_still_adjacent(g, reg, after[k])
            &&& forall|k: u128|
                #[trigger] before.contains_key(k) && (!(before[k].from == pos || before[k].to_node == pos)
                    || spec_edge_still_adjacent(g, reg, before[k])) ==> after.contains_key(k)
        }),
{
}

} // verus!
