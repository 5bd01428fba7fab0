//! Semantic analysis of graphs: the order nodes are evaluated in, and the
//! bookkeeping that lets an analysis be redone only where a graph changed.

use vstd::prelude::*;

use crate::collections::{SortedMap, SortedSet};
use crate::diagnostics::{Diagnostic, DiagnosticKind};
use crate::graph::{Edge, Graph};
use crate::text::chars_of;
use crate::types::{EdgeId, GridPos};

pub mod pass;
pub mod topo_sort;

verus! {

/// Some edge between two nodes runs from `a` to `b`.
pub open spec fn node_link(g: Graph, a: GridPos, b: GridPos) -> bool {
    exists|id: u128| #[trigger]
        g.edges.as_map().contains_key(id) && g.edges.as_map()[id].from == a && g.edges.as_map()[id].to_node == b
            && g.nodes.as_map().contains_key(a) && g.nodes.as_map().contains_key(b)
}

/// For each node with an outgoing edge to another node, the nodes it feeds.
pub fn current_downstream_dependents(graph: &Graph) -> (r: SortedMap<GridPos, SortedSet<GridPos>>)
    ensures
        forall|a: GridPos| r.as_map().contains_key(a) <==> exists|b: GridPos| node_link(*graph, a, b),
        forall|a: GridPos, b: GridPos|
            r.as_map().contains_key(a) ==> (#[trigger] r.as_map()[a].set_view().contains(b) <==> node_link(*graph, a, b)),
{
    let n = graph.edges.len();
    let mut down: SortedMap<GridPos, SortedSet<GridPos>> = SortedMap::new();
    let mut j: usize = 0;
    while j < n
        invariant
            n == graph.edges.key_seq().len(),
            n == graph.edges.value_seq().len(),
            forall|i: int|
                #![trigger graph.edges.key_seq()[i]]
                0 <= i < n ==> graph.edges.as_map().contains_key(graph.edges.key_seq()[i])
                    && graph.edges.as_map()[graph.edges.key_seq()[i]] == graph.edges.value_seq()[i],
            forall|id: u128|
                #[trigger] graph.edges.as_map().contains_key(id) ==> exists|i: int|
                    0 <= i < n && graph.edges.key_seq()[i] == id,
            j <= n,
            forall|a: GridPos|
                down.as_map().contains_key(a) <==> exists|i: int|
                    0 <= i < j && #[trigger] linked_at(*graph, i, a, graph.edges.value_seq()[i].to_node),
            forall|a: GridPos, b: GridPos|
                down.as_map().contains_key(a) ==> (#[trigger] down.as_map()[a].set_view().contains(b) <==> exists|i: int|
                    0 <= i < j && #[trigger] linked_at(*graph, i, a, b)),
        decreases n - j,
    {
        let e = graph.edges.value_at(j);
        if graph.nodes.contains_key(&e.from) && graph.nodes.contains_key(&e.to_node) {
            let ghost before = down.as_map();
            let mut targets = match down.remove(&e.from) {
                Some(t) => t,
                None => SortedSet::new(),
            };
            let ghost old_targets = targets.set_view();
            targets.insert(e.to_node);
            down.insert(e.from, targets);
            proof {
                assert forall|a: GridPos| down.as_map().contains_key(a) <==> exists|i: int|
                    0 <= i < j + 1 && #[trigger] linked_at(*graph, i, a, graph.edges.value_seq()[i].to_node) by {
                    if a == e.from {
                        assert(linked_at(*graph, j as int, a, graph.edges.value_seq()[j as int].to_node));
                    }
                }
                assert forall|a: GridPos, b: GridPos| down.as_map().contains_key(a) implies (#[trigger] down.as_map()[
                    a].set_view().contains(b) <==> exists|i: int| 0 <= i < j + 1 && #[trigger] linked_at(*graph, i, a, b)) by {
                    if a == e.from {
                        if before.contains_key(a) {
                            assert(old_targets == before[a].set_view());
                        }
                        if b == e.to_node {
                            assert(linked_at(*graph, j as int, a, b));
                        }
                    }
                }
            }
        } else {
            proof {
                assert forall|a: GridPos| down.as_map().contains_key(a) <==> exists|i: int|
                    0 <= i < j + 1 && #[trigger] linked_at(*graph, i, a, graph.edges.value_seq()[i].to_node) by {}
                assert forall|a: GridPos, b: GridPos| down.as_map().contains_key(a) implies (#[trigger] down.as_map()[
                    a].set_view().contains(b) <==> exists|i: int| 0 <= i < j + 1 && #[trigger] linked_at(*graph, i, a, b)) by {}
            }
        }
        j = j + 1;
    }
    let _ = graph.edges.len();
    proof {
        assert forall|a: GridPos, b: GridPos| node_link(*graph, a, b) <==> exists|i: int|
            0 <= i < n && #[trigger] linked_at(*graph, i, a, b) by {
            if node_link(*graph, a, b) {
                let id = choose|id: u128|
                    #[trigger] graph.edges.as_map().contains_key(id) && graph.edges.as_map()[id].from == a
                        && graph.edges.as_map()[id].to_node == b && graph.nodes.as_map().contains_key(a)
                        && graph.nodes.as_map().contains_key(b);
                let i = choose|i: int| 0 <= i < n && graph.edges.key_seq()[i] == id;
                assert(linked_at(*graph, i, a, b));
            }
            if exists|i: int| 0 <= i < n && #[trigger] linked_at(*graph, i, a, b) {
                let i = choose|i: int| 0 <= i < n && #[trigger] linked_at(*graph, i, a, b);
                assert(graph.edges.as_map().contains_key(graph.edges.key_seq()[i]));
            }
        }
        assert forall|a: GridPos| down.as_map().contains_key(a) <==> exists|b: GridPos| node_link(*graph, a, b) by {
            if down.as_map().contains_key(a) {
                let i = choose|i: int| 0 <= i < n && #[trigger] linked_at(*graph, i, a, graph.edges.value_seq()[i].to_node);
                assert(node_link(*graph, a, graph.edges.value_seq()[i].to_node));
            }
            if exists|b: GridPos| node_link(*graph, a, b) {
                let b = choose|b: GridPos| node_link(*graph, a, b);
                let i = choose|i: int| 0 <= i < n && #[trigger] linked_at(*graph, i, a, b);
                assert(linked_at(*graph, i, a, graph.edges.value_seq()[i].to_node));
            }
        }
    }
    down
}

/// The `i`-th edge in id order runs from node `a` into node `b`.
pub open spec fn linked_at(g: Graph, i: int, a: GridPos, b: GridPos) -> bool {
    let e = g.edges.value_seq()[i];
    e.from == a && e.to_node == b && g.nodes.as_map().contains_key(a) && g.nodes.as_map().contains_key(b)
}

/// Adds both ends of every edge that touches `dirty`.
pub fn add_current_touching_neighbors(graph: &Graph, dirty: &GridPos, affected: &mut SortedSet<GridPos>)
    ensures
        forall|p: GridPos|
            final(affected).set_view().contains(p) <==> old(affected).set_view().contains(p) || exists|i: int|
                0 <= i < graph.edges.value_seq().len() && #[trigger] touches_at(*graph, i, *dirty, p),
{
    let n = graph.edges.len();
    let ghost start = affected.set_view();
    let mut j: usize = 0;
    while j < n
        invariant
            n == graph.edges.value_seq().len(),
            n == graph.edges.key_seq().len(),
            j <= n,
            forall|p: GridPos|
                affected.set_view().contains(p) <==> start.contains(p) || exists|i: int|
                    0 <= i < j && #[trigger] touches_at(*graph, i, *dirty, p),
        decreases n - j,
    {
        let e = graph.edges.value_at(j);
        let ghost before = affected.set_view();
        assert(forall|p: GridPos|
            before.contains(p) <==> start.contains(p) || exists|i: int|
                0 <= i < j && #[trigger] touches_at(*graph, i, *dirty, p));
        if e.from == *dirty || e.to_node == *dirty {
            affected.insert(e.from);
            affected.insert(e.to_node);
        }
        proof {
            assert forall|p: GridPos| affected.set_view().contains(p) <==> start.contains(p) || exists|i: int|
                0 <= i < j + 1 && #[trigger] touches_at(*graph, i, *dirty, p) by {
                if touches_at(*graph, j as int, *dirty, p) {
                    assert(affected.set_view().contains(p));
                }
                if affected.set_view().contains(p) && !before.contains(p) {
                    assert(touches_at(*graph, j as int, *dirty, p));
                }
                if exists|i: int| 0 <= i < j + 1 && #[trigger] touches_at(*graph, i, *dirty, p) {
                    let i = choose|i: int| 0 <= i < j + 1 && #[trigger] touches_at(*graph, i, *dirty, p);
                    if i < j {
                        assert(before.contains(p));
                    }
                }
            }
        }
        j = j + 1;
    }
}

/// The `i`-th edge touches `dirty` and has `p` as one of its ends.
pub open spec fn touches_at(g: Graph, i: int, dirty: GridPos, p: GridPos) -> bool {
    let e = g.edges.value_seq()[i];
    (e.from == dirty || e.to_node == dirty) && (p == e.from || p == e.to_node)
}

/// A finding about one edge that incremental analysis recomputes per edge.
pub open spec fn spec_is_incremental_edge_diagnostic(d: Diagnostic) -> bool {
    match d.kind {
        DiagnosticKind::OutputFromTerminal { .. } => true,
        DiagnosticKind::TypeMismatch { .. } => true,
        DiagnosticKind::UnsupportedDomainCrossing { .. } => true,
        _ => false,
    }
}

/// A finding about one node that incremental analysis recomputes per node:
/// a delay type mismatch, a role mismatch, or a piece's own finding.
pub open spec fn spec_is_incremental_node_diagnostic(d: Diagnostic) -> bool {
    match d.kind {
        DiagnosticKind::DelayTypeMismatch { .. } => true,
        DiagnosticKind::InvalidOperation { reason } => reason@.len() >= 14 && reason@.take(14) == "role_mismatch:"@,
        DiagnosticKind::PieceSemantic { .. } => true,
        _ => false,
    }
}

pub fn is_incremental_edge_diagnostic(diagnostic: &Diagnostic) -> (r: bool)
    ensures
        r == spec_is_incremental_edge_diagnostic(*diagnostic),
{
    match diagnostic.kind {
        DiagnosticKind::OutputFromTerminal { .. } => true,
        DiagnosticKind::TypeMismatch { .. } => true,
        DiagnosticKind::UnsupportedDomainCrossing { .. } => true,
        _ => false,
    }
}

/// Whether `s` begins with `prefix`.
fn starts_with(s: &str, prefix: &str) -> (r: bool)
    ensures
        r == (s@.len() >= prefix@.len() && s@.take(prefix@.len() as int) == prefix@),
{
    let a = chars_of(s);
    let b = chars_of(prefix);
    if a.len() < b.len() {
        return false;
    }
    let mut i: usize = 0;
    while i < b.len()
        invariant
            a@ == s@,
            b@ == prefix@,
            b@.len() <= a@.len(),
            i <= b@.len(),
            forall|k: int| 0 <= k < i ==> a@[k] == b@[k],
        decreases b@.len() - i,
    {
        if a[i] != b[i] {
            proof {
                assert(s@.take(prefix@.len() as int)[i as int] != prefix@[i as int]);
            }
            return false;
        }
        i = i + 1;
    }
    proof {
        assert(s@.take(prefix@.len() as int) =~= prefix@);
    }
    true
}

pub fn is_incremental_node_diagnostic(diagnostic: &Diagnostic) -> (r: bool)
    ensures
        r == spec_is_incremental_node_diagnostic(*diagnostic),
{
    proof {
        reveal_strlit("role_mismatch:");
    }
    match &diagnostic.kind {
        DiagnosticKind::DelayTypeMismatch { .. } => true,
        DiagnosticKind::InvalidOperation { reason } => starts_with(reason.as_str(), "role_mismatch:"),
        DiagnosticKind::PieceSemantic { .. } => true,
        _ => false,
    }
}

/// A cached finding stays valid when nothing it is about changed: an edge
/// finding whose edge still exists and is not affected, or a node finding
/// whose node still exists and is not affected. Other findings are redone.
pub open spec fn spec_should_reuse(d: Diagnostic, g: Graph, affected: Set<GridPos>, affected_edges: Set<u128>) -> bool {
    if spec_is_incremental_edge_diagnostic(d) {
        match d.edge_id {
            Some(id) => g.edges.as_map().contains_key(id@) && !affected_edges.contains(id@),
            None => false,
        }
    } else if spec_is_incremental_node_diagnostic(d) {
        match d.site {
            Some(site) => g.nodes.as_map().contains_key(site) && !affected.contains(site),
            None => false,
        }
    } else {
        false
    }
}

pub fn should_reuse_cached_diagnostic(
    diagnostic: &Diagnostic,
    graph: &Graph,
    affected: &SortedSet<GridPos>,
    affected_edge_ids: &SortedSet<EdgeId>,
) -> (r: bool)
    ensures
        r == spec_should_reuse(*diagnostic, *graph, affected.set_view(), affected_edge_ids.set_view()),
{
    if is_incremental_edge_diagnostic(diagnostic) {
        return match &diagnostic.edge_id {
            Some(edge_id) => graph.edges.contains_key(edge_id) && !affected_edge_ids.contains(edge_id),
            None => false,
        };
    }
    if is_incremental_node_diagnostic(diagnostic) {
        return match diagnostic.site {
            Some(site) => graph.nodes.contains_key(&site) && !affected.contains(&site),
            None => false,
        };
    }
    false
}

} // verus!
