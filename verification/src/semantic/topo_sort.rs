//! Evaluation order of a graph: edges into a delay piece's `value` are
//! feedback and do not order anything; the other edges group nodes into
//! strongly connected components, which are evaluated in dependency order,
//! smallest first cell first, and every component that loops is a cycle.

use vstd::prelude::*;

use crate::collections::{SortedMap, SortedSet};
use crate::diagnostics::{error_view, Diagnostic, DiagnosticKind, DiagnosticView, KindView};
use crate::graph::{views, Edge, Graph};
use crate::text::str_eq;
use crate::types::{grid_lt, EdgeId, GridPos, DELAY_PIECE_ID};

verus! {

broadcast use vstd::set::group_set_axioms;

/// The edge feeds the `value` parameter of a delay node: a feedback edge.
pub open spec fn is_delay_edge(g: Graph, e: Edge) -> bool {
    &&& g.nodes.as_map().contains_key(e.to_node)
    &&& g.nodes.as_map()[e.to_node].piece_id@ == DELAY_PIECE_ID@
    &&& e.to_param@ == "value"@
}

/// The ids of the feedback edges.
pub open spec fn spec_delay_edges(g: Graph) -> Set<u128> {
    Set::new(|id: u128| g.edges.as_map().contains_key(id) && is_delay_edge(g, g.edges.as_map()[id]))
}

/// The edge orders evaluation: it is no feedback edge and both ends are nodes.
pub open spec fn is_ordering_edge(g: Graph, e: Edge) -> bool {
    &&& !is_delay_edge(g, e)
    &&& g.nodes.as_map().contains_key(e.from)
    &&& g.nodes.as_map().contains_key(e.to_node)
}

/// An ordering edge runs from `a` into `b`.
pub open spec fn orders(g: Graph, a: GridPos, b: GridPos) -> bool {
    exists|id: u128| #[trigger]
        g.edges.as_map().contains_key(id) && is_ordering_edge(g, g.edges.as_map()[id]) && g.edges.as_map()[id].from
            == a && g.edges.as_map()[id].to_node == b
}

/// `path` follows ordering edges.
pub open spec fn is_order_path(g: Graph, path: Seq<GridPos>) -> bool {
    &&& path.len() >= 1
    &&& forall|i: int| 0 <= i < path.len() - 1 ==> orders(g, #[trigger] path[i], path[i + 1])
}

/// `b` is evaluated no earlier than `a` requires: ordering edges lead from `a` to `b`.
pub open spec fn leads_to(g: Graph, a: GridPos, b: GridPos) -> bool {
    exists|path: Seq<GridPos>| #[trigger] is_order_path(g, path) && path[0] == a && path.last() == b
}

fn is_delay(g: &Graph, e: &Edge) -> (r: bool)
    ensures
        r == is_delay_edge(*g, *e),
{
    match g.nodes.get(&e.to_node) {
        Some(node) => str_eq(node.piece_id.as_str(), DELAY_PIECE_ID) && str_eq(e.to_param.as_str(), "value"),
        None => false,
    }
}

fn is_ordering(g: &Graph, e: &Edge) -> (r: bool)
    ensures
        r == is_ordering_edge(*g, *e),
{
    !is_delay(g, e) && g.nodes.contains_key(&e.from) && g.nodes.contains_key(&e.to_node)
}

/// Ordering edges extend a path at its end.
proof fn lemma_leads_extend(g: Graph, a: GridPos, b: GridPos, c: GridPos)
    requires
        leads_to(g, a, b),
        orders(g, b, c),
    ensures
        leads_to(g, a, c),
{
    let path = choose|path: Seq<GridPos>| is_order_path(g, path) && path[0] == a && path.last() == b;
    let longer = path.push(c);
    assert forall|i: int| 0 <= i < longer.len() - 1 implies orders(g, #[trigger] longer[i], longer[i + 1]) by {
        if i < path.len() - 1 {
            assert(longer[i] == path[i] && longer[i + 1] == path[i + 1]);
        } else {
            assert(longer[i] == b);
        }
    }
    assert(is_order_path(g, longer));
}

/// A set that holds `a` and is closed under following ordering edges holds
/// every cell `a` leads to.
proof fn lemma_closed_holds_led(g: Graph, s: Set<GridPos>, path: Seq<GridPos>, i: int)
    requires
        s.contains(path[0]),
        forall|x: GridPos, y: GridPos| s.contains(x) && #[trigger] orders(g, x, y) ==> s.contains(y),
        is_order_path(g, path),
        0 <= i < path.len(),
    ensures
        s.contains(path[i]),
    decreases i,
{
    if i > 0 {
        lemma_closed_holds_led(g, s, path, i - 1);
        assert(orders(g, path[i - 1], path[i]));
    }
}

/// The cells `start` leads to, itself included.
fn forward_reach(g: &Graph, start: GridPos) -> (r: SortedSet<GridPos>)
    ensures
        forall|q: GridPos| r.set_view().contains(q) <==> leads_to(*g, start, q),
{
    let ghost tos = g.edges.value_seq().map_values(|e: Edge| e.to_node);
    let ghost universe = tos.to_set().insert(start);
    proof {
        vstd::seq_lib::seq_to_set_is_finite(tos);
        let path = seq![start];
        assert(is_order_path(*g, path));
        assert(leads_to(*g, start, start));
    }
    let mut seen: SortedSet<GridPos> = SortedSet::new();
    let mut frontier: Vec<GridPos> = Vec::new();
    frontier.push(start);
    proof {
        assert(frontier@[0] == start);
    }
    let n = g.edges.len();
    while frontier.len() > 0
        invariant
            universe.finite(),
            universe == tos.to_set().insert(start),
            tos == g.edges.value_seq().map_values(|e: Edge| e.to_node),
            n == g.edges.key_seq().len(),
            n == g.edges.value_seq().len(),
            forall|i: int|
                #![trigger g.edges.key_seq()[i]]
                0 <= i < n ==> g.edges.as_map().contains_key(g.edges.key_seq()[i])
                    && g.edges.as_map()[g.edges.key_seq()[i]] == g.edges.value_seq()[i],
            forall|id: u128|
                #[trigger] g.edges.as_map().contains_key(id) ==> exists|i: int| 0 <= i < n && g.edges.key_seq()[i] == id,
            seen.set_view().subset_of(universe),
            forall|p: GridPos| frontier@.contains(p) ==> universe.contains(p),
            forall|p: GridPos| #[trigger] seen.set_view().contains(p) ==> leads_to(*g, start, p),
            forall|p: GridPos| frontier@.contains(p) ==> leads_to(*g, start, p),
            seen.set_view().contains(start) || frontier@.contains(start),
            forall|a: GridPos, b: GridPos|
                seen.set_view().contains(a) && #[trigger] orders(*g, a, b) ==> seen.set_view().contains(b)
                    || frontier@.contains(b),
        decreases universe.len() - seen.set_view().len(), frontier@.len(),
    {
        proof {
            vstd::set_lib::lemma_len_subset(seen.set_view(), universe);
        }
        let ghost before = frontier@;
        let ghost old_seen = seen.set_view();
        let next = frontier.pop().unwrap();
        let ghost popped = frontier@;
        proof {
            assert(before == popped.push(next));
            assert(before.contains(next));
            assert forall|p: GridPos| popped.contains(p) implies before.contains(p) by {
                let i = choose|i: int| 0 <= i < popped.len() && popped[i] == p;
                assert(before[i] == p);
            }
        }
        if !seen.insert(next) {
            proof {
                if !seen.set_view().contains(start) {
                    let i = choose|i: int| 0 <= i < before.len() && before[i] == start;
                    if i < popped.len() {
                        assert(popped[i] == start);
                    }
                }
                assert forall|a: GridPos, b: GridPos|
                    seen.set_view().contains(a) && #[trigger] orders(*g, a, b) implies seen.set_view().contains(b)
                        || frontier@.contains(b) by {
                    if !seen.set_view().contains(b) {
                        assert(before.contains(b));
                        let i = choose|i: int| 0 <= i < before.len() && before[i] == b;
                        if i < popped.len() {
                            assert(popped[i] == b);
                        }
                    }
                }
            }
            continue;
        }
        let mut j: usize = 0;
        while j < n
            invariant
                universe == tos.to_set().insert(start),
                tos == g.edges.value_seq().map_values(|e: Edge| e.to_node),
                n == g.edges.key_seq().len(),
                n == g.edges.value_seq().len(),
                forall|i: int|
                    #![trigger g.edges.key_seq()[i]]
                    0 <= i < n ==> g.edges.as_map().contains_key(g.edges.key_seq()[i])
                        && g.edges.as_map()[g.edges.key_seq()[i]] == g.edges.value_seq()[i],
                leads_to(*g, start, next),
                j <= n,
                frontier@.len() >= popped.len(),
                frontier@.subrange(0, popped.len() as int) == popped,
                forall|p: GridPos|
                    #[trigger] frontier@.contains(p) ==> popped.contains(p) || (universe.contains(p) && leads_to(
                        *g,
                        start,
                        p,
                    )),
                forall|i: int|
                    0 <= i < j && (#[trigger] g.edges.value_seq()[i]).from == next && is_ordering_edge(
                        *g,
                        g.edges.value_seq()[i],
                    ) ==> frontier@.contains(g.edges.value_seq()[i].to_node),
            decreases n - j,
        {
            let e = g.edges.value_at(j);
            if e.from == next && is_ordering(g, e) {
                let ghost f0 = frontier@;
                frontier.push(e.to_node);
                proof {
                    let id = g.edges.key_seq()[j as int];
                    assert(g.edges.as_map().contains_key(id));
                    assert(orders(*g, next, e.to_node));
                    lemma_leads_extend(*g, start, next, e.to_node);
                    assert(tos[j as int] == e.to_node);
                    assert(tos.to_set().contains(e.to_node));
                    assert(frontier@.subrange(0, popped.len() as int) =~= f0.subrange(0, popped.len() as int));
                    assert forall|p: GridPos| #[trigger] frontier@.contains(p) implies popped.contains(p) || (
                    universe.contains(p) && leads_to(*g, start, p)) by {
                        if p != e.to_node {
                            let i = choose|i: int| 0 <= i < frontier@.len() && frontier@[i] == p;
                            assert(f0[i] == p);
                            assert(f0.contains(p));
                        } else {
                            assert(universe.contains(p));
                        }
                    }
                    assert forall|i: int|
                        0 <= i < j + 1 && (#[trigger] g.edges.value_seq()[i]).from == next && is_ordering_edge(
                            *g,
                            g.edges.value_seq()[i],
                        ) implies frontier@.contains(g.edges.value_seq()[i].to_node) by {
                        if i < j {
                            let q = g.edges.value_seq()[i].to_node;
                            let k = choose|k: int| 0 <= k < f0.len() && f0[k] == q;
                            assert(frontier@[k] == q);
                        } else {
                            assert(frontier@[frontier@.len() - 1] == e.to_node);
                        }
                    }
                }
            }
            j = j + 1;
        }
        proof {
            assert forall|p: GridPos| popped.contains(p) implies frontier@.contains(p) by {
                let i = choose|i: int| 0 <= i < popped.len() && popped[i] == p;
                assert(frontier@.subrange(0, popped.len() as int)[i] == p);
            }
            assert forall|p: GridPos| frontier@.contains(p) implies universe.contains(p) && leads_to(*g, start, p) by {
                if popped.contains(p) {
                    assert(before.contains(p));
                }
            }
            if !seen.set_view().contains(start) {
                let i = choose|i: int| 0 <= i < before.len() && before[i] == start;
                if i < popped.len() {
                    assert(popped[i] == start);
                }
            }
            assert forall|a: GridPos, b: GridPos|
                seen.set_view().contains(a) && #[trigger] orders(*g, a, b) implies seen.set_view().contains(b)
                    || frontier@.contains(b) by {
                if a == next {
                    let id = choose|id: u128|
                        #[trigger] g.edges.as_map().contains_key(id) && is_ordering_edge(*g, g.edges.as_map()[id])
                            && g.edges.as_map()[id].from == a && g.edges.as_map()[id].to_node == b;
                    let i = choose|i: int| 0 <= i < n && g.edges.key_seq()[i] == id;
                    assert(g.edges.value_seq()[i].from == next);
                } else if !seen.set_view().contains(b) {
                    assert(old_seen.contains(a));
                    assert(before.contains(b));
                    let i = choose|i: int| 0 <= i < before.len() && before[i] == b;
                    if i < popped.len() {
                        assert(popped[i] == b);
                    }
                }
            }
            vstd::set_lib::lemma_len_subset(seen.set_view(), universe);
        }
    }
    proof {
        assert forall|q: GridPos| leads_to(*g, start, q) implies seen.set_view().contains(q) by {
            let path = choose|path: Seq<GridPos>| is_order_path(*g, path) && path[0] == start && path.last() == q;
            lemma_closed_holds_led(*g, seen.set_view(), path, path.len() - 1);
        }
    }
    seen
}

/// The cells `p` leads to.
pub open spec fn reach_set(g: Graph, p: GridPos) -> Set<GridPos> {
    Set::new(|q: GridPos| leads_to(g, p, q))
}

/// The strongly connected component of `p`: the nodes `p` leads to that
/// lead back to `p`.
pub open spec fn scc(g: Graph, p: GridPos) -> Set<GridPos> {
    Set::new(|q: GridPos| g.nodes.as_map().contains_key(q) && leads_to(g, p, q) && leads_to(g, q, p))
}

/// The component of `p`, in cell order.
pub open spec fn component_of(g: Graph, p: GridPos) -> Seq<GridPos> {
    g.nodes.key_seq().filter(|q: GridPos| scc(g, p).contains(q))
}

/// `p` is the first cell of its component.
pub open spec fn starts_component(g: Graph, p: GridPos) -> bool {
    component_of(g, p).len() > 0 && component_of(g, p)[0] == p
}

/// The components, each in cell order, ordered by their first cells.
pub open spec fn components(g: Graph) -> Seq<Seq<GridPos>> {
    g.nodes.key_seq().filter(|p: GridPos| starts_component(g, p)).map_values(|p: GridPos| component_of(g, p))
}

/// The feedback edges, by id.
fn delay_edge_ids(g: &Graph) -> (r: SortedSet<EdgeId>)
    ensures
        r.set_view() == spec_delay_edges(*g),
{
    let n = g.edges.len();
    let mut out: SortedSet<EdgeId> = SortedSet::new();
    let mut j: usize = 0;
    while j < n
        invariant
            n == g.edges.key_seq().len(),
            n == g.edges.value_seq().len(),
            forall|i: int|
                #![trigger g.edges.key_seq()[i]]
                0 <= i < n ==> g.edges.as_map().contains_key(g.edges.key_seq()[i])
                    && g.edges.as_map()[g.edges.key_seq()[i]] == g.edges.value_seq()[i],
            j <= n,
            out.set_view() == Set::new(
                |id: u128|
                    exists|i: int|
                        0 <= i < j && g.edges.key_seq()[i] == id && is_delay_edge(*g, #[trigger] g.edges.value_seq()[i]),
            ),
        decreases n - j,
    {
        let ghost before = out.set_view();
        if is_delay(g, g.edges.value_at(j)) {
            out.insert(g.edges.key_at(j).clone());
        }
        proof {
            assert(out.set_view() =~= Set::new(
                |id: u128|
                    exists|i: int|
                        0 <= i < j + 1 && g.edges.key_seq()[i] == id && is_delay_edge(*g, #[trigger] g.edges.value_seq()[i]),
            ));
        }
        j = j + 1;
    }
    let _ = g.edges.len();
    proof {
        assert forall|id: u128| #[trigger] spec_delay_edges(*g).contains(id) implies out.set_view().contains(id) by {
            let i = choose|i: int| 0 <= i < n && g.edges.key_seq()[i] == id;
            assert(is_delay_edge(*g, g.edges.value_seq()[i]));
        }
        assert(out.set_view() =~= spec_delay_edges(*g));
    }
    out
}

/// For each node in cell order, the cells it leads to.
fn reach_sets(g: &Graph) -> (r: Vec<SortedSet<GridPos>>)
    ensures
        r@.len() == g.nodes.key_seq().len(),
        forall|i: int| 0 <= i < r@.len() ==> (#[trigger] r@[i]).set_view() == reach_set(*g, g.nodes.key_seq()[i]),
{
    let n = g.nodes.len();
    let mut out: Vec<SortedSet<GridPos>> = Vec::new();
    let mut i: usize = 0;
    while i < n
        invariant
            n == g.nodes.key_seq().len(),
            i <= n,
            out@.len() == i,
            forall|k: int| 0 <= k < i ==> (#[trigger] out@[k]).set_view() == reach_set(*g, g.nodes.key_seq()[k]),
        decreases n - i,
    {
        let p = *g.nodes.key_at(i);
        let s = forward_reach(g, p);
        proof {
            assert(s.set_view() =~= reach_set(*g, p));
        }
        out.push(s);
        i = i + 1;
    }
    out
}

/// Each cell leads to itself.
proof fn lemma_leads_to_self(g: Graph, p: GridPos)
    ensures
        leads_to(g, p, p),
{
    let path = seq![p];
    assert(is_order_path(g, path));
}

/// For each node in cell order, its component in cell order.
fn component_lists(g: &Graph, reach: &Vec<SortedSet<GridPos>>) -> (r: Vec<Vec<GridPos>>)
    requires
        reach@.len() == g.nodes.key_seq().len(),
        forall|i: int| 0 <= i < reach@.len() ==> (#[trigger] reach@[i]).set_view() == reach_set(*g, g.nodes.key_seq()[i]),
    ensures
        r@.len() == g.nodes.key_seq().len(),
        forall|i: int| 0 <= i < r@.len() ==> (#[trigger] r@[i])@ == component_of(*g, g.nodes.key_seq()[i]),
{
    let n = g.nodes.len();
    let ghost keys = g.nodes.key_seq();
    let mut out: Vec<Vec<GridPos>> = Vec::new();
    let mut i: usize = 0;
    while i < n
        invariant
            n == keys.len(),
            keys == g.nodes.key_seq(),
            forall|k: int|
                #![trigger keys[k]]
                0 <= k < n ==> g.nodes.as_map().contains_key(keys[k]),
            reach@.len() == n,
            forall|k: int| 0 <= k < reach@.len() ==> (#[trigger] reach@[k]).set_view() == reach_set(*g, keys[k]),
            i <= n,
            out@.len() == i,
            forall|k: int| 0 <= k < i ==> (#[trigger] out@[k])@ == component_of(*g, keys[k]),
        decreases n - i,
    {
        let p = *g.nodes.key_at(i);
        let ghost pred = |q: GridPos| scc(*g, p).contains(q);
        let mut comp: Vec<GridPos> = Vec::new();
        let mut k: usize = 0;
        while k < n
            invariant
                n == keys.len(),
                keys == g.nodes.key_seq(),
                forall|m: int|
                    #![trigger keys[m]]
                    0 <= m < n ==> g.nodes.as_map().contains_key(keys[m]),
                reach@.len() == n,
                forall|m: int| 0 <= m < reach@.len() ==> (#[trigger] reach@[m]).set_view() == reach_set(*g, keys[m]),
                i < n,
                p == keys[i as int],
                pred == (|q: GridPos| scc(*g, p).contains(q)),
                k <= n,
                comp@ == keys.take(k as int).filter(pred),
            decreases n - k,
        {
            let q = *g.nodes.key_at(k);
            proof {
                assert(keys.take(k + 1).drop_last() =~= keys.take(k as int));
                assert(keys.take(k + 1).last() == q);
                reveal_with_fuel(Seq::filter, 1);
                assert(g.nodes.as_map().contains_key(keys[k as int]));
                assert(reach@[i as int].set_view() == reach_set(*g, p));
                assert(reach@[k as int].set_view() == reach_set(*g, q));
            }
            if reach[i].contains(&q) && reach[k].contains(&p) {
                comp.push(q);
            }
            k = k + 1;
        }
        proof {
            assert(keys.take(n as int) =~= keys);
        }
        out.push(comp);
        i = i + 1;
    }
    out
}

/// A copy of a list of cells.
fn copy_cells(v: &Vec<GridPos>) -> (r: Vec<GridPos>)
    ensures
        r@ == v@,
{
    let mut out: Vec<GridPos> = Vec::new();
    let mut i: usize = 0;
    while i < v.len()
        invariant
            i <= v@.len(),
            out@ == v@.take(i as int),
        decreases v@.len() - i,
    {
        out.push(v[i]);
        proof {
            assert(out@ =~= v@.take(i + 1));
        }
        i = i + 1;
    }
    proof {
        assert(v@.take(v@.len() as int) =~= v@);
    }
    out
}

/// Whether `p` is one of the cells of `v`.
fn has_cell(v: &Vec<GridPos>, p: GridPos) -> (r: bool)
    ensures
        r == v@.contains(p),
{
    let mut i: usize = 0;
    while i < v.len()
        invariant
            i <= v@.len(),
            forall|k: int| 0 <= k < i ==> v@[k] != p,
        decreases v@.len() - i,
    {
        if v[i] == p {
            proof {
                assert(v@[i as int] == p);
            }
            return true;
        }
        i = i + 1;
    }
    false
}

/// The views of a list of cell lists.
pub open spec fn cell_lists(v: Seq<Vec<GridPos>>) -> Seq<Seq<GridPos>> {
    v.map_values(|c: Vec<GridPos>| c@)
}

/// The components, each in cell order, ordered by first cell.
fn component_sequence(g: &Graph, lists: &Vec<Vec<GridPos>>) -> (r: Vec<Vec<GridPos>>)
    requires
        lists@.len() == g.nodes.key_seq().len(),
        forall|i: int| 0 <= i < lists@.len() ==> (#[trigger] lists@[i])@ == component_of(*g, g.nodes.key_seq()[i]),
    ensures
        cell_lists(r@) == components(*g),
{
    let ghost keys = g.nodes.key_seq();
    let ghost pred = |p: GridPos| starts_component(*g, p);
    let ghost f = |p: GridPos| component_of(*g, p);
    let n = g.nodes.len();
    let mut out: Vec<Vec<GridPos>> = Vec::new();
    let mut i: usize = 0;
    while i < n
        invariant
            n == keys.len(),
            keys == g.nodes.key_seq(),
            lists@.len() == n,
            forall|k: int| 0 <= k < lists@.len() ==> (#[trigger] lists@[k])@ == component_of(*g, keys[k]),
            pred == (|p: GridPos| starts_component(*g, p)),
            f == (|p: GridPos| component_of(*g, p)),
            i <= n,
            cell_lists(out@) == keys.take(i as int).filter(pred).map_values(f),
        decreases n - i,
    {
        let p = *g.nodes.key_at(i);
        let list = &lists[i];
        proof {
            assert(keys.take(i + 1).drop_last() =~= keys.take(i as int));
            assert(keys.take(i + 1).last() == p);
            reveal_with_fuel(Seq::filter, 1);
            assert(list@ == component_of(*g, p));
        }
        let ghost before = out@;
        if list.len() > 0 && list[0] == p {
            out.push(copy_cells(list));
            proof {
                assert(cell_lists(out@) =~= cell_lists(before).push(component_of(*g, p)));
                assert(keys.take(i as int).filter(pred).push(p).map_values(f) =~= keys.take(i as int).filter(
                    pred,
                ).map_values(f).push(f(p)));
            }
        } else {
            proof {
                assert(!pred(p));
            }
        }
        i = i + 1;
    }
    proof {
        assert(keys.take(n as int) =~= keys);
    }
    out
}

/// The cells with an ordering edge into themselves.
fn self_loop_cells(g: &Graph) -> (r: SortedSet<GridPos>)
    ensures
        forall|p: GridPos| r.set_view().contains(p) <==> orders(*g, p, p),
{
    let n = g.edges.len();
    let mut out: SortedSet<GridPos> = SortedSet::new();
    let mut j: usize = 0;
    while j < n
        invariant
            n == g.edges.key_seq().len(),
            n == g.edges.value_seq().len(),
            forall|i: int|
                #![trigger g.edges.key_seq()[i]]
                0 <= i < n ==> g.edges.as_map().contains_key(g.edges.key_seq()[i])
                    && g.edges.as_map()[g.edges.key_seq()[i]] == g.edges.value_seq()[i],
            j <= n,
            forall|p: GridPos|
                out.set_view().contains(p) <==> exists|i: int|
                    0 <= i < j && is_ordering_edge(*g, #[trigger] g.edges.value_seq()[i]) && g.edges.value_seq()[i].from
                        == p && g.edges.value_seq()[i].to_node == p,
        decreases n - j,
    {
        let e = g.edges.value_at(j);
        let ghost before = out.set_view();
        if e.from == e.to_node && is_ordering(g, e) {
            out.insert(e.from);
        }
        proof {
            assert forall|p: GridPos|
                out.set_view().contains(p) <==> exists|i: int|
                    0 <= i < j + 1 && is_ordering_edge(*g, #[trigger] g.edges.value_seq()[i])
                        && g.edges.value_seq()[i].from == p && g.edges.value_seq()[i].to_node == p by {
                if out.set_view().contains(p) && !before.contains(p) {
                    assert(is_ordering_edge(*g, g.edges.value_seq()[j as int]));
                }
            }
        }
        j = j + 1;
    }
    let _ = g.edges.len();
    proof {
        assert forall|p: GridPos| orders(*g, p, p) implies out.set_view().contains(p) by {
            let id = choose|id: u128|
                #[trigger] g.edges.as_map().contains_key(id) && is_ordering_edge(*g, g.edges.as_map()[id])
                    && g.edges.as_map()[id].from == p && g.edges.as_map()[id].to_node == p;
            let i = choose|i: int| 0 <= i < n && g.edges.key_seq()[i] == id;
            assert(is_ordering_edge(*g, g.edges.value_seq()[i]));
        }
        assert forall|p: GridPos| out.set_view().contains(p) implies orders(*g, p, p) by {
            let i = choose|i: int|
                0 <= i < n && is_ordering_edge(*g, #[trigger] g.edges.value_seq()[i]) && g.edges.value_seq()[i].from == p
                    && g.edges.value_seq()[i].to_node == p;
            assert(g.edges.as_map().contains_key(g.edges.key_seq()[i]));
        }
    }
    out
}

/// A component loops: it has more than one cell, or a cell with an ordering
/// edge into itself.
pub open spec fn loops(g: Graph, c: Seq<GridPos>) -> bool {
    c.len() > 1 || exists|i: int| 0 <= i < c.len() && orders(g, #[trigger] c[i], c[i])
}

/// The cycle finding for a looping component, at its first cell.
pub open spec fn cycle_view(c: Seq<GridPos>) -> DiagnosticView {
    error_view(
        KindView::Cycle { involved: c },
        if c.len() > 0 {
            Some(c[0])
        } else {
            None
        },
    )
}

/// One cycle finding per looping component, in component order.
pub open spec fn cycle_diagnostics(g: Graph) -> Seq<DiagnosticView> {
    components(g).filter(|c: Seq<GridPos>| loops(g, c)).map_values(|c: Seq<GridPos>| cycle_view(c))
}

fn cycle_findings(g: &Graph, comps: &Vec<Vec<GridPos>>, self_loops: &SortedSet<GridPos>) -> (r: Vec<Diagnostic>)
    requires
        cell_lists(comps@) == components(*g),
        forall|p: GridPos| self_loops.set_view().contains(p) <==> orders(*g, p, p),
    ensures
        views(r@) == cycle_diagnostics(*g),
{
    let ghost cs = components(*g);
    let ghost pred = |c: Seq<GridPos>| loops(*g, c);
    let ghost f = |c: Seq<GridPos>| cycle_view(c);
    let mut out: Vec<Diagnostic> = Vec::new();
    let mut k: usize = 0;
    while k < comps.len()
        invariant
            cs == components(*g),
            cell_lists(comps@) == cs,
            forall|p: GridPos| self_loops.set_view().contains(p) <==> orders(*g, p, p),
            pred == (|c: Seq<GridPos>| loops(*g, c)),
            f == (|c: Seq<GridPos>| cycle_view(c)),
            k <= comps@.len(),
            views(out@) == cs.take(k as int).filter(pred).map_values(f),
        decreases comps@.len() - k,
    {
        let comp = &comps[k];
        proof {
            assert(cs.len() == comps@.len());
            assert(cs.take(k + 1).drop_last() =~= cs.take(k as int));
            assert(cs.take(k + 1).last() == comp@);
            reveal_with_fuel(Seq::filter, 1);
        }
        let mut is_cycle = comp.len() > 1;
        let mut m: usize = 0;
        while m < comp.len()
            invariant
                forall|p: GridPos| self_loops.set_view().contains(p) <==> orders(*g, p, p),
                m <= comp@.len(),
                is_cycle == (comp@.len() > 1 || exists|i: int| 0 <= i < m && orders(*g, #[trigger] comp@[i], comp@[i])),
            decreases comp@.len() - m,
        {
            if self_loops.contains(&comp[m]) {
                is_cycle = true;
            }
            m = m + 1;
        }
        let ghost before = out@;
        if is_cycle {
            let site = if comp.len() > 0 {
                Some(comp[0])
            } else {
                None
            };
            let d = Diagnostic::error(DiagnosticKind::Cycle { involved: copy_cells(comp) }, site);
            let ghost dv = d@;
            out.push(d);
            proof {
                assert(dv == cycle_view(comp@));
                assert(views(out@) =~= views(before).push(dv));
                assert(cs.take(k as int).filter(pred).push(comp@).map_values(f) =~= cs.take(k as int).filter(
                    pred,
                ).map_values(f).push(f(comp@)));
            }
        }
        k = k + 1;
    }
    proof {
        assert(cs.take(comps@.len() as int) =~= cs);
    }
    out
}

/// The component of each node, as a set, by cell.
fn member_sets(g: &Graph, lists: &Vec<Vec<GridPos>>) -> (r: SortedMap<GridPos, SortedSet<GridPos>>)
    requires
        lists@.len() == g.nodes.key_seq().len(),
        forall|i: int| 0 <= i < lists@.len() ==> (#[trigger] lists@[i])@ == component_of(*g, g.nodes.key_seq()[i]),
    ensures
        forall|p: GridPos| r.as_map().contains_key(p) <==> g.nodes.as_map().contains_key(p),
        forall|p: GridPos| #[trigger] r.as_map().contains_key(p) ==> r.as_map()[p].set_view() == scc(*g, p),
{
    let ghost keys = g.nodes.key_seq();
    let n = g.nodes.len();
    let mut out: SortedMap<GridPos, SortedSet<GridPos>> = SortedMap::new();
    let mut i: usize = 0;
    while i < n
        invariant
            n == keys.len(),
            keys == g.nodes.key_seq(),
            forall|k: int|
                #![trigger keys[k]]
                0 <= k < n ==> g.nodes.as_map().contains_key(keys[k]),
            forall|p: GridPos|
                #[trigger] g.nodes.as_map().contains_key(p) ==> exists|k: int| 0 <= k < n && keys[k] == p,
            lists@.len() == n,
            forall|k: int| 0 <= k < lists@.len() ==> (#[trigger] lists@[k])@ == component_of(*g, keys[k]),
            i <= n,
            forall|p: GridPos| out.as_map().contains_key(p) <==> exists|k: int| 0 <= k < i && keys[k] == p,
            forall|p: GridPos| #[trigger] out.as_map().contains_key(p) ==> out.as_map()[p].set_view() == scc(*g, p),
        decreases n - i,
    {
        let p = *g.nodes.key_at(i);
        let list = &lists[i];
        let ghost pred = |q: GridPos| scc(*g, p).contains(q);
        let mut set: SortedSet<GridPos> = SortedSet::new();
        let mut m: usize = 0;
        while m < list.len()
            invariant
                m <= list@.len(),
                set.set_view() == list@.take(m as int).to_set(),
            decreases list@.len() - m,
        {
            set.insert(list[m]);
            proof {
                assert(list@.take(m + 1) =~= list@.take(m as int).push(list@[m as int]));
                list@.take(m as int).lemma_push_to_set_commute(list@[m as int]);
            }
            m = m + 1;
        }
        proof {
            assert(list@.take(list@.len() as int) =~= list@);
            assert(list@ == keys.filter(pred));
            assert forall|q: GridPos| set.set_view().contains(q) <==> scc(*g, p).contains(q) by {
                if scc(*g, p).contains(q) {
                    assert(g.nodes.as_map().contains_key(q));
                    let k = choose|k: int| 0 <= k < n && keys[k] == q;
                    keys.lemma_filter_contains(pred, k);
                }
                if set.set_view().contains(q) {
                    assert(keys.filter(pred).contains(q));
                    let k = choose|k: int| 0 <= k < keys.filter(pred).len() && keys.filter(pred)[k] == q;
                    keys.lemma_filter_pred(pred, k);
                }
            }
            assert(set.set_view() =~= scc(*g, p));
        }
        out.insert(p, set);
        i = i + 1;
    }
    out
}

/// Component `c` can be evaluated once the cells in `done` are: it is not
/// done yet, and every ordering edge into it from outside starts at a done cell.
pub open spec fn ready(g: Graph, done: Set<GridPos>, c: Seq<GridPos>) -> bool {
    &&& c.len() > 0
    &&& !done.contains(c[0])
    &&& forall|a: GridPos, b: GridPos|
        #[trigger] orders(g, a, b) && c.contains(b) && !c.contains(a) ==> done.contains(a)
}

/// The index of the first ready component at or after `k`.
pub open spec fn first_ready(g: Graph, done: Set<GridPos>, cs: Seq<Seq<GridPos>>, k: int) -> Option<int>
    decreases cs.len() - k,
{
    if k < 0 || k >= cs.len() {
        None
    } else if ready(g, done, cs[k]) {
        Some(k)
    } else {
        first_ready(g, done, cs, k + 1)
    }
}

/// Evaluation after the cells in `done`: up to `steps` times, the first
/// ready component in order is evaluated next, its cells in cell order.
pub open spec fn order_from(g: Graph, done: Set<GridPos>, cs: Seq<Seq<GridPos>>, steps: nat) -> Seq<GridPos>
    decreases steps,
{
    if steps == 0 {
        Seq::empty()
    } else {
        match first_ready(g, done, cs, 0) {
            None => Seq::empty(),
            Some(k) => cs[k] + order_from(g, done.union(cs[k].to_set()), cs, (steps - 1) as nat),
        }
    }
}

/// The evaluation order of the graph: components one after another, each
/// as soon as everything feeding it is evaluated, the one with the smallest
/// first cell first (there are never more components than nodes, so as many
/// steps as nodes take every component that becomes ready).
pub open spec fn spec_eval_order(g: Graph) -> Seq<GridPos> {
    order_from(g, Set::empty(), components(g), g.nodes.key_seq().len())
}

fn is_ready(g: &Graph, done: &SortedSet<GridPos>, c: &Vec<GridPos>) -> (r: bool)
    ensures
        r == ready(*g, done.set_view(), c@),
{
    if c.len() == 0 {
        return false;
    }
    if done.contains(&c[0]) {
        return false;
    }
    let n = g.edges.len();
    let mut j: usize = 0;
    while j < n
        invariant
            n == g.edges.key_seq().len(),
            n == g.edges.value_seq().len(),
            forall|i: int|
                #![trigger g.edges.key_seq()[i]]
                0 <= i < n ==> g.edges.as_map().contains_key(g.edges.key_seq()[i])
                    && g.edges.as_map()[g.edges.key_seq()[i]] == g.edges.value_seq()[i],
            j <= n,
            forall|i: int|
                0 <= i < j && is_ordering_edge(*g, #[trigger] g.edges.value_seq()[i]) && c@.contains(
                    g.edges.value_seq()[i].to_node,
                ) && !c@.contains(g.edges.value_seq()[i].from) ==> done.set_view().contains(
                    g.edges.value_seq()[i].from,
                ),
        decreases n - j,
    {
        let e = g.edges.value_at(j);
        if is_ordering(g, e) && has_cell(c, e.to_node) && !has_cell(c, e.from) && !done.contains(&e.from) {
            proof {
                let id = g.edges.key_seq()[j as int];
                assert(g.edges.as_map().contains_key(id));
                assert(orders(*g, e.from, e.to_node));
            }
            return false;
        }
        j = j + 1;
    }
    let _ = g.edges.len();
    proof {
        assert forall|a: GridPos, b: GridPos|
            #[trigger] orders(*g, a, b) && c@.contains(b) && !c@.contains(a) implies done.set_view().contains(a) by {
            let id = choose|id: u128|
                #[trigger] g.edges.as_map().contains_key(id) && is_ordering_edge(*g, g.edges.as_map()[id])
                    && g.edges.as_map()[id].from == a && g.edges.as_map()[id].to_node == b;
            let i = choose|i: int| 0 <= i < n && g.edges.key_seq()[i] == id;
            assert(is_ordering_edge(*g, g.edges.value_seq()[i]));
        }
    }
    true
}

fn evaluation_order(g: &Graph, comps: &Vec<Vec<GridPos>>) -> (r: Vec<GridPos>)
    requires
        cell_lists(comps@) == components(*g),
    ensures
        r@ == spec_eval_order(*g),
{
    let ghost cs = components(*g);
    let c = comps.len();
    let n = g.nodes.len();
    let mut done: SortedSet<GridPos> = SortedSet::new();
    let mut order: Vec<GridPos> = Vec::new();
    let mut step: usize = 0;
    proof {
        assert(done.set_view() =~= Set::<GridPos>::empty());
    }
    while step < n
        invariant
            cs == components(*g),
            cell_lists(comps@) == cs,
            c == cs.len(),
            n == g.nodes.key_seq().len(),
            step <= n,
            order@ + order_from(*g, done.set_view(), cs, (n - step) as nat) == spec_eval_order(*g),
        decreases n - step,
    {
        let mut k: usize = 0;
        let mut idx: usize = c;
        let ghost d = done.set_view();
        while k < c
            invariant
                cs == components(*g),
                cell_lists(comps@) == cs,
                c == cs.len(),
                d == done.set_view(),
                k <= c,
                idx == c || (idx < c && first_ready(*g, d, cs, 0) == Some(idx as int)),
                idx == c ==> first_ready(*g, d, cs, 0) == first_ready(*g, d, cs, k as int),
            decreases c - k,
        {
            if idx == c {
                let ready_now = is_ready(g, &done, &comps[k]);
                proof {
                    assert(cs[k as int] == comps@[k as int]@);
                }
                if ready_now {
                    idx = k;
                }
            }
            k = k + 1;
        }
        if idx == c {
            proof {
                assert(first_ready(*g, d, cs, 0) is None);
                assert(order_from(*g, d, cs, (n - step) as nat) =~= Seq::<GridPos>::empty());
                assert(order@ + order_from(*g, d, cs, 0) =~= order@);
                assert(order@ =~= order@ + order_from(*g, d, cs, (n - step) as nat));
            }
            step = n;
        } else {
            let comp = &comps[idx];
            let ghost o0 = order@;
            proof {
                assert(cs[idx as int] == comp@);
            }
            let mut m: usize = 0;
            while m < comp.len()
                invariant
                    m <= comp@.len(),
                    order@ == o0 + comp@.take(m as int),
                    done.set_view() == d.union(comp@.take(m as int).to_set()),
                decreases comp@.len() - m,
            {
                order.push(comp[m]);
                done.insert(comp[m]);
                proof {
                    assert(comp@.take(m + 1) =~= comp@.take(m as int).push(comp@[m as int]));
                    comp@.take(m as int).lemma_push_to_set_commute(comp@[m as int]);
                    assert(order@ =~= o0 + comp@.take(m + 1));
                    assert(done.set_view() =~= d.union(comp@.take(m + 1).to_set()));
                }
                m = m + 1;
            }
            proof {
                assert(comp@.take(comp@.len() as int) =~= comp@);
                assert(order_from(*g, d, cs, (n - step) as nat) == cs[idx as int] + order_from(
                    *g,
                    d.union(cs[idx as int].to_set()),
                    cs,
                    (n - step - 1) as nat,
                ));
                assert(order@ + order_from(*g, done.set_view(), cs, (n - step - 1) as nat) =~= o0 + order_from(
                    *g,
                    d,
                    cs,
                    (n - step) as nat,
                ));
            }
            step = step + 1;
        }
    }
    proof {
        assert(order@ + order_from(*g, done.set_view(), cs, 0) =~= order@);
    }
    order
}

/// The evaluation analysis of a graph.
#[derive(Debug)]
pub struct TopoAnalysis {
    /// Nodes in evaluation order.
    pub eval_order: Vec<GridPos>,
    /// The feedback edges, which order nothing.
    pub delay_edges: SortedSet<EdgeId>,
    /// For each node, the nodes of its strongly connected component.
    pub component_members: SortedMap<GridPos, SortedSet<GridPos>>,
    /// One cycle error per component that loops.
    pub diagnostics: Vec<Diagnostic>,
}

/// Orders a graph for evaluation. Edges into a delay node's `value` are
/// feedback and order nothing; every other edge between nodes orders its
/// source before its target. Nodes that order each other form a component;
/// components are evaluated in dependency order, smallest first cell first,
/// and each component that loops is reported as a cycle.
pub fn topo_sort_with_delay_edges(graph: &Graph) -> (r: TopoAnalysis)
    ensures
        r.delay_edges.set_view() == spec_delay_edges(*graph),
        forall|p: GridPos|
            r.component_members.as_map().contains_key(p) <==> graph.nodes.as_map().contains_key(p),
        forall|p: GridPos|
            #[trigger] r.component_members.as_map().contains_key(p) ==> r.component_members.as_map()[p].set_view()
                == scc(*graph, p),
        r.eval_order@ == spec_eval_order(*graph),
        views(r.diagnostics@) == cycle_diagnostics(*graph),
{
    let delay_edges = delay_edge_ids(graph);
    let reach = reach_sets(graph);
    let lists = component_lists(graph, &reach);
    let comps = component_sequence(graph, &lists);
    let self_loops = self_loop_cells(graph);
    let diagnostics = cycle_findings(graph, &comps, &self_loops);
    let component_members = member_sets(graph, &lists);
    let eval_order = evaluation_order(graph, &comps);
    TopoAnalysis { eval_order, delay_edges, component_members, diagnostics }
}

/// Ordering paths compose.
proof fn lemma_leads_trans(g: Graph, a: GridPos, b: GridPos, c: GridPos)
    requires
        leads_to(g, a, b),
        leads_to(g, b, c),
    ensures
        leads_to(g, a, c),
{
    let p1 = choose|path: Seq<GridPos>| is_order_path(g, path) && path[0] == a && path.last() == b;
    let p2 = choose|path: Seq<GridPos>| is_order_path(g, path) && path[0] == b && path.last() == c;
    let joined = p1 + p2.drop_first();
    assert forall|i: int| 0 <= i < joined.len() - 1 implies orders(g, #[trigger] joined[i], joined[i + 1]) by {
        if i < p1.len() - 1 {
            assert(joined[i] == p1[i] && joined[i + 1] == p1[i + 1]);
        } else if i == p1.len() - 1 {
            assert(joined[i] == b);
            assert(joined[i + 1] == p2[1]);
            assert(orders(g, p2[0], p2[1]));
        } else {
            let k = i - p1.len() + 1;
            assert(joined[i] == p2[k]);
            assert(joined[i + 1] == p2[k + 1]);
        }
    }
    if p2.len() == 1 {
        assert(joined =~= p1);
    } else {
        assert(joined.last() == p2.last());
    }
    assert(is_order_path(g, joined));
}

/// Components are the classes of an equivalence: a node is in its own
/// component, and any member of a component has that same component.
pub proof fn lemma_components_partition(g: Graph, p: GridPos, q: GridPos)
    requires
        g.nodes.as_map().contains_key(p),
    ensures
        scc(g, p).contains(p),
        scc(g, p).contains(q) ==> scc(g, q) == scc(g, p),
{
    lemma_leads_to_self(g, p);
    if scc(g, p).contains(q) {
        assert forall|x: GridPos| scc(g, q).contains(x) <==> scc(g, p).contains(x) by {
            if scc(g, q).contains(x) {
                lemma_leads_trans(g, p, q, x);
                lemma_leads_trans(g, x, q, p);
            }
            if scc(g, p).contains(x) {
                lemma_leads_trans(g, q, p, x);
                lemma_leads_trans(g, x, p, q);
            }
        }
        assert(scc(g, q) =~= scc(g, p));
    }
}

/// The first ready index is a ready component.
proof fn lemma_first_ready(g: Graph, done: Set<GridPos>, cs: Seq<Seq<GridPos>>, k: int)
    requires
        0 <= k,
        first_ready(g, done, cs, k) is Some,
    ensures
        0 <= first_ready(g, done, cs, k)->0 < cs.len(),
        ready(g, done, cs[first_ready(g, done, cs, k)->0]),
    decreases cs.len() - k,
{
    if k < cs.len() && !ready(g, done, cs[k]) {
        lemma_first_ready(g, done, cs, k + 1);
    }
}

/// A component, as listed, holds exactly the nodes of the component of each of its cells.
proof fn lemma_component_cells(g: Graph, k: int, b: GridPos, a: GridPos)
    requires
        0 <= k < components(g).len(),
        components(g)[k].contains(b),
        g.nodes.as_map().contains_key(a),
    ensures
        components(g)[k].contains(a) <==> scc(g, b).contains(a),
{
    let keys = g.nodes.key_seq();
    let starts = |p: GridPos| starts_component(g, p);
    let reps = keys.filter(starts);
    let p = reps[k];
    assert(components(g)[k] == component_of(g, p));
    let pred = |q: GridPos| scc(g, p).contains(q);
    assert(component_of(g, p) == keys.filter(pred));
    let n = keys.filter(pred).len();
    let kb = choose|i: int| 0 <= i < n && keys.filter(pred)[i] == b;
    keys.lemma_filter_pred(pred, kb);
    keys.lemma_filter_contains_rev(starts, p);
    g.nodes.lemma_keys_in_map();
    assert(g.nodes.as_map().contains_key(p)) by {
        assert(reps[k] == p);
        assert(reps.contains(p));
        keys.lemma_filter_contains_rev(starts, p);
        let i = choose|i: int| 0 <= i < keys.len() && keys[i] == p;
        assert(g.nodes.as_map().contains_key(keys[i]));
    }
    lemma_components_partition(g, p, b);
    if components(g)[k].contains(a) {
        let ka = choose|i: int| 0 <= i < n && keys.filter(pred)[i] == a;
        keys.lemma_filter_pred(pred, ka);
    }
    if scc(g, b).contains(a) {
        let i = choose|i: int| 0 <= i < keys.len() && keys[i] == a;
        keys.lemma_filter_contains(pred, i);
    }
}

/// Within evaluation after `done`, a node feeding a node of another
/// component is done already or evaluated earlier.
proof fn lemma_order_from_respects(g: Graph, done: Set<GridPos>, steps: nat, j: int, a: GridPos)
    requires
        0 <= j < order_from(g, done, components(g), steps).len(),
        orders(g, a, order_from(g, done, components(g), steps)[j]),
        !scc(g, order_from(g, done, components(g), steps)[j]).contains(a),
    ensures
        done.contains(a) || exists|i: int| 0 <= i < j && order_from(g, done, components(g), steps)[i] == a,
    decreases steps,
{
    let cs = components(g);
    let o = order_from(g, done, cs, steps);
    if steps > 0 {
        match first_ready(g, done, cs, 0) {
            None => {},
            Some(k) => {
                lemma_first_ready(g, done, cs, 0);
                let c = cs[k];
                let next_done = done.union(c.to_set());
                let rest = order_from(g, next_done, cs, (steps - 1) as nat);
                assert(o == c + rest);
                let b = o[j];
                let id = choose|id: u128|
                    #[trigger] g.edges.as_map().contains_key(id) && is_ordering_edge(g, g.edges.as_map()[id])
                        && g.edges.as_map()[id].from == a && g.edges.as_map()[id].to_node == b;
                assert(g.nodes.as_map().contains_key(a));
                if j < c.len() {
                    assert(c[j] == b);
                    assert(c.contains(b));
                    lemma_component_cells(g, k, b, a);
                    assert(!c.contains(a));
                    assert(done.contains(a));
                } else {
                    let j2 = j - c.len();
                    assert(rest[j2] == b);
                    lemma_order_from_respects(g, next_done, (steps - 1) as nat, j2, a);
                    if next_done.contains(a) && !done.contains(a) {
                        assert(c.to_set().contains(a));
                        let i = choose|i: int| 0 <= i < c.len() && c[i] == a;
                        assert(o[i] == a);
                    } else if !done.contains(a) {
                        let i2 = choose|i: int| 0 <= i < j2 && rest[i] == a;
                        assert(o[i2 + c.len()] == a);
                    }
                }
            },
        }
    }
}

/// Evaluation respects dependencies: when a node is evaluated, every node
/// outside its component that feeds it through an ordering edge has been
/// evaluated before it.
pub proof fn lemma_eval_order_respects_edges(g: Graph, j: int, a: GridPos)
    requires
        0 <= j < spec_eval_order(g).len(),
        orders(g, a, spec_eval_order(g)[j]),
        !scc(g, spec_eval_order(g)[j]).contains(a),
    ensures
        exists|i: int| 0 <= i < j && spec_eval_order(g)[i] == a,
{
    lemma_order_from_respects(g, Set::empty(), g.nodes.key_seq().len(), j, a);
}

/// The cells of `g` that are nodes.
pub open spec fn node_set(g: Graph) -> Set<GridPos> {
    g.nodes.as_map().dom()
}

/// `done` is made of whole components: each of its cells is a node whose
/// whole component is done.
pub open spec fn whole_components(g: Graph, done: Set<GridPos>) -> bool {
    forall|x: GridPos|
        #[trigger] done.contains(x) ==> g.nodes.as_map().contains_key(x) && forall|y: GridPos|
            scc(g, x).contains(y) ==> done.contains(y)
}

/// The nodes that lead to `x`.
pub open spec fn ancestors(g: Graph, x: GridPos) -> Set<GridPos> {
    Set::new(|y: GridPos| g.nodes.as_map().contains_key(y) && leads_to(g, y, x))
}

/// Filtering keeps a sequence free of duplicates.
proof fn lemma_filter_no_dup(s: Seq<GridPos>, p: spec_fn(GridPos) -> bool)
    requires
        s.no_duplicates(),
    ensures
        s.filter(p).no_duplicates(),
    decreases s.len(),
{
    reveal_with_fuel(Seq::filter, 1);
    if s.len() > 0 {
        let rest = s.drop_last();
        assert(rest.no_duplicates()) by {
            assert forall|i: int, j: int| 0 <= i < rest.len() && 0 <= j < rest.len() && i != j implies rest[i]
                != rest[j] by {
                assert(rest[i] == s[i] && rest[j] == s[j]);
            }
        }
        lemma_filter_no_dup(rest, p);
        if p(s.last()) {
            if rest.filter(p).contains(s.last()) {
                rest.lemma_filter_contains_rev(p, s.last());
                let i = choose|i: int| 0 <= i < rest.len() && rest[i] == s.last();
                assert(s[i] == s[s.len() - 1]);
            }
            let f = rest.filter(p);
            assert forall|i: int, j: int| 0 <= i < f.push(s.last()).len() && 0 <= j < f.push(s.last()).len() && i != j implies f.push(
                s.last(),
            )[i] != f.push(s.last())[j] by {
                if i < f.len() && j < f.len() {
                } else if i < f.len() {
                    assert(f.contains(f[i]));
                } else if j < f.len() {
                    assert(f.contains(f[j]));
                }
            }
        }
    }
}

/// Sorted keys are free of duplicates.
proof fn lemma_keys_no_dup(g: Graph)
    requires
        g.nodes.keys_sorted(),
    ensures
        g.nodes.key_seq().no_duplicates(),
{
    let keys = g.nodes.key_seq();
    assert forall|i: int, j: int| 0 <= i < keys.len() && 0 <= j < keys.len() && i != j implies keys[i] != keys[j] by {
        if i < j {
            assert(grid_lt(keys[i], keys[j]));
        } else {
            assert(grid_lt(keys[j], keys[i]));
        }
    }
}

/// Every node lies in one of the listed components.
proof fn lemma_node_in_component(g: Graph, x: GridPos) -> (k: int)
    requires
        g.nodes.as_map().contains_key(x),
    ensures
        0 <= k < components(g).len(),
        components(g)[k].contains(x),
{
    let keys = g.nodes.key_seq();
    g.nodes.lemma_keys_in_map();
    lemma_components_partition(g, x, x);
    let px = |q: GridPos| scc(g, x).contains(q);
    let ix = choose|i: int| 0 <= i < keys.len() && keys[i] == x;
    keys.lemma_filter_contains(px, ix);
    let comp = keys.filter(px);
    assert(comp == component_of(g, x));
    assert(comp.len() > 0);
    let r = comp[0];
    keys.lemma_filter_pred(px, 0);
    assert(scc(g, x).contains(r));
    assert(g.nodes.as_map().contains_key(r));
    lemma_components_partition(g, x, r);
    assert(scc(g, r) == scc(g, x));
    assert((|q: GridPos| scc(g, r).contains(q)) =~= px);
    assert(component_of(g, r) == comp);
    assert(starts_component(g, r));
    keys.lemma_filter_contains_rev(px, r);
    let ir = choose|i: int| 0 <= i < keys.len() && keys[i] == r;
    let starts = |p: GridPos| starts_component(g, p);
    keys.lemma_filter_contains(starts, ir);
    let reps = keys.filter(starts);
    let k = choose|k: int| 0 <= k < reps.len() && reps[k] == r;
    assert(components(g)[k] == component_of(g, r));
    assert(comp.contains(x));
    k
}

/// The `k`-th component: its first cell is a node, it holds exactly the
/// nodes of that cell's component, and it lists each once.
proof fn lemma_component_shape(g: Graph, k: int)
    requires
        g.nodes.keys_sorted(),
        0 <= k < components(g).len(),
    ensures
        components(g)[k].len() > 0,
        components(g)[k].no_duplicates(),
        g.nodes.as_map().contains_key(components(g)[k][0]),
        forall|y: GridPos|
            #[trigger] components(g)[k].contains(y) <==> scc(g, components(g)[k][0]).contains(y),
{
    let keys = g.nodes.key_seq();
    let starts = |p: GridPos| starts_component(g, p);
    let reps = keys.filter(starts);
    let p = reps[k];
    keys.lemma_filter_pred(starts, k);
    assert(components(g)[k] == component_of(g, p));
    let pred = |q: GridPos| scc(g, p).contains(q);
    lemma_keys_no_dup(g);
    lemma_filter_no_dup(keys, pred);
    assert(components(g)[k][0] == p);
    g.nodes.lemma_keys_in_map();
    assert(g.nodes.as_map().contains_key(p)) by {
        keys.lemma_filter_contains_rev(starts, p);
        let i = choose|i: int| 0 <= i < keys.len() && keys[i] == p;
        assert(g.nodes.as_map().contains_key(keys[i]));
    }
    assert forall|y: GridPos| #[trigger] components(g)[k].contains(y) <==> scc(g, p).contains(y) by {
        if scc(g, p).contains(y) {
            lemma_component_cells(g, k, p, y);
        }
        if components(g)[k].contains(y) {
            let n = keys.filter(pred).len();
            let i = choose|i: int| 0 <= i < n && keys.filter(pred)[i] == y;
            keys.lemma_filter_pred(pred, i);
        }
    }
}

/// Whenever some node is not done, some component is ready: follow
/// unfinished feeders back; each step strictly shrinks the set of nodes
/// leading to the current cell, which cannot go on for ever.
proof fn lemma_some_ready(g: Graph, done: Set<GridPos>, x: GridPos, bound: nat) -> (k: int)
    requires
        g.nodes.keys_sorted(),
        whole_components(g, done),
        g.nodes.as_map().contains_key(x),
        !done.contains(x),
        ancestors(g, x).len() <= bound,
    ensures
        0 <= k < components(g).len(),
        ready(g, done, components(g)[k]),
    decreases bound,
{
    let cs = components(g);
    let k = lemma_node_in_component(g, x);
    let c = cs[k];
    lemma_component_shape(g, k);
    let p = c[0];
    assert(scc(g, p).contains(x));
    lemma_components_partition(g, p, x);
    if done.contains(p) {
        assert(scc(g, p).contains(x));
        assert(done.contains(x));
    }
    if ready(g, done, c) {
        k
    } else {
        let (a, b) = choose|a: GridPos, b: GridPos|
            #[trigger] orders(g, a, b) && c.contains(b) && !c.contains(a) && !done.contains(a);
        let id = choose|id: u128|
            #[trigger] g.edges.as_map().contains_key(id) && is_ordering_edge(g, g.edges.as_map()[id])
                && g.edges.as_map()[id].from == a && g.edges.as_map()[id].to_node == b;
        assert(g.nodes.as_map().contains_key(a));
        assert(scc(g, p).contains(b));
        assert(scc(g, x) == scc(g, p));
        assert(leads_to(g, b, x));
        lemma_leads_to_self(g, a);
        lemma_leads_extend(g, a, a, b);
        g.nodes.lemma_keys_in_map();
        let nodes_set = g.nodes.key_seq().to_set();
        vstd::seq_lib::seq_to_set_is_finite(g.nodes.key_seq());
        assert(ancestors(g, x).subset_of(nodes_set)) by {
            assert forall|y: GridPos| ancestors(g, x).contains(y) implies nodes_set.contains(y) by {
                let i = choose|i: int| 0 <= i < g.nodes.key_seq().len() && g.nodes.key_seq()[i] == y;
            }
        }
        vstd::set_lib::lemma_len_subset(ancestors(g, x), nodes_set);
        assert(ancestors(g, a).subset_of(ancestors(g, x).remove(x))) by {
            assert forall|y: GridPos| ancestors(g, a).contains(y) implies ancestors(g, x).remove(x).contains(y) by {
                lemma_leads_extend(g, y, a, b);
                lemma_leads_trans(g, y, b, x);
                if y == x {
                    lemma_leads_trans(g, x, a, b);
                    lemma_leads_trans(g, a, b, x);
                    assert(scc(g, x).contains(a));
                    assert(scc(g, p).contains(a));
                    assert(c.contains(a));
                }
            }
        }
        lemma_leads_to_self(g, x);
        assert(ancestors(g, x).contains(x));
        vstd::set_lib::lemma_len_subset(ancestors(g, a), ancestors(g, x).remove(x));
        lemma_some_ready(g, done, a, (bound - 1) as nat)
    }
}

/// Some component at or after `j` is ready, so the first ready one exists.
proof fn lemma_first_ready_found(g: Graph, done: Set<GridPos>, cs: Seq<Seq<GridPos>>, j: int, k: int)
    requires
        0 <= j <= k < cs.len(),
        ready(g, done, cs[k]),
    ensures
        first_ready(g, done, cs, j) is Some,
    decreases k - j,
{
    if !ready(g, done, cs[j]) {
        lemma_first_ready_found(g, done, cs, j + 1, k);
    }
}

/// Evaluating after whole components `done`, with at least as many steps as
/// nodes are left, evaluates every remaining node exactly once and nothing else.
proof fn lemma_order_from_counts(g: Graph, done: Set<GridPos>, steps: nat)
    requires
        g.nodes.keys_sorted(),
        whole_components(g, done),
        node_set(g).difference(done).len() <= steps,
    ensures
        forall|q: GridPos|
            #[trigger] order_from(g, done, components(g), steps).to_multiset().count(q) == (if g.nodes.as_map().contains_key(q)
                && !done.contains(q) {
                1nat
            } else {
                0nat
            }),
    decreases steps,
{
    broadcast use vstd::seq_lib::group_to_multiset_ensures;
    broadcast use vstd::multiset::group_multiset_axioms;

    let cs = components(g);
    let o = order_from(g, done, cs, steps);
    g.nodes.lemma_keys_in_map();
    let keys = g.nodes.key_seq();
    vstd::seq_lib::seq_to_set_is_finite(keys);
    assert(node_set(g) =~= keys.to_set()) by {
        assert forall|q: GridPos| node_set(g).contains(q) <==> keys.to_set().contains(q) by {
            if node_set(g).contains(q) {
                let i = choose|i: int| 0 <= i < keys.len() && keys[i] == q;
                assert(keys.contains(q));
            }
        }
    }
    let rem = node_set(g).difference(done);
    let no_left = forall|q: GridPos| !(g.nodes.as_map().contains_key(q) && !done.contains(q));
    if steps == 0 {
        assert forall|q: GridPos| !(g.nodes.as_map().contains_key(q) && !done.contains(q)) by {
            if g.nodes.as_map().contains_key(q) && !done.contains(q) {
                assert(rem.contains(q));
            }
        }
        assert(o =~= Seq::<GridPos>::empty());
    } else {
        match first_ready(g, done, cs, 0) {
            None => {
                assert forall|q: GridPos| !(g.nodes.as_map().contains_key(q) && !done.contains(q)) by {
                    if g.nodes.as_map().contains_key(q) && !done.contains(q) {
                        vstd::set_lib::lemma_len_subset(ancestors(g, q), node_set(g));
                        let k = lemma_some_ready(g, done, q, ancestors(g, q).len());
                        lemma_first_ready_found(g, done, cs, 0, k);
                    }
                }
                assert(o =~= Seq::<GridPos>::empty());
            },
            Some(k) => {
                lemma_first_ready(g, done, cs, 0);
                let c = cs[k];
                lemma_component_shape(g, k);
                let p = c[0];
                let next = done.union(c.to_set());
                assert forall|y: GridPos| c.contains(y) implies !done.contains(y) by {
                    if done.contains(y) {
                        lemma_components_partition(g, p, y);
                        lemma_components_partition(g, p, p);
                        assert(scc(g, y).contains(p));
                    }
                }
                assert(whole_components(g, next)) by {
                    assert forall|x: GridPos| #[trigger] next.contains(x) implies g.nodes.as_map().contains_key(x)
                        && forall|y: GridPos| scc(g, x).contains(y) ==> next.contains(y) by {
                        if !done.contains(x) {
                            assert(c.contains(x));
                            lemma_components_partition(g, p, x);
                            assert forall|y: GridPos| scc(g, x).contains(y) implies next.contains(y) by {
                                assert(c.contains(y));
                            }
                        }
                    }
                }
                assert(node_set(g).difference(next).subset_of(rem.remove(p)));
                assert(rem.contains(p));
                vstd::set_lib::lemma_len_subset(node_set(g).difference(next), rem.remove(p));
                lemma_order_from_counts(g, next, (steps - 1) as nat);
                let rest = order_from(g, next, cs, (steps - 1) as nat);
                assert(o == c + rest);
                vstd::seq_lib::lemma_multiset_commutative(c, rest);
                c.lemma_multiset_has_no_duplicates();
                assert forall|q: GridPos| #[trigger] o.to_multiset().count(q) == (if g.nodes.as_map().contains_key(q)
                    && !done.contains(q) {
                    1nat
                } else {
                    0nat
                }) by {
                    if c.contains(q) {
                        assert(c.to_multiset().count(q) == 1);
                        assert(next.contains(q));
                        assert(scc(g, p).contains(q));
                    } else {
                        assert(c.to_multiset().count(q) == 0);
                    }
                }
            },
        }
    }
}

/// Every node is evaluated exactly once, and nothing else is evaluated.
pub proof fn lemma_eval_order_covers_nodes(g: Graph)
    requires
        g.nodes.keys_sorted(),
    ensures
        forall|q: GridPos|
            #[trigger] spec_eval_order(g).to_multiset().count(q) == (if g.nodes.as_map().contains_key(q) {
                1nat
            } else {
                0nat
            }),
{
    let keys = g.nodes.key_seq();
    g.nodes.lemma_keys_in_map();
    vstd::seq_lib::seq_to_set_is_finite(keys);
    assert(node_set(g) =~= keys.to_set()) by {
        assert forall|q: GridPos| node_set(g).contains(q) <==> keys.to_set().contains(q) by {
            if node_set(g).contains(q) {
                let i = choose|i: int| 0 <= i < keys.len() && keys[i] == q;
                assert(keys.contains(q));
            }
        }
    }
    keys.lemma_cardinality_of_set();
    assert(node_set(g).difference(Set::empty()) =~= node_set(g));
    lemma_order_from_counts(g, Set::empty(), keys.len());
}

} // verus!
