//! Applying a batch of graph operations: each operation is checked, carried
//! out when it is valid, and paired with the operations that undo it.

use vstd::prelude::*;

use crate::diagnostics::{error_view, Diagnostic, DiagnosticKind, DiagnosticView, KindView};
use crate::graph::{as_i32, spec_in_bounds, views, BatchPlaceEdge, BatchPlaceEntry, Edge, Graph, GraphOp, Node};
use crate::internal::{find_param, first_param};
use crate::ops::auto_wire::{
    auto_wire_node, auto_wired, disconnects, edge_connect_from, reconnects, spec_auto_wire, wire_inputs,
};
use crate::ops::pruning::{
    doomed_indices, keep_edges, lemma_doomed_indices, nodes_interior, prune_invalid_edges_for_node, remove_listed_edges,
    spec_edge_still_adjacent, stale_after_move, stale_after_rewire, touches,
};
use crate::ops::types::ApplyOpsOutcome;
use crate::ops::validation::{
    append_cell, cell_text, interior, quoted_name, spec_validate_edge_connect, text_with_cell, validate_edge_connect,
};
use crate::json::json_eq;
use crate::graph::{edge_views, EdgeView};
use crate::collections::{OrderedKey, SortedMap};
use crate::piece::{schema_can_inline, PieceDef};
use crate::piece_registry::PieceRegistry;
use crate::text::{append_decimal, append_str, chars_of, decimal, owned, string_of_chars, trim_chars, trim_seq, Name};
use crate::types::{grid_lt, uuid_text, EdgeId, GridPos, TileSide};

verus! {

// Errors
// ---------------------------------------------------------------------------

/// An invalid-operation error at `site`.
pub open spec fn op_error(site: Option<GridPos>, reason: Seq<char>) -> DiagnosticView {
    error_view(KindView::InvalidOperation { reason }, site)
}

fn invalid_op(site: Option<GridPos>, reason: String) -> (r: Diagnostic)
    ensures
        r@ == op_error(site, reason@),
{
    Diagnostic::error(DiagnosticKind::InvalidOperation { reason }, site)
}

fn push_error(errors: &mut Vec<Diagnostic>, d: Diagnostic)
    ensures
        views(final(errors)@) == views(old(errors)@).push(d@),
{
    errors.push(d);
    proof {
        assert(views(errors@) =~= views(old(errors)@).push(d@));
    }
}

/// The error for a cell off the grid, named by the operation's `label`.
pub open spec fn bounds_error(g: Graph, label: Seq<char>, p: GridPos) -> DiagnosticView {
    op_error(
        Some(p),
        label + " out of bounds at "@ + cell_text(p) + ", allowed cols=[0.."@ + decimal(g.cols as int)
            + "), rows=[0.."@ + decimal(g.rows as int) + ")"@,
    )
}

/// The error for a cell without a node.
pub open spec fn missing_node_error(p: GridPos) -> DiagnosticView {
    op_error(Some(p), "missing node at "@ + cell_text(p))
}

/// The error for a node whose piece the registry lacks.
pub open spec fn unknown_piece_error(p: GridPos, piece_id: Seq<char>) -> DiagnosticView {
    op_error(Some(p), "unknown piece '"@ + piece_id + "'"@)
}

/// The error for a parameter the node's piece lacks.
pub open spec fn unknown_param_error(p: GridPos, param_id: Seq<char>) -> DiagnosticView {
    op_error(Some(p), "unknown param '"@ + param_id + "'"@)
}

/// Whether `pos` is on the grid; when it is not, the bounds error is recorded.
fn ensure_in_bounds(errors: &mut Vec<Diagnostic>, pos: &GridPos, label: &str, graph: &Graph) -> (r: bool)
    ensures
        r == spec_in_bounds(*graph, *pos),
        views(final(errors)@) == (if r {
            views(old(errors)@)
        } else {
            views(old(errors)@).push(bounds_error(*graph, label@, *pos))
        }),
{
    if graph.in_bounds(pos) {
        return true;
    }
    let mut buf: Vec<char> = Vec::new();
    append_str(&mut buf, label);
    append_str(&mut buf, " out of bounds at ");
    append_cell(&mut buf, pos);
    append_str(&mut buf, ", allowed cols=[0..");
    append_decimal(&mut buf, graph.cols as i64);
    append_str(&mut buf, "), rows=[0..");
    append_decimal(&mut buf, graph.rows as i64);
    append_str(&mut buf, ")");
    let reason = string_of_chars(buf.as_slice());
    proof {
        assert(reason@ =~= label@ + " out of bounds at "@ + cell_text(*pos) + ", allowed cols=[0.."@ + decimal(
            graph.cols as int,
        ) + "), rows=[0.."@ + decimal(graph.rows as int) + ")"@);
    }
    push_error(errors, invalid_op(Some(*pos), reason));
    false
}

// How an operation on one node fails
// ---------------------------------------------------------------------------

/// The error an operation labelled `label` on the node at `p` records before
/// anything else: the cell is off the grid or empty.
pub open spec fn node_failure(g: Graph, label: Seq<char>, p: GridPos) -> Option<DiagnosticView> {
    if !spec_in_bounds(g, p) {
        Some(bounds_error(g, label, p))
    } else if !g.nodes.as_map().contains_key(p) {
        Some(missing_node_error(p))
    } else {
        None
    }
}

/// As `node_failure`, and also when the node's piece is not registered.
pub open spec fn node_piece_failure(reg: PieceRegistry, g: Graph, label: Seq<char>, p: GridPos) -> Option<
    DiagnosticView,
> {
    match node_failure(g, label, p) {
        Some(e) => Some(e),
        None => if !reg.defs().contains_key(g.nodes.as_map()[p].piece_id@) {
            Some(unknown_piece_error(p, g.nodes.as_map()[p].piece_id@))
        } else {
            None
        },
    }
}

/// The piece of the node at `p`.
pub open spec fn piece_at(reg: PieceRegistry, g: Graph, p: GridPos) -> PieceDef {
    reg.defs()[g.nodes.as_map()[p].piece_id@]
}

/// Checks that the node at `pos` exists on the grid, recording the error
/// of `node_failure` when it does not.
fn check_node(errors: &mut Vec<Diagnostic>, pos: &GridPos, label: &str, graph: &Graph) -> (r: bool)
    ensures
        r == (node_failure(*graph, label@, *pos) is None),
        views(final(errors)@) == match node_failure(*graph, label@, *pos) {
            Some(e) => views(old(errors)@).push(e),
            None => views(old(errors)@),
        },
{
    if !ensure_in_bounds(errors, pos, label, graph) {
        return false;
    }
    if !graph.nodes.contains_key(pos) {
        push_error(errors, invalid_op(Some(*pos), text_with_cell("missing node at ", pos)));
        return false;
    }
    true
}

/// The piece of the node at `pos`, recording the error of
/// `node_piece_failure` when there is none.
fn check_node_piece<'a>(
    errors: &mut Vec<Diagnostic>,
    pos: &GridPos,
    label: &str,
    graph: &Graph,
    registry: &'a PieceRegistry,
) -> (r: Option<&'a PieceDef>)
    ensures
        (r is Some) == (node_piece_failure(*registry, *graph, label@, *pos) is None),
        r is Some ==> *r->0 == piece_at(*registry, *graph, *pos),
        views(final(errors)@) == match node_piece_failure(*registry, *graph, label@, *pos) {
            Some(e) => views(old(errors)@).push(e),
            None => views(old(errors)@),
        },
{
    if !check_node(errors, pos, label, graph) {
        return None;
    }
    let node = graph.nodes.get(pos).unwrap();
    match registry.get(node.piece_id.as_str()) {
        Some(def) => Some(def),
        None => {
            push_error(errors, invalid_op(Some(*pos), quoted_name("unknown piece '", node.piece_id.as_str())));
            None
        },
    }
}

// Effects
// ---------------------------------------------------------------------------

/// Nothing but the error list changed.
pub open spec fn unchanged(
    g0: Graph,
    g1: Graph,
    o0: ApplyOpsOutcome,
    o1: ApplyOpsOutcome,
    c0: Seq<Vec<GraphOp>>,
    c1: Seq<Vec<GraphOp>>,
) -> bool {
    g1 == g0 && o1 == o0 && c1 == c0
}

/// `g1` is `g0` with the node at `p` replaced, and nothing else changed.
pub open spec fn node_replaced(g0: Graph, g1: Graph, p: GridPos) -> bool {
    &&& g1.nodes.as_map() == g0.nodes.as_map().insert(p, g1.nodes.as_map()[p])
    &&& g1.edges.as_map() == g0.edges.as_map()
    &&& g1.name == g0.name
    &&& g1.cols == g0.cols
    &&& g1.rows == g0.rows
}

/// One operation satisfying `applied` was appended to the applied list.
pub open spec fn one_applied(o0: ApplyOpsOutcome, o1: ApplyOpsOutcome, applied: spec_fn(GraphOp) -> bool) -> bool {
    &&& o1.removed_edges == o0.removed_edges
    &&& o1.undo_ops == o0.undo_ops
    &&& o1.applied_ops@.len() == o0.applied_ops@.len() + 1
    &&& o1.applied_ops@.drop_last() == o0.applied_ops@
    &&& applied(o1.applied_ops@.last())
}

/// One undo chunk satisfying `chunk` was appended.
pub open spec fn one_chunk(c0: Seq<Vec<GraphOp>>, c1: Seq<Vec<GraphOp>>, chunk: spec_fn(Seq<GraphOp>) -> bool) -> bool {
    &&& c1.len() == c0.len() + 1
    &&& c1.drop_last() == c0
    &&& chunk(c1.last()@)
}

/// A chunk of the single operation `op`.
pub open spec fn single(ops: Seq<GraphOp>, op: spec_fn(GraphOp) -> bool) -> bool {
    ops.len() == 1 && op(ops[0])
}

fn push_applied(outcome: &mut ApplyOpsOutcome, op: GraphOp)
    ensures
        final(outcome).removed_edges == old(outcome).removed_edges,
        final(outcome).undo_ops == old(outcome).undo_ops,
        final(outcome).applied_ops@ == old(outcome).applied_ops@.push(op),
        final(outcome).applied_ops@.drop_last() == old(outcome).applied_ops@,
{
    outcome.applied_ops.push(op);
    proof {
        assert(outcome.applied_ops@.drop_last() =~= old(outcome).applied_ops@);
    }
}

fn push_single(chunks: &mut Vec<Vec<GraphOp>>, op: GraphOp)
    ensures
        final(chunks)@.len() == old(chunks)@.len() + 1,
        final(chunks)@.drop_last() == old(chunks)@,
        final(chunks)@.last()@ == seq![op],
{
    let mut chunk: Vec<GraphOp> = Vec::new();
    chunk.push(op);
    chunks.push(chunk);
    proof {
        assert(chunks@.drop_last() =~= old(chunks)@);
    }
}

// Operation shapes
// ---------------------------------------------------------------------------

pub open spec fn is_set_label(op: GraphOp, p: GridPos, l: Option<String>) -> bool {
    op matches GraphOp::NodeSetLabel { position, label } && position == p && label == l
}

pub open spec fn is_set_state(op: GraphOp, p: GridPos, s: Option<serde_json::Value>) -> bool {
    op matches GraphOp::NodeSetState { position, state } && position == p && state == s
}

pub open spec fn is_param_set_side(op: GraphOp, p: GridPos, id: Seq<char>, s: TileSide) -> bool {
    op matches GraphOp::ParamSetSide { position, param_id, side } && position == p && param_id@ == id && side == s
}

pub open spec fn is_param_clear_side(op: GraphOp, p: GridPos, id: Seq<char>) -> bool {
    op matches GraphOp::ParamClearSide { position, param_id } && position == p && param_id@ == id
}

pub open spec fn is_output_set_side(op: GraphOp, p: GridPos, s: TileSide) -> bool {
    op matches GraphOp::OutputSetSide { position, side } && position == p && side == s
}

pub open spec fn is_output_clear_side(op: GraphOp, p: GridPos) -> bool {
    op matches GraphOp::OutputClearSide { position } && position == p
}

pub open spec fn is_param_set_inline(op: GraphOp, p: GridPos, id: Seq<char>, v: serde_json::Value) -> bool {
    op matches GraphOp::ParamSetInline { position, param_id, value } && position == p && param_id@ == id && value
        == v
}

pub open spec fn is_param_clear_inline(op: GraphOp, p: GridPos, id: Seq<char>) -> bool {
    op matches GraphOp::ParamClearInline { position, param_id } && position == p && param_id@ == id
}

// Node fields
// ---------------------------------------------------------------------------

pub open spec fn same_but_label(n0: Node, n1: Node) -> bool {
    n1.piece_id == n0.piece_id && n1.inline_params == n0.inline_params && n1.input_sides == n0.input_sides
        && n1.output_side == n0.output_side && n1.node_state == n0.node_state
}

pub open spec fn same_but_state(n0: Node, n1: Node) -> bool {
    n1.piece_id == n0.piece_id && n1.inline_params == n0.inline_params && n1.input_sides == n0.input_sides
        && n1.output_side == n0.output_side && n1.label == n0.label
}

pub open spec fn same_but_sides(n0: Node, n1: Node) -> bool {
    n1.piece_id == n0.piece_id && n1.inline_params == n0.inline_params && n1.output_side == n0.output_side
        && n1.label == n0.label && n1.node_state == n0.node_state
}

pub open spec fn same_but_output(n0: Node, n1: Node) -> bool {
    n1.piece_id == n0.piece_id && n1.inline_params == n0.inline_params && n1.input_sides == n0.input_sides
        && n1.label == n0.label && n1.node_state == n0.node_state
}

pub open spec fn same_but_inline(n0: Node, n1: Node) -> bool {
    n1.piece_id == n0.piece_id && n1.input_sides == n0.input_sides && n1.output_side == n0.output_side
        && n1.label == n0.label && n1.node_state == n0.node_state
}

fn clone_label(l: &Option<String>) -> (r: Option<String>)
    ensures
        r == *l,
{
    match l {
        Some(s) => Some(s.clone()),
        None => None,
    }
}

fn clone_state(s: &Option<serde_json::Value>) -> (r: Option<serde_json::Value>)
    ensures
        r == *s,
{
    match s {
        Some(v) => Some(v.clone()),
        None => None,
    }
}

/// Takes the node at `pos` out of the graph.
fn take_node(graph: &mut Graph, pos: &GridPos) -> (r: Node)
    requires
        old(graph).nodes.as_map().contains_key(*pos),
    ensures
        r == old(graph).nodes.as_map()[*pos],
        final(graph).nodes.as_map() == old(graph).nodes.as_map().remove(*pos),
        final(graph).edges == old(graph).edges,
        final(graph).name == old(graph).name,
        final(graph).cols == old(graph).cols,
        final(graph).rows == old(graph).rows,
{
    graph.nodes.remove(pos).unwrap()
}

/// Puts `node` back at `pos`, after `take_node`.
fn put_node(graph: &mut Graph, pos: &GridPos, node: Node, Ghost(g0): Ghost<Graph>)
    requires
        old(graph).nodes.as_map() == g0.nodes.as_map().remove(*pos),
        g0.nodes.as_map().contains_key(*pos),
        old(graph).edges == g0.edges,
        old(graph).name == g0.name,
        old(graph).cols == g0.cols,
        old(graph).rows == g0.rows,
        nodes_interior(g0),
    ensures
        node_replaced(g0, *final(graph), *pos),
        final(graph).nodes.as_map()[*pos] == node,
        nodes_interior(*final(graph)),
{
    graph.nodes.insert(*pos, node);
    proof {
        assert(graph.nodes.as_map() =~= g0.nodes.as_map().insert(*pos, node));
        assert forall|q: GridPos| #[trigger] graph.nodes.as_map().contains_key(q) implies interior(q) by {
            assert(g0.nodes.as_map().contains_key(q));
        }
    }
}

// Labels and state
// ---------------------------------------------------------------------------

/// Setting the label of the node at `p`.
pub open spec fn set_label_step(
    g0: Graph,
    p: GridPos,
    label: Option<String>,
    g1: Graph,
    e0: Seq<DiagnosticView>,
    e1: Seq<DiagnosticView>,
    o0: ApplyOpsOutcome,
    o1: ApplyOpsOutcome,
    c0: Seq<Vec<GraphOp>>,
    c1: Seq<Vec<GraphOp>>,
) -> bool {
    match node_failure(g0, "node_set_label"@, p) {
        Some(e) => unchanged(g0, g1, o0, o1, c0, c1) && e1 == e0.push(e),
        None => {
            let n0 = g0.nodes.as_map()[p];
            let n1 = g1.nodes.as_map()[p];
            &&& e1 == e0
            &&& node_replaced(g0, g1, p)
            &&& same_but_label(n0, n1)
            &&& n1.label == label
            &&& one_applied(o0, o1, |op: GraphOp| is_set_label(op, p, label))
            &&& one_chunk(c0, c1, |ops: Seq<GraphOp>| single(ops, |op: GraphOp| is_set_label(op, p, n0.label)))
        },
    }
}

fn node_set_label(
    graph: &mut Graph,
    position: &GridPos,
    label: &Option<String>,
    errors: &mut Vec<Diagnostic>,
    outcome: &mut ApplyOpsOutcome,
    chunks: &mut Vec<Vec<GraphOp>>,
)
    requires
        nodes_interior(*old(graph)),
    ensures
        nodes_interior(*final(graph)),
        set_label_step(
            *old(graph),
            *position,
            *label,
            *final(graph),
            views(old(errors)@),
            views(final(errors)@),
            *old(outcome),
            *final(outcome),
            old(chunks)@,
            final(chunks)@,
        ),
{
    if !check_node(errors, position, "node_set_label", graph) {
        return;
    }
    let ghost g0 = *graph;
    let mut node = take_node(graph, position);
    let previous = clone_label(&node.label);
    node.label = clone_label(label);
    put_node(graph, position, node, Ghost(g0));
    push_applied(outcome, GraphOp::NodeSetLabel { position: *position, label: clone_label(label) });
    push_single(chunks, GraphOp::NodeSetLabel { position: *position, label: previous });
}

/// Setting the state of the node at `p`.
pub open spec fn set_state_step(
    g0: Graph,
    p: GridPos,
    state: Option<serde_json::Value>,
    g1: Graph,
    e0: Seq<DiagnosticView>,
    e1: Seq<DiagnosticView>,
    o0: ApplyOpsOutcome,
    o1: ApplyOpsOutcome,
    c0: Seq<Vec<GraphOp>>,
    c1: Seq<Vec<GraphOp>>,
) -> bool {
    match node_failure(g0, "node_set_state"@, p) {
        Some(e) => unchanged(g0, g1, o0, o1, c0, c1) && e1 == e0.push(e),
        None => {
            let n0 = g0.nodes.as_map()[p];
            let n1 = g1.nodes.as_map()[p];
            &&& e1 == e0
            &&& node_replaced(g0, g1, p)
            &&& same_but_state(n0, n1)
            &&& n1.node_state == state
            &&& one_applied(o0, o1, |op: GraphOp| is_set_state(op, p, state))
            &&& one_chunk(c0, c1, |ops: Seq<GraphOp>| single(ops, |op: GraphOp| is_set_state(op, p, n0.node_state)))
        },
    }
}

fn node_set_state(
    graph: &mut Graph,
    position: &GridPos,
    state: &Option<serde_json::Value>,
    errors: &mut Vec<Diagnostic>,
    outcome: &mut ApplyOpsOutcome,
    chunks: &mut Vec<Vec<GraphOp>>,
)
    requires
        nodes_interior(*old(graph)),
    ensures
        nodes_interior(*final(graph)),
        set_state_step(
            *old(graph),
            *position,
            *state,
            *final(graph),
            views(old(errors)@),
            views(final(errors)@),
            *old(outcome),
            *final(outcome),
            old(chunks)@,
            final(chunks)@,
        ),
{
    if !check_node(errors, position, "node_set_state", graph) {
        return;
    }
    let ghost g0 = *graph;
    let mut node = take_node(graph, position);
    let previous = clone_state(&node.node_state);
    node.node_state = clone_state(state);
    put_node(graph, position, node, Ghost(g0));
    push_applied(outcome, GraphOp::NodeSetState { position: *position, state: clone_state(state) });
    push_single(chunks, GraphOp::NodeSetState { position: *position, state: previous });
}

// Sides and inline values
// ---------------------------------------------------------------------------

/// Choosing side `side` for parameter `id` of the node at `p`.
pub open spec fn param_set_side_step(
    reg: PieceRegistry,
    g0: Graph,
    p: GridPos,
    id: Seq<char>,
    side: TileSide,
    g1: Graph,
    e0: Seq<DiagnosticView>,
    e1: Seq<DiagnosticView>,
    o0: ApplyOpsOutcome,
    o1: ApplyOpsOutcome,
    c0: Seq<Vec<GraphOp>>,
    c1: Seq<Vec<GraphOp>>,
) -> bool {
    match node_piece_failure(reg, g0, "param_set_side"@, p) {
        Some(e) => unchanged(g0, g1, o0, o1, c0, c1) && e1 == e0.push(e),
        None => {
            let n0 = g0.nodes.as_map()[p];
            let n1 = g1.nodes.as_map()[p];
            let sides = n0.input_sides.as_map();
            if first_param(piece_at(reg, g0, p), id) is None {
                unchanged(g0, g1, o0, o1, c0, c1) && e1 == e0.push(unknown_param_error(p, id))
            } else if sides.contains_key(id) && sides[id] == side {
                unchanged(g0, g1, o0, o1, c0, c1) && e1 == e0
            } else {
                &&& e1 == e0
                &&& node_replaced(g0, g1, p)
                &&& same_but_sides(n0, n1)
                &&& n1.input_sides.as_map() == sides.insert(id, side)
                &&& one_applied(o0, o1, |op: GraphOp| is_param_set_side(op, p, id, side))
                &&& one_chunk(
                    c0,
                    c1,
                    |ops: Seq<GraphOp>|
                        single(
                            ops,
                            |op: GraphOp|
                                if sides.contains_key(id) {
                                    is_param_set_side(op, p, id, sides[id])
                                } else {
                                    is_param_clear_side(op, p, id)
                                },
                        ),
                )
            }
        },
    }
}

fn param_set_side(
    graph: &mut Graph,
    registry: &PieceRegistry,
    position: &GridPos,
    param_id: &String,
    side: TileSide,
    errors: &mut Vec<Diagnostic>,
    outcome: &mut ApplyOpsOutcome,
    chunks: &mut Vec<Vec<GraphOp>>,
)
    requires
        nodes_interior(*old(graph)),
    ensures
        nodes_interior(*final(graph)),
        param_set_side_step(
            *registry,
            *old(graph),
            *position,
            param_id@,
            side,
            *final(graph),
            views(old(errors)@),
            views(final(errors)@),
            *old(outcome),
            *final(outcome),
            old(chunks)@,
            final(chunks)@,
        ),
{
    let def = match check_node_piece(errors, position, "param_set_side", graph, registry) {
        Some(d) => d,
        None => return ,
    };
    if find_param(def, param_id.as_str()).is_none() {
        push_error(errors, invalid_op(Some(*position), quoted_name("unknown param '", param_id.as_str())));
        return ;
    }
    let key = Name::new(param_id.as_str());
    let previous: Option<TileSide> = match graph.nodes.get(position).unwrap().input_sides.get(&key) {
        Some(s) => Some(*s),
        None => None,
    };
    match previous {
        Some(s) => {
            if s == side {
                return ;
            }
        },
        None => {},
    }
    let ghost g0 = *graph;
    let mut node = take_node(graph, position);
    node.input_sides.insert(key, side);
    put_node(graph, position, node, Ghost(g0));
    push_applied(outcome, GraphOp::ParamSetSide { position: *position, param_id: param_id.clone(), side });
    match previous {
        Some(s) => push_single(chunks, GraphOp::ParamSetSide { position: *position, param_id: param_id.clone(), side: s }),
        None => push_single(chunks, GraphOp::ParamClearSide { position: *position, param_id: param_id.clone() }),
    }
}

/// Dropping the side chosen for parameter `id` of the node at `p`.
pub open spec fn param_clear_side_step(
    reg: PieceRegistry,
    g0: Graph,
    p: GridPos,
    id: Seq<char>,
    g1: Graph,
    e0: Seq<DiagnosticView>,
    e1: Seq<DiagnosticView>,
    o0: ApplyOpsOutcome,
    o1: ApplyOpsOutcome,
    c0: Seq<Vec<GraphOp>>,
    c1: Seq<Vec<GraphOp>>,
) -> bool {
    match node_piece_failure(reg, g0, "param_clear_side"@, p) {
        Some(e) => unchanged(g0, g1, o0, o1, c0, c1) && e1 == e0.push(e),
        None => {
            let n0 = g0.nodes.as_map()[p];
            let n1 = g1.nodes.as_map()[p];
            let sides = n0.input_sides.as_map();
            if first_param(piece_at(reg, g0, p), id) is None {
                unchanged(g0, g1, o0, o1, c0, c1) && e1 == e0.push(unknown_param_error(p, id))
            } else if !sides.contains_key(id) {
                unchanged(g0, g1, o0, o1, c0, c1) && e1 == e0
            } else {
                &&& e1 == e0
                &&& node_replaced(g0, g1, p)
                &&& same_but_sides(n0, n1)
                &&& n1.input_sides.as_map() == sides.remove(id)
                &&& one_applied(o0, o1, |op: GraphOp| is_param_clear_side(op, p, id))
                &&& one_chunk(
                    c0,
                    c1,
                    |ops: Seq<GraphOp>| single(ops, |op: GraphOp| is_param_set_side(op, p, id, sides[id])),
                )
            }
        },
    }
}

fn param_clear_side(
    graph: &mut Graph,
    registry: &PieceRegistry,
    position: &GridPos,
    param_id: &String,
    errors: &mut Vec<Diagnostic>,
    outcome: &mut ApplyOpsOutcome,
    chunks: &mut Vec<Vec<GraphOp>>,
)
    requires
        nodes_interior(*old(graph)),
    ensures
        nodes_interior(*final(graph)),
        param_clear_side_step(
            *registry,
            *old(graph),
            *position,
            param_id@,
            *final(graph),
            views(old(errors)@),
            views(final(errors)@),
            *old(outcome),
            *final(outcome),
            old(chunks)@,
            final(chunks)@,
        ),
{
    let def = match check_node_piece(errors, position, "param_clear_side", graph, registry) {
        Some(d) => d,
        None => return ,
    };
    if find_param(def, param_id.as_str()).is_none() {
        push_error(errors, invalid_op(Some(*position), quoted_name("unknown param '", param_id.as_str())));
        return ;
    }
    let key = Name::new(param_id.as_str());
    if !graph.nodes.get(position).unwrap().input_sides.contains_key(&key) {
        return ;
    }
    let ghost g0 = *graph;
    let mut node = take_node(graph, position);
    let previous = node.input_sides.remove(&key).unwrap();
    put_node(graph, position, node, Ghost(g0));
    push_applied(outcome, GraphOp::ParamClearSide { position: *position, param_id: param_id.clone() });
    push_single(chunks, GraphOp::ParamSetSide { position: *position, param_id: param_id.clone(), side: previous });
}

/// The error for choosing an output side on a piece without output.
pub open spec fn terminal_output_error(p: GridPos) -> DiagnosticView {
    op_error(Some(p), "cannot set output side on terminal piece"@)
}

/// Choosing output side `side` for the node at `p`.
pub open spec fn output_set_side_step(
    reg: PieceRegistry,
    g0: Graph,
    p: GridPos,
    side: TileSide,
    g1: Graph,
    e0: Seq<DiagnosticView>,
    e1: Seq<DiagnosticView>,
    o0: ApplyOpsOutcome,
    o1: ApplyOpsOutcome,
    c0: Seq<Vec<GraphOp>>,
    c1: Seq<Vec<GraphOp>>,
) -> bool {
    match node_piece_failure(reg, g0, "output_set_side"@, p) {
        Some(e) => unchanged(g0, g1, o0, o1, c0, c1) && e1 == e0.push(e),
        None => {
            let n0 = g0.nodes.as_map()[p];
            let n1 = g1.nodes.as_map()[p];
            if piece_at(reg, g0, p).output_type is None {
                unchanged(g0, g1, o0, o1, c0, c1) && e1 == e0.push(terminal_output_error(p))
            } else if n0.output_side == Some(side) {
                unchanged(g0, g1, o0, o1, c0, c1) && e1 == e0
            } else {
                &&& e1 == e0
                &&& node_replaced(g0, g1, p)
                &&& same_but_output(n0, n1)
                &&& n1.output_side == Some(side)
                &&& one_applied(o0, o1, |op: GraphOp| is_output_set_side(op, p, side))
                &&& one_chunk(
                    c0,
                    c1,
                    |ops: Seq<GraphOp>|
                        single(
                            ops,
                            |op: GraphOp|
                                match n0.output_side {
                                    Some(s) => is_output_set_side(op, p, s),
                                    None => is_output_clear_side(op, p),
                                },
                        ),
                )
            }
        },
    }
}

fn output_set_side(
    graph: &mut Graph,
    registry: &PieceRegistry,
    position: &GridPos,
    side: TileSide,
    errors: &mut Vec<Diagnostic>,
    outcome: &mut ApplyOpsOutcome,
    chunks: &mut Vec<Vec<GraphOp>>,
)
    requires
        nodes_interior(*old(graph)),
    ensures
        nodes_interior(*final(graph)),
        output_set_side_step(
            *registry,
            *old(graph),
            *position,
            side,
            *final(graph),
            views(old(errors)@),
            views(final(errors)@),
            *old(outcome),
            *final(outcome),
            old(chunks)@,
            final(chunks)@,
        ),
{
    let def = match check_node_piece(errors, position, "output_set_side", graph, registry) {
        Some(d) => d,
        None => return ,
    };
    if def.output_type.is_none() {
        push_error(errors, invalid_op(Some(*position), owned("cannot set output side on terminal piece")));
        return ;
    }
    let previous = graph.nodes.get(position).unwrap().output_side;
    match previous {
        Some(s) => {
            if s == side {
                return ;
            }
        },
        None => {},
    }
    let ghost g0 = *graph;
    let mut node = take_node(graph, position);
    node.output_side = Some(side);
    put_node(graph, position, node, Ghost(g0));
    push_applied(outcome, GraphOp::OutputSetSide { position: *position, side });
    match previous {
        Some(s) => push_single(chunks, GraphOp::OutputSetSide { position: *position, side: s }),
        None => push_single(chunks, GraphOp::OutputClearSide { position: *position }),
    }
}

/// Dropping the output side chosen for the node at `p`.
pub open spec fn output_clear_side_step(
    reg: PieceRegistry,
    g0: Graph,
    p: GridPos,
    g1: Graph,
    e0: Seq<DiagnosticView>,
    e1: Seq<DiagnosticView>,
    o0: ApplyOpsOutcome,
    o1: ApplyOpsOutcome,
    c0: Seq<Vec<GraphOp>>,
    c1: Seq<Vec<GraphOp>>,
) -> bool {
    match node_piece_failure(reg, g0, "output_clear_side"@, p) {
        Some(e) => unchanged(g0, g1, o0, o1, c0, c1) && e1 == e0.push(e),
        None => {
            let n0 = g0.nodes.as_map()[p];
            let n1 = g1.nodes.as_map()[p];
            if piece_at(reg, g0, p).output_type is None || n0.output_side is None {
                unchanged(g0, g1, o0, o1, c0, c1) && e1 == e0
            } else {
                &&& e1 == e0
                &&& node_replaced(g0, g1, p)
                &&& same_but_output(n0, n1)
                &&& n1.output_side is None
                &&& one_applied(o0, o1, |op: GraphOp| is_output_clear_side(op, p))
                &&& one_chunk(
                    c0,
                    c1,
                    |ops: Seq<GraphOp>| single(ops, |op: GraphOp| is_output_set_side(op, p, n0.output_side->0)),
                )
            }
        },
    }
}

fn output_clear_side(
    graph: &mut Graph,
    registry: &PieceRegistry,
    position: &GridPos,
    errors: &mut Vec<Diagnostic>,
    outcome: &mut ApplyOpsOutcome,
    chunks: &mut Vec<Vec<GraphOp>>,
)
    requires
        nodes_interior(*old(graph)),
    ensures
        nodes_interior(*final(graph)),
        output_clear_side_step(
            *registry,
            *old(graph),
            *position,
            *final(graph),
            views(old(errors)@),
            views(final(errors)@),
            *old(outcome),
            *final(outcome),
            old(chunks)@,
            final(chunks)@,
        ),
{
    let def = match check_node_piece(errors, position, "output_clear_side", graph, registry) {
        Some(d) => d,
        None => return ,
    };
    if def.output_type.is_none() {
        return ;
    }
    let previous = match graph.nodes.get(position).unwrap().output_side {
        Some(s) => s,
        None => return ,
    };
    let ghost g0 = *graph;
    let mut node = take_node(graph, position);
    node.output_side = None;
    put_node(graph, position, node, Ghost(g0));
    push_applied(outcome, GraphOp::OutputClearSide { position: *position });
    push_single(chunks, GraphOp::OutputSetSide { position: *position, side: previous });
}

/// Clearing the inline value of parameter `id` of the node at `p`.
pub open spec fn param_clear_inline_step(
    reg: PieceRegistry,
    g0: Graph,
    p: GridPos,
    id: Seq<char>,
    g1: Graph,
    e0: Seq<DiagnosticView>,
    e1: Seq<DiagnosticView>,
    o0: ApplyOpsOutcome,
    o1: ApplyOpsOutcome,
    c0: Seq<Vec<GraphOp>>,
    c1: Seq<Vec<GraphOp>>,
) -> bool {
    match node_piece_failure(reg, g0, "param_clear_inline"@, p) {
        Some(e) => unchanged(g0, g1, o0, o1, c0, c1) && e1 == e0.push(e),
        None => {
            let n0 = g0.nodes.as_map()[p];
            let n1 = g1.nodes.as_map()[p];
            let values = n0.inline_params.as_map();
            if first_param(piece_at(reg, g0, p), id) is None {
                unchanged(g0, g1, o0, o1, c0, c1) && e1 == e0.push(unknown_param_error(p, id))
            } else if !values.contains_key(id) {
                unchanged(g0, g1, o0, o1, c0, c1) && e1 == e0
            } else {
                &&& e1 == e0
                &&& node_replaced(g0, g1, p)
                &&& same_but_inline(n0, n1)
                &&& n1.inline_params.as_map() == values.remove(id)
                &&& one_applied(o0, o1, |op: GraphOp| is_param_clear_inline(op, p, id))
                &&& one_chunk(
                    c0,
                    c1,
                    |ops: Seq<GraphOp>| single(ops, |op: GraphOp| is_param_set_inline(op, p, id, values[id])),
                )
            }
        },
    }
}

fn param_clear_inline(
    graph: &mut Graph,
    registry: &PieceRegistry,
    position: &GridPos,
    param_id: &String,
    errors: &mut Vec<Diagnostic>,
    outcome: &mut ApplyOpsOutcome,
    chunks: &mut Vec<Vec<GraphOp>>,
)
    requires
        nodes_interior(*old(graph)),
    ensures
        nodes_interior(*final(graph)),
        param_clear_inline_step(
            *registry,
            *old(graph),
            *position,
            param_id@,
            *final(graph),
            views(old(errors)@),
            views(final(errors)@),
            *old(outcome),
            *final(outcome),
            old(chunks)@,
            final(chunks)@,
        ),
{
    let def = match check_node_piece(errors, position, "param_clear_inline", graph, registry) {
        Some(d) => d,
        None => return ,
    };
    if find_param(def, param_id.as_str()).is_none() {
        push_error(errors, invalid_op(Some(*position), quoted_name("unknown param '", param_id.as_str())));
        return ;
    }
    let key = Name::new(param_id.as_str());
    if !graph.nodes.get(position).unwrap().inline_params.contains_key(&key) {
        return ;
    }
    let ghost g0 = *graph;
    let mut node = take_node(graph, position);
    let previous = node.inline_params.remove(&key).unwrap();
    put_node(graph, position, node, Ghost(g0));
    push_applied(outcome, GraphOp::ParamClearInline { position: *position, param_id: param_id.clone() });
    push_single(
        chunks,
        GraphOp::ParamSetInline { position: *position, param_id: param_id.clone(), value: previous },
    );
}

// Disconnecting
// ---------------------------------------------------------------------------

/// The error for an edge id the graph lacks.
pub open spec fn missing_edge_error(id: u128) -> DiagnosticView {
    op_error(None, "missing edge '"@ + uuid_text(id) + "'"@)
}

/// The graph keeps its nodes, name and size, and its edges become `edges`.
pub open spec fn edges_become(g0: Graph, g1: Graph, edges: Map<u128, Edge>) -> bool {
    &&& g1.nodes == g0.nodes
    &&& g1.edges.as_map() == edges
    &&& g1.name == g0.name
    &&& g1.cols == g0.cols
    &&& g1.rows == g0.rows
}

/// Disconnecting edge `id`.
pub open spec fn edge_disconnect_step(
    g0: Graph,
    id: u128,
    g1: Graph,
    e0: Seq<DiagnosticView>,
    e1: Seq<DiagnosticView>,
    o0: ApplyOpsOutcome,
    o1: ApplyOpsOutcome,
    c0: Seq<Vec<GraphOp>>,
    c1: Seq<Vec<GraphOp>>,
) -> bool {
    if !g0.edges.as_map().contains_key(id) {
        unchanged(g0, g1, o0, o1, c0, c1) && e1 == e0.push(missing_edge_error(id))
    } else {
        let e = g0.edges.as_map()[id];
        &&& e1 == e0
        &&& edges_become(g0, g1, g0.edges.as_map().remove(id))
        &&& one_applied(o0, o1, |op: GraphOp| disconnects(op, id))
        &&& one_chunk(c0, c1, |ops: Seq<GraphOp>| single(ops, |op: GraphOp| reconnects(op, e@)))
    }
}

fn edge_disconnect(
    graph: &mut Graph,
    edge_id: &EdgeId,
    errors: &mut Vec<Diagnostic>,
    outcome: &mut ApplyOpsOutcome,
    chunks: &mut Vec<Vec<GraphOp>>,
)
    requires
        nodes_interior(*old(graph)),
    ensures
        nodes_interior(*final(graph)),
        edge_disconnect_step(
            *old(graph),
            edge_id@,
            *final(graph),
            views(old(errors)@),
            views(final(errors)@),
            *old(outcome),
            *final(outcome),
            old(chunks)@,
            final(chunks)@,
        ),
{
    if !graph.edges.contains_key(edge_id) {
        push_error(errors, invalid_op(None, quoted_name("missing edge '", edge_id.text().as_str())));
        return ;
    }
    let removed = graph.edges.remove(edge_id).unwrap();
    push_applied(outcome, GraphOp::EdgeDisconnect { edge_id: edge_id.clone() });
    push_single(chunks, edge_connect_from(&removed));
}

// Inline values
// ---------------------------------------------------------------------------

/// `ok` is a verdict the inline check `f` can give on value `v` for
/// parameter `param` of piece `piece`.
pub open spec fn inline_verdict<F: Fn(&str, &str, &serde_json::Value) -> bool>(
    f: F,
    piece: Seq<char>,
    param: Seq<char>,
    v: serde_json::Value,
    ok: bool,
) -> bool {
    exists|a: &str, b: &str| a@ == piece && b@ == param && #[trigger] f.ensures((a, b, &v), ok)
}

/// The check is consulted only for a declared parameter that takes inline
/// values; there `ok` is its verdict.
pub open spec fn verdict_for<F: Fn(&str, &str, &serde_json::Value) -> bool>(
    f: F,
    def: PieceDef,
    id: Seq<char>,
    v: serde_json::Value,
    ok: bool,
) -> bool {
    match first_param(def, id) {
        Some(j) => schema_can_inline(def.params@[j].schema) ==> inline_verdict(f, def.id@, id, v, ok),
        None => true,
    }
}

/// The error a placed node's inline value `id` records, given the verdict
/// `ok`, or `None`.
pub open spec fn inline_error(def: PieceDef, p: GridPos, id: Seq<char>, ok: bool) -> Option<DiagnosticView> {
    match first_param(def, id) {
        None => Some(op_error(Some(p), "unknown inline param '"@ + id + "'"@)),
        Some(j) => if !schema_can_inline(def.params@[j].schema) {
            Some(op_error(Some(p), "inline value is not allowed for '"@ + id + "'"@))
        } else if !ok {
            Some(op_error(Some(p), "inline value has wrong type for '"@ + id + "'"@))
        } else {
            None
        },
    }
}

/// The errors of the first `n` inline values, in key order.
pub open spec fn inline_errors(def: PieceDef, p: GridPos, keys: Seq<Seq<char>>, oks: Seq<bool>, n: nat) -> Seq<
    DiagnosticView,
>
    decreases n,
{
    if n == 0 {
        Seq::empty()
    } else {
        let prev = inline_errors(def, p, keys, oks, (n - 1) as nat);
        match inline_error(def, p, keys[n - 1], oks[n - 1]) {
            Some(e) => prev.push(e),
            None => prev,
        }
    }
}

pub open spec fn is_node_place(op: GraphOp, p: GridPos, piece: String, params: Map<Seq<char>, serde_json::Value>) -> bool {
    op matches GraphOp::NodePlace { position, piece_id, inline_params } && position == p && piece_id == piece
        && inline_params.as_map() == params
}

pub open spec fn is_node_remove(op: GraphOp, p: GridPos) -> bool {
    op matches GraphOp::NodeRemove { position } && position == p
}

/// A node of piece `piece` with inline values `params` and nothing else set.
pub open spec fn fresh_node(n: Node, piece: String, params: Map<Seq<char>, serde_json::Value>) -> bool {
    &&& n.piece_id == piece
    &&& n.inline_params.as_map() == params
    &&& n.input_sides.as_map() == Map::<Seq<char>, TileSide>::empty()
    &&& n.output_side is None
    &&& n.label is None
    &&& n.node_state is None
}

/// Placing a node of piece `piece` with inline values `params` at `p`;
/// `oks` are the inline check's verdicts, in key order.
pub open spec fn node_place_step<F: Fn(&str, &str, &serde_json::Value) -> bool>(
    reg: PieceRegistry,
    f: F,
    g0: Graph,
    p: GridPos,
    piece: String,
    params: SortedMap<Name, serde_json::Value>,
    oks: Seq<bool>,
    g1: Graph,
    e0: Seq<DiagnosticView>,
    e1: Seq<DiagnosticView>,
    o0: ApplyOpsOutcome,
    o1: ApplyOpsOutcome,
    c0: Seq<Vec<GraphOp>>,
    c1: Seq<Vec<GraphOp>>,
) -> bool {
    if !spec_in_bounds(g0, p) {
        unchanged(g0, g1, o0, o1, c0, c1) && e1 == e0.push(bounds_error(g0, "node_place"@, p))
    } else if g0.nodes.as_map().contains_key(p) {
        unchanged(g0, g1, o0, o1, c0, c1) && e1 == e0.push(op_error(Some(p), "node already exists at "@ + cell_text(p)))
    } else if !reg.defs().contains_key(piece@) {
        unchanged(g0, g1, o0, o1, c0, c1) && e1 == e0.push(op_error(Some(p), "unknown piece id '"@ + piece@ + "'"@))
    } else {
        let def = reg.defs()[piece@];
        let keys = params.key_seq();
        let errs = inline_errors(def, p, keys, oks, keys.len());
        &&& oks.len() == keys.len()
        &&& forall|i: int| 0 <= i < keys.len() ==> verdict_for(f, def, keys[i], params.value_seq()[i], #[trigger] oks[i])
        &&& if errs.len() > 0 {
            unchanged(g0, g1, o0, o1, c0, c1) && e1 == e0 + errs
        } else {
            &&& e1 == e0
            &&& g1.nodes.as_map() == g0.nodes.as_map().insert(p, g1.nodes.as_map()[p])
            &&& fresh_node(g1.nodes.as_map()[p], piece, params.as_map())
            &&& g1.edges == g0.edges
            &&& g1.name == g0.name
            &&& g1.cols == g0.cols
            &&& g1.rows == g0.rows
            &&& one_applied(o0, o1, |op: GraphOp| is_node_place(op, p, piece, params.as_map()))
            &&& one_chunk(c0, c1, |ops: Seq<GraphOp>| single(ops, |op: GraphOp| is_node_remove(op, p)))
        }
    }
}

/// A copy of a map of inline values.
fn clone_params(m: &SortedMap<Name, serde_json::Value>) -> (r: SortedMap<Name, serde_json::Value>)
    ensures
        r.as_map() == m.as_map(),
{
    let _ = m.len();
    let r = m.clone();
    proof {
        assert(r.value_seq() =~= m.value_seq());
        SortedMap::lemma_same_entries(*m, r);
    }
    r
}

/// Checks the inline values of a node of piece `def` at `p`, recording an
/// error for each value that is refused. Returns the verdicts.
fn check_inline_values<F: Fn(&str, &str, &serde_json::Value) -> bool>(
    def: &PieceDef,
    p: &GridPos,
    params: &SortedMap<Name, serde_json::Value>,
    check: &F,
    errors: &mut Vec<Diagnostic>,
) -> (oks: Ghost<Seq<bool>>)
    requires
        forall|a: &str, b: &str, v: &serde_json::Value| check.requires((a, b, v)),
    ensures
        oks@.len() == params.key_seq().len(),
        forall|i: int|
            0 <= i < params.key_seq().len() ==> verdict_for(
                *check,
                *def,
                params.key_seq()[i],
                params.value_seq()[i],
                #[trigger] oks@[i],
            ),
        views(final(errors)@) == views(old(errors)@) + inline_errors(
            *def,
            *p,
            params.key_seq(),
            oks@,
            params.key_seq().len(),
        ),
{
    let n = params.len();
    let ghost mut oks: Seq<bool> = Seq::empty();
    let mut i: usize = 0;
    while i < n
        invariant
            n == params.key_seq().len(),
            n == params.value_seq().len(),
            i <= n,
            oks.len() == i,
            forall|a: &str, b: &str, v: &serde_json::Value| check.requires((a, b, v)),
            forall|k: int|
                0 <= k < i ==> verdict_for(*check, *def, params.key_seq()[k], params.value_seq()[k], #[trigger] oks[k]),
            views(errors@) == views(old(errors)@) + inline_errors(*def, *p, params.key_seq(), oks, i as nat),
        decreases n - i,
    {
        let key = params.key_at(i);
        let value = params.value_at(i);
        let ghost before = views(errors@);
        let ghost mut ok: bool = true;
        match find_param(def, key.0.as_str()) {
            None => {
                push_error(errors, invalid_op(Some(*p), quoted_name("unknown inline param '", key.0.as_str())));
            },
            Some(param) => {
                if !param.schema.can_inline() {
                    push_error(
                        errors,
                        invalid_op(Some(*p), quoted_name("inline value is not allowed for '", key.0.as_str())),
                    );
                } else {
                    let accepted = check(def.id.as_str(), key.0.as_str(), value);
                    proof {
                        ok = accepted;
                        assert(inline_verdict(*check, def.id@, key@, *value, accepted));
                    }
                    if !accepted {
                        push_error(
                            errors,
                            invalid_op(Some(*p), quoted_name("inline value has wrong type for '", key.0.as_str())),
                        );
                    }
                }
            },
        }
        proof {
            let oks1 = oks.push(ok);
            assert forall|k: int| 0 <= k < i + 1 implies verdict_for(
                *check,
                *def,
                params.key_seq()[k],
                params.value_seq()[k],
                #[trigger] oks1[k],
            ) by {
                if k < i {
                    assert(oks1[k] == oks[k]);
                }
            }
            assert(inline_errors(*def, *p, params.key_seq(), oks1, i as nat) == inline_errors(
                *def,
                *p,
                params.key_seq(),
                oks,
                i as nat,
            )) by {
                lemma_inline_errors_prefix(*def, *p, params.key_seq(), oks, oks1, i as nat);
            }
            oks = oks1;
            assert(views(errors@) =~= views(old(errors)@) + inline_errors(*def, *p, params.key_seq(), oks, (i + 1) as nat));
        }
        i = i + 1;
    }
    Ghost(oks)
}

proof fn lemma_inline_errors_prefix(
    def: PieceDef,
    p: GridPos,
    keys: Seq<Seq<char>>,
    a: Seq<bool>,
    b: Seq<bool>,
    n: nat,
)
    requires
        n <= a.len(),
        n <= b.len(),
        forall|k: int| 0 <= k < n ==> a[k] == b[k],
    ensures
        inline_errors(def, p, keys, a, n) == inline_errors(def, p, keys, b, n),
    decreases n,
{
    if n > 0 {
        lemma_inline_errors_prefix(def, p, keys, a, b, (n - 1) as nat);
    }
}

fn node_place<F: Fn(&str, &str, &serde_json::Value) -> bool>(
    graph: &mut Graph,
    registry: &PieceRegistry,
    check: &F,
    position: &GridPos,
    piece_id: &String,
    inline_params: &SortedMap<Name, serde_json::Value>,
    errors: &mut Vec<Diagnostic>,
    outcome: &mut ApplyOpsOutcome,
    chunks: &mut Vec<Vec<GraphOp>>,
)
    requires
        nodes_interior(*old(graph)),
        forall|a: &str, b: &str, v: &serde_json::Value| check.requires((a, b, v)),
    ensures
        nodes_interior(*final(graph)),
        exists|oks: Seq<bool>|
            node_place_step(
                *registry,
                *check,
                *old(graph),
                *position,
                *piece_id,
                *inline_params,
                oks,
                *final(graph),
                views(old(errors)@),
                views(final(errors)@),
                *old(outcome),
                *final(outcome),
                old(chunks)@,
                final(chunks)@,
            ),
{
    let ghost g0 = *graph;
    let ghost e0 = views(errors@);
    if !ensure_in_bounds(errors, position, "node_place", graph) {
        assert(node_place_step(*registry, *check, g0, *position, *piece_id, *inline_params, seq![], *graph, e0, views(errors@), *outcome, *outcome, chunks@, chunks@));
        return ;
    }
    if graph.nodes.contains_key(position) {
        push_error(errors, invalid_op(Some(*position), text_with_cell("node already exists at ", position)));
        assert(node_place_step(*registry, *check, g0, *position, *piece_id, *inline_params, seq![], *graph, e0, views(errors@), *outcome, *outcome, chunks@, chunks@));
        return ;
    }
    let def = match registry.get(piece_id.as_str()) {
        Some(d) => d,
        None => {
            push_error(errors, invalid_op(Some(*position), quoted_name("unknown piece id '", piece_id.as_str())));
            assert(node_place_step(*registry, *check, g0, *position, *piece_id, *inline_params, seq![], *graph, e0, views(errors@), *outcome, *outcome, chunks@, chunks@));
            return ;
        },
    };
    let before = errors.len();
    let oks = check_inline_values(def, position, inline_params, check, errors);
    if errors.len() != before {
        proof {
            assert(views(errors@).len() == errors@.len());
            assert(views(old(errors)@).len() == before);
        }
        assert(node_place_step(*registry, *check, g0, *position, *piece_id, *inline_params, oks@, *graph, e0, views(errors@), *outcome, *outcome, chunks@, chunks@));
        return ;
    }
    proof {
        assert(views(errors@) =~= e0);
    }
    let node = Node {
        piece_id: piece_id.clone(),
        inline_params: clone_params(inline_params),
        input_sides: SortedMap::new(),
        output_side: None,
        label: None,
        node_state: None,
    };
    graph.nodes.insert(*position, node);
    proof {
        assert forall|q: GridPos| #[trigger] graph.nodes.as_map().contains_key(q) implies interior(q) by {
            if q != *position {
                assert(g0.nodes.as_map().contains_key(q));
            }
        }
    }
    push_applied(
        outcome,
        GraphOp::NodePlace {
            position: *position,
            piece_id: piece_id.clone(),
            inline_params: clone_params(inline_params),
        },
    );
    push_single(chunks, GraphOp::NodeRemove { position: *position });
    assert(node_place_step(*registry, *check, g0, *position, *piece_id, *inline_params, oks@, *graph, e0, views(errors@), *old(outcome), *outcome, old(chunks)@, chunks@));
}

/// Setting the inline value of parameter `id` of the node at `p` to `v`;
/// `ok` is the inline check's verdict and `same` what comparing `v` with
/// the value already there gave.
pub open spec fn param_set_inline_step<F: Fn(&str, &str, &serde_json::Value) -> bool>(
    reg: PieceRegistry,
    f: F,
    g0: Graph,
    p: GridPos,
    id: Seq<char>,
    v: serde_json::Value,
    ok: bool,
    same: bool,
    g1: Graph,
    e0: Seq<DiagnosticView>,
    e1: Seq<DiagnosticView>,
    o0: ApplyOpsOutcome,
    o1: ApplyOpsOutcome,
    c0: Seq<Vec<GraphOp>>,
    c1: Seq<Vec<GraphOp>>,
) -> bool {
    match node_piece_failure(reg, g0, "param_set_inline"@, p) {
        Some(e) => unchanged(g0, g1, o0, o1, c0, c1) && e1 == e0.push(e),
        None => {
            let def = piece_at(reg, g0, p);
            let n0 = g0.nodes.as_map()[p];
            let n1 = g1.nodes.as_map()[p];
            let values = n0.inline_params.as_map();
            match first_param(def, id) {
                None => unchanged(g0, g1, o0, o1, c0, c1) && e1 == e0.push(unknown_param_error(p, id)),
                Some(j) => if !schema_can_inline(def.params@[j].schema) {
                    unchanged(g0, g1, o0, o1, c0, c1) && e1 == e0.push(
                        op_error(Some(p), "inline value is not allowed for '"@ + id + "'"@),
                    )
                } else {
                    &&& inline_verdict(f, def.id@, id, v, ok)
                    &&& (values.contains_key(id) && values[id] == v ==> same)
                    &&& if !ok {
                        unchanged(g0, g1, o0, o1, c0, c1) && e1 == e0.push(
                            op_error(Some(p), "inline value has wrong type for '"@ + id + "'"@),
                        )
                    } else if values.contains_key(id) && same {
                        unchanged(g0, g1, o0, o1, c0, c1) && e1 == e0
                    } else {
                        &&& e1 == e0
                        &&& node_replaced(g0, g1, p)
                        &&& same_but_inline(n0, n1)
                        &&& n1.inline_params.as_map() == values.insert(id, v)
                        &&& one_applied(o0, o1, |op: GraphOp| is_param_set_inline(op, p, id, v))
                        &&& one_chunk(
                            c0,
                            c1,
                            |ops: Seq<GraphOp>|
                                single(
                                    ops,
                                    |op: GraphOp|
                                        if values.contains_key(id) {
                                            is_param_set_inline(op, p, id, values[id])
                                        } else {
                                            is_param_clear_inline(op, p, id)
                                        },
                                ),
                        )
                    }
                },
            }
        },
    }
}

fn param_set_inline<F: Fn(&str, &str, &serde_json::Value) -> bool>(
    graph: &mut Graph,
    registry: &PieceRegistry,
    check: &F,
    position: &GridPos,
    param_id: &String,
    value: &serde_json::Value,
    errors: &mut Vec<Diagnostic>,
    outcome: &mut ApplyOpsOutcome,
    chunks: &mut Vec<Vec<GraphOp>>,
)
    requires
        nodes_interior(*old(graph)),
        forall|a: &str, b: &str, v: &serde_json::Value| check.requires((a, b, v)),
    ensures
        nodes_interior(*final(graph)),
        exists|ok: bool, same: bool|
            param_set_inline_step(
                *registry,
                *check,
                *old(graph),
                *position,
                param_id@,
                *value,
                ok,
                same,
                *final(graph),
                views(old(errors)@),
                views(final(errors)@),
                *old(outcome),
                *final(outcome),
                old(chunks)@,
                final(chunks)@,
            ),
{
    let ghost g0 = *graph;
    let ghost e0 = views(errors@);
    let def = match check_node_piece(errors, position, "param_set_inline", graph, registry) {
        Some(d) => d,
        None => {
            assert(param_set_inline_step(*registry, *check, g0, *position, param_id@, *value, true, true, *graph, e0, views(errors@), *outcome, *outcome, chunks@, chunks@));
            return ;
        },
    };
    let param = match find_param(def, param_id.as_str()) {
        Some(q) => q,
        None => {
            push_error(errors, invalid_op(Some(*position), quoted_name("unknown param '", param_id.as_str())));
            assert(param_set_inline_step(*registry, *check, g0, *position, param_id@, *value, true, true, *graph, e0, views(errors@), *outcome, *outcome, chunks@, chunks@));
            return ;
        },
    };
    if !param.schema.can_inline() {
        push_error(errors, invalid_op(Some(*position), quoted_name("inline value is not allowed for '", param_id.as_str())));
        assert(param_set_inline_step(*registry, *check, g0, *position, param_id@, *value, true, true, *graph, e0, views(errors@), *outcome, *outcome, chunks@, chunks@));
        return ;
    }
    let ok = check(def.id.as_str(), param_id.as_str(), value);
    proof {
        assert(inline_verdict(*check, def.id@, param_id@, *value, ok));
    }
    let key = Name::new(param_id.as_str());
    let (same, previous) = match graph.nodes.get(position).unwrap().inline_params.get(&key) {
        Some(existing) => (json_eq(existing, value), Some(existing.clone())),
        None => (false, None),
    };
    if !ok {
        push_error(errors, invalid_op(Some(*position), quoted_name("inline value has wrong type for '", param_id.as_str())));
        assert(param_set_inline_step(*registry, *check, g0, *position, param_id@, *value, ok, same, *graph, e0, views(errors@), *outcome, *outcome, chunks@, chunks@));
        return ;
    }
    if same {
        assert(param_set_inline_step(*registry, *check, g0, *position, param_id@, *value, ok, same, *graph, e0, views(errors@), *outcome, *outcome, chunks@, chunks@));
        return ;
    }
    let mut node = take_node(graph, position);
    node.inline_params.insert(key, value.clone());
    put_node(graph, position, node, Ghost(g0));
    push_applied(
        outcome,
        GraphOp::ParamSetInline { position: *position, param_id: param_id.clone(), value: value.clone() },
    );
    match previous {
        Some(v) => push_single(chunks, GraphOp::ParamSetInline { position: *position, param_id: param_id.clone(), value: v }),
        None => push_single(chunks, GraphOp::ParamClearInline { position: *position, param_id: param_id.clone() }),
    }
    assert(param_set_inline_step(*registry, *check, g0, *position, param_id@, *value, ok, same, *graph, e0, views(errors@), *old(outcome), *outcome, old(chunks)@, chunks@));
}

// Connecting
// ---------------------------------------------------------------------------

/// The id a connection takes: the one given, else the fresh id `fresh`.
pub open spec fn connect_id(edge_id: Option<EdgeId>, fresh: u128) -> u128 {
    match edge_id {
        Some(e) => e@,
        None => fresh,
    }
}

/// The bounds errors of a connection, source first.
pub open spec fn connect_bounds_errors(g: Graph, from: GridPos, to: GridPos) -> Seq<DiagnosticView> {
    (if spec_in_bounds(g, from) {
        Seq::empty()
    } else {
        seq![bounds_error(g, "edge_connect source"@, from)]
    }) + (if spec_in_bounds(g, to) {
        Seq::empty()
    } else {
        seq![bounds_error(g, "edge_connect target"@, to)]
    })
}

/// The errors a connection records; none when it is made. A connection
/// that names its id restores an edge and skips the wiring rules.
pub open spec fn connect_errors(
    reg: PieceRegistry,
    g: Graph,
    edge_id: Option<EdgeId>,
    from: GridPos,
    to: GridPos,
    pid: Seq<char>,
    fresh: u128,
) -> Seq<DiagnosticView> {
    let b = connect_bounds_errors(g, from, to);
    if b.len() > 0 {
        b
    } else if !g.nodes.as_map().contains_key(from) {
        seq![op_error(Some(from), "missing source node at "@ + cell_text(from))]
    } else if !g.nodes.as_map().contains_key(to) {
        seq![op_error(Some(to), "missing target node at "@ + cell_text(to))]
    } else if trim_seq(pid).len() == 0 {
        seq![op_error(Some(to), "edge target param cannot be empty"@)]
    } else if edge_id is None && spec_validate_edge_connect(g, reg, from, to, pid) is Err {
        let probe = spec_validate_edge_connect(g, reg, from, to, pid)->Err_0;
        seq![
            op_error(
                Some(to),
                match probe.detail {
                    Some(d) => d,
                    None => "edge connection rejected"@,
                },
            ),
        ]
    } else if g.edges.as_map().contains_key(connect_id(edge_id, fresh)) {
        seq![op_error(Some(to), "edge id '"@ + uuid_text(connect_id(edge_id, fresh)) + "' already exists"@)]
    } else {
        Seq::empty()
    }
}

/// Connecting an edge from `from` into parameter `pid` of `to`, under the
/// given id or else the fresh id `fresh`.
pub open spec fn edge_connect_step(
    reg: PieceRegistry,
    g0: Graph,
    edge_id: Option<EdgeId>,
    from: GridPos,
    to: GridPos,
    pid: Seq<char>,
    fresh: u128,
    g1: Graph,
    e0: Seq<DiagnosticView>,
    e1: Seq<DiagnosticView>,
    o0: ApplyOpsOutcome,
    o1: ApplyOpsOutcome,
    c0: Seq<Vec<GraphOp>>,
    c1: Seq<Vec<GraphOp>>,
) -> bool {
    let errs = connect_errors(reg, g0, edge_id, from, to, pid, fresh);
    if errs.len() > 0 {
        unchanged(g0, g1, o0, o1, c0, c1) && e1 == e0 + errs
    } else {
        let id = connect_id(edge_id, fresh);
        let ev = EdgeView { id, from, to_node: to, to_param: pid };
        &&& e1 == e0
        &&& edges_become(g0, g1, g0.edges.as_map().insert(id, g1.edges.as_map()[id]))
        &&& g1.edges.as_map()[id]@ == ev
        &&& one_applied(o0, o1, |op: GraphOp| reconnects(op, ev))
        &&& one_chunk(c0, c1, |ops: Seq<GraphOp>| single(ops, |op: GraphOp| disconnects(op, id)))
    }
}

fn edge_connect(
    graph: &mut Graph,
    registry: &PieceRegistry,
    edge_id: &Option<EdgeId>,
    from: &GridPos,
    to_node: &GridPos,
    to_param: &String,
    errors: &mut Vec<Diagnostic>,
    outcome: &mut ApplyOpsOutcome,
    chunks: &mut Vec<Vec<GraphOp>>,
)
    requires
        nodes_interior(*old(graph)),
    ensures
        nodes_interior(*final(graph)),
        exists|fresh: u128|
            edge_connect_step(
                *registry,
                *old(graph),
                *edge_id,
                *from,
                *to_node,
                to_param@,
                fresh,
                *final(graph),
                views(old(errors)@),
                views(final(errors)@),
                *old(outcome),
                *final(outcome),
                old(chunks)@,
                final(chunks)@,
            ),
{
    let ghost g0 = *graph;
    let ghost e0 = views(errors@);
    let source_ok = ensure_in_bounds(errors, from, "edge_connect source", graph);
    let target_ok = ensure_in_bounds(errors, to_node, "edge_connect target", graph);
    if !(source_ok && target_ok) {
        proof {
            assert(views(errors@) =~= e0 + connect_bounds_errors(g0, *from, *to_node));
        }
        assert(edge_connect_step(*registry, g0, *edge_id, *from, *to_node, to_param@, 0, *graph, e0, views(errors@), *outcome, *outcome, chunks@, chunks@));
        return ;
    }
    assert(connect_bounds_errors(g0, *from, *to_node) =~= Seq::<DiagnosticView>::empty());
    if !graph.nodes.contains_key(from) {
        push_error(errors, invalid_op(Some(*from), text_with_cell("missing source node at ", from)));
        assert(views(errors@) =~= e0 + connect_errors(*registry, g0, *edge_id, *from, *to_node, to_param@, 0));
        assert(edge_connect_step(*registry, g0, *edge_id, *from, *to_node, to_param@, 0, *graph, e0, views(errors@), *outcome, *outcome, chunks@, chunks@));
        return ;
    }
    if !graph.nodes.contains_key(to_node) {
        push_error(errors, invalid_op(Some(*to_node), text_with_cell("missing target node at ", to_node)));
        assert(views(errors@) =~= e0 + connect_errors(*registry, g0, *edge_id, *from, *to_node, to_param@, 0));
        assert(edge_connect_step(*registry, g0, *edge_id, *from, *to_node, to_param@, 0, *graph, e0, views(errors@), *outcome, *outcome, chunks@, chunks@));
        return ;
    }
    let trimmed = trim_chars(&chars_of(to_param.as_str()));
    if trimmed.len() == 0 {
        push_error(errors, invalid_op(Some(*to_node), owned("edge target param cannot be empty")));
        assert(views(errors@) =~= e0 + connect_errors(*registry, g0, *edge_id, *from, *to_node, to_param@, 0));
        assert(edge_connect_step(*registry, g0, *edge_id, *from, *to_node, to_param@, 0, *graph, e0, views(errors@), *outcome, *outcome, chunks@, chunks@));
        return ;
    }
    if edge_id.is_none() {
        match validate_edge_connect(graph, registry, from, to_node, to_param.as_str()) {
            Ok(()) => {},
            Err(reject) => {
                let reason = match reject.detail {
                    Some(d) => d,
                    None => owned("edge connection rejected"),
                };
                push_error(errors, invalid_op(Some(*to_node), reason));
                assert(views(errors@) =~= e0 + connect_errors(*registry, g0, *edge_id, *from, *to_node, to_param@, 0));
                assert(edge_connect_step(*registry, g0, *edge_id, *from, *to_node, to_param@, 0, *graph, e0, views(errors@), *outcome, *outcome, chunks@, chunks@));
                return ;
            },
        }
    }
    let id = match edge_id {
        Some(e) => e.clone(),
        None => EdgeId::new(),
    };
    let ghost fresh = id@;
    if graph.edges.contains_key(&id) {
        let mut buf: Vec<char> = Vec::new();
        append_str(&mut buf, "edge id '");
        append_str(&mut buf, id.text().as_str());
        append_str(&mut buf, "' already exists");
        let reason = string_of_chars(buf.as_slice());
        proof {
            assert(reason@ =~= "edge id '"@ + uuid_text(id@) + "' already exists"@);
        }
        push_error(errors, invalid_op(Some(*to_node), reason));
        assert(views(errors@) =~= e0 + connect_errors(*registry, g0, *edge_id, *from, *to_node, to_param@, fresh));
        assert(edge_connect_step(*registry, g0, *edge_id, *from, *to_node, to_param@, fresh, *graph, e0, views(errors@), *outcome, *outcome, chunks@, chunks@));
        return ;
    }
    assert(connect_errors(*registry, g0, *edge_id, *from, *to_node, to_param@, fresh) =~= Seq::<DiagnosticView>::empty());
    let edge = Edge { id: id.clone(), from: *from, to_node: *to_node, to_param: to_param.clone() };
    graph.edges.insert(id.clone(), edge);
    push_applied(
        outcome,
        GraphOp::EdgeConnect { edge_id: Some(id.clone()), from: *from, to_node: *to_node, to_param: to_param.clone() },
    );
    push_single(chunks, GraphOp::EdgeDisconnect { edge_id: id });
    assert(edge_connect_step(*registry, g0, *edge_id, *from, *to_node, to_param@, fresh, *graph, e0, views(errors@), *old(outcome), *outcome, old(chunks)@, chunks@));
}

// Removing nodes
// ---------------------------------------------------------------------------

/// The edges that start or end at `p`.
pub open spec fn touching(p: GridPos) -> spec_fn(Edge) -> bool {
    |e: Edge| touches(e, p)
}

/// The ids, in id order, of the edges that start or end at `p`.
fn ids_touching(graph: &Graph, p: &GridPos) -> (r: Vec<EdgeId>)
    ensures
        ({
            let idx = doomed_indices(graph.edges.value_seq(), touching(*p), graph.edges.value_seq().len() as int);
            &&& r@.len() == idx.len()
            &&& forall|t: int| 0 <= t < idx.len() ==> #[trigger] r@[t]@ == graph.edges.key_seq()[idx[t]]
        }),
{
    let n = graph.edges.len();
    let ghost vs = graph.edges.value_seq();
    let ghost ks = graph.edges.key_seq();
    let mut ids: Vec<EdgeId> = Vec::new();
    let mut i: usize = 0;
    while i < n
        invariant
            n == ks.len(),
            ks.len() == vs.len(),
            ks == graph.edges.key_seq(),
            vs == graph.edges.value_seq(),
            i <= n,
            ids@.len() == doomed_indices(vs, touching(*p), i as int).len(),
            forall|t: int|
                0 <= t < ids@.len() ==> #[trigger] ids@[t]@ == ks[doomed_indices(vs, touching(*p), i as int)[t]],
        decreases n - i,
    {
        let e = graph.edges.value_at(i);
        if e.from == *p || e.to_node == *p {
            ids.push(graph.edges.key_at(i).clone());
        }
        i = i + 1;
    }
    ids
}

/// Removes the edges that satisfy `doomed`, given their ids in id order,
/// appending them in id order to `removed`.
fn drop_edges(
    graph: &mut Graph,
    ids: &Vec<EdgeId>,
    removed: &mut Vec<Edge>,
    Ghost(doomed): Ghost<spec_fn(Edge) -> bool>,
)
    requires
        ({
            let idx = doomed_indices(
                old(graph).edges.value_seq(),
                doomed,
                old(graph).edges.value_seq().len() as int,
            );
            &&& ids@.len() == idx.len()
            &&& forall|t: int| 0 <= t < idx.len() ==> #[trigger] ids@[t]@ == old(graph).edges.key_seq()[idx[t]]
        }),
    ensures
        final(graph).nodes == old(graph).nodes,
        final(graph).name == old(graph).name,
        final(graph).cols == old(graph).cols,
        final(graph).rows == old(graph).rows,
        final(graph).edges.as_map() == keep_edges(old(graph).edges.as_map(), doomed),
        final(removed)@ == old(removed)@ + old(graph).edges.value_seq().filter(doomed),
{
    let ghost vs = graph.edges.value_seq();
    let n = graph.edges.len();
    proof {
        lemma_doomed_indices(vs, doomed, n as int);
        assert(vs.take(n as int) =~= vs);
        graph.edges.lemma_keys_in_map();
    }
    remove_listed_edges(graph, ids, removed, Ghost(doomed), Ghost(doomed_indices(vs, doomed, n as int)));
}

/// The number of operations that put a node back.
pub open spec fn restore_len(n: Node) -> nat {
    1 + (if n.label is Some {
        1nat
    } else {
        0nat
    }) + (if n.node_state is Some {
        1nat
    } else {
        0nat
    }) + n.input_sides.key_seq().len() + (if n.output_side is Some {
        1nat
    } else {
        0nat
    })
}

/// `ops` put node `n` back at `p`: place it with its piece and inline
/// values, then set its label, its state, its parameter sides in key order
/// and its output side, each where it has one.
pub open spec fn restores_node(ops: Seq<GraphOp>, p: GridPos, n: Node) -> bool {
    let a: int = if n.label is Some {
        1
    } else {
        0
    };
    let b: int = if n.node_state is Some {
        1
    } else {
        0
    };
    let k: int = n.input_sides.key_seq().len() as int;
    &&& ops.len() == restore_len(n)
    &&& is_node_place(ops[0], p, n.piece_id, n.inline_params.as_map())
    &&& (n.label is Some ==> is_set_label(ops[1], p, n.label))
    &&& (n.node_state is Some ==> is_set_state(ops[1 + a], p, n.node_state))
    &&& forall|i: int|
        0 <= i < k ==> is_param_set_side(
            ops[1 + a + b + i],
            p,
            #[trigger] n.input_sides.key_seq()[i],
            n.input_sides.value_seq()[i],
        )
    &&& (n.output_side is Some ==> is_output_set_side(ops[1 + a + b + k], p, n.output_side->0))
}

/// `ops` connect `edges` again, in order, each under its own id.
pub open spec fn reconnects_all(ops: Seq<GraphOp>, edges: Seq<Edge>) -> bool {
    ops.len() == edges.len() && forall|j: int| 0 <= j < edges.len() ==> reconnects(#[trigger] ops[j], edges[j]@)
}

/// Appends the operations that put `node` back at `p`.
fn restore_node_ops(p: GridPos, node: Node, ops: &mut Vec<GraphOp>)
    ensures
        final(ops)@.len() == old(ops)@.len() + restore_len(node),
        final(ops)@.take(old(ops)@.len() as int) == old(ops)@,
        restores_node(final(ops)@.skip(old(ops)@.len() as int), p, node),
{
    let ghost n = node;
    let ghost start = ops@.len() as int;
    let _ = node.input_sides.len();
    let Node { piece_id, inline_params, input_sides, output_side, label, node_state } = node;
    ops.push(GraphOp::NodePlace { position: p, piece_id, inline_params });
    let ghost a: int = if n.label is Some {
        1
    } else {
        0
    };
    let ghost b: int = if n.node_state is Some {
        1
    } else {
        0
    };
    if label.is_some() {
        ops.push(GraphOp::NodeSetLabel { position: p, label });
    }
    if node_state.is_some() {
        ops.push(GraphOp::NodeSetState { position: p, state: node_state });
    }
    let k = input_sides.len();
    let mut i: usize = 0;
    while i < k
        invariant
            k == input_sides.key_seq().len(),
            k == input_sides.value_seq().len(),
            input_sides == n.input_sides,
            start == old(ops)@.len(),
            a == (if n.label is Some {
                1int
            } else {
                0int
            }),
            b == (if n.node_state is Some {
                1int
            } else {
                0int
            }),
            i <= k,
            ops@.len() == start + 1 + a + b + i,
            ops@.take(start) == old(ops)@,
            is_node_place(ops@[start], p, n.piece_id, n.inline_params.as_map()),
            n.label is Some ==> is_set_label(ops@[start + 1], p, n.label),
            n.node_state is Some ==> is_set_state(ops@[start + 1 + a], p, n.node_state),
            forall|j: int|
                0 <= j < i ==> is_param_set_side(
                    ops@[start + 1 + a + b + j],
                    p,
                    #[trigger] n.input_sides.key_seq()[j],
                    n.input_sides.value_seq()[j],
                ),
        decreases k - i,
    {
        let key = input_sides.key_at(i);
        let side = *input_sides.value_at(i);
        ops.push(GraphOp::ParamSetSide { position: p, param_id: key.0.clone(), side });
        proof {
            assert(ops@.take(start) =~= old(ops)@);
        }
        i = i + 1;
    }
    match output_side {
        Some(s) => {
            ops.push(GraphOp::OutputSetSide { position: p, side: s });
        },
        None => {},
    }
    proof {
        assert(ops@.take(start) =~= old(ops)@);
        let rest = ops@.skip(start);
        assert forall|j: int| 0 <= j < rest.len() implies rest[j] == ops@[start + j] by {}
        assert forall|j: int| 0 <= j < k implies is_param_set_side(
            rest[1 + a + b + j],
            p,
            #[trigger] n.input_sides.key_seq()[j],
            n.input_sides.value_seq()[j],
        ) by {
            assert(rest[1 + a + b + j] == ops@[start + 1 + a + b + j]);
        }
        assert(restores_node(rest, p, n));
    }
}

/// The operations that undo removing node `n` from `p` together with the
/// edges `gone`: put the node back, then connect the edges again.
pub open spec fn undoes_removal(ops: Seq<GraphOp>, p: GridPos, n: Node, gone: Seq<Edge>) -> bool {
    let r = restore_len(n) as int;
    &&& r <= ops.len()
    &&& restores_node(ops.take(r), p, n)
    &&& reconnects_all(ops.skip(r), gone)
}

/// Removing the node at `p` with the edges that touch it.
pub open spec fn node_remove_step(
    g0: Graph,
    p: GridPos,
    g1: Graph,
    e0: Seq<DiagnosticView>,
    e1: Seq<DiagnosticView>,
    o0: ApplyOpsOutcome,
    o1: ApplyOpsOutcome,
    c0: Seq<Vec<GraphOp>>,
    c1: Seq<Vec<GraphOp>>,
) -> bool {
    match node_failure(g0, "node_remove"@, p) {
        Some(e) => unchanged(g0, g1, o0, o1, c0, c1) && e1 == e0.push(e),
        None => {
            let n = g0.nodes.as_map()[p];
            let gone = g0.edges.value_seq().filter(touching(p));
            &&& e1 == e0
            &&& n.input_sides.keys_sorted()
            &&& n.input_sides.key_seq().len() == n.input_sides.value_seq().len()
            &&& g0.edges.keys_sorted()
            &&& g0.edges.key_seq().len() == g0.edges.value_seq().len()
            &&& g1.nodes.as_map() == g0.nodes.as_map().remove(p)
            &&& g1.edges.as_map() == keep_edges(g0.edges.as_map(), touching(p))
            &&& g1.name == g0.name
            &&& g1.cols == g0.cols
            &&& g1.rows == g0.rows
            &&& o1.removed_edges@ == o0.removed_edges@ + gone
            &&& o1.undo_ops == o0.undo_ops
            &&& o1.applied_ops@.len() == o0.applied_ops@.len() + 1
            &&& o1.applied_ops@.drop_last() == o0.applied_ops@
            &&& is_node_remove(o1.applied_ops@.last(), p)
            &&& one_chunk(c0, c1, |ops: Seq<GraphOp>| undoes_removal(ops, p, n, gone))
        },
    }
}

/// Appends clones of `edges` to `out`.
fn extend_edges(out: &mut Vec<Edge>, edges: &Vec<Edge>)
    ensures
        final(out)@ == old(out)@ + edges@,
{
    let mut j: usize = 0;
    while j < edges.len()
        invariant
            j <= edges@.len(),
            out@ == old(out)@ + edges@.take(j as int),
        decreases edges@.len() - j,
    {
        out.push(edges[j].clone());
        proof {
            assert(edges@.take(j + 1) =~= edges@.take(j as int).push(edges@[j as int]));
        }
        j = j + 1;
    }
    proof {
        assert(edges@.take(edges@.len() as int) =~= edges@);
    }
}

/// Appends the operations that connect `edges` again.
fn push_reconnects(ops: &mut Vec<GraphOp>, edges: &Vec<Edge>)
    ensures
        final(ops)@.len() == old(ops)@.len() + edges@.len(),
        final(ops)@.take(old(ops)@.len() as int) == old(ops)@,
        reconnects_all(final(ops)@.skip(old(ops)@.len() as int), edges@),
{
    let ghost start = ops@.len() as int;
    let mut j: usize = 0;
    while j < edges.len()
        invariant
            j <= edges@.len(),
            start == old(ops)@.len(),
            ops@.len() == start + j,
            ops@.take(start) == old(ops)@,
            forall|t: int| 0 <= t < j ==> reconnects(#[trigger] ops@[start + t], edges@[t]@),
        decreases edges@.len() - j,
    {
        ops.push(edge_connect_from(&edges[j]));
        proof {
            assert(ops@.take(start) =~= old(ops)@);
        }
        j = j + 1;
    }
    proof {
        let rest = ops@.skip(start);
        assert forall|t: int| 0 <= t < edges@.len() implies reconnects(#[trigger] rest[t], edges@[t]@) by {
            assert(rest[t] == ops@[start + t]);
        }
    }
}

fn node_remove(
    graph: &mut Graph,
    position: &GridPos,
    errors: &mut Vec<Diagnostic>,
    outcome: &mut ApplyOpsOutcome,
    chunks: &mut Vec<Vec<GraphOp>>,
)
    requires
        nodes_interior(*old(graph)),
    ensures
        nodes_interior(*final(graph)),
        node_remove_step(
            *old(graph),
            *position,
            *final(graph),
            views(old(errors)@),
            views(final(errors)@),
            *old(outcome),
            *final(outcome),
            old(chunks)@,
            final(chunks)@,
        ),
{
    if !check_node(errors, position, "node_remove", graph) {
        return ;
    }
    let _ = graph.edges.len();
    let ghost g0 = *graph;
    let node = take_node(graph, position);
    let _ = node.input_sides.len();
    let ids = ids_touching(graph, position);
    let mut gone: Vec<Edge> = Vec::new();
    drop_edges(graph, &ids, &mut gone, Ghost(touching(*position)));
    extend_edges(&mut outcome.removed_edges, &gone);
    let mut inverse: Vec<GraphOp> = Vec::new();
    restore_node_ops(*position, node, &mut inverse);
    let ghost r = inverse@.len() as int;
    push_reconnects(&mut inverse, &gone);
    proof {
        assert(inverse@.take(r) == inverse@.take(r).skip(0));
        assert(inverse@.take(r).skip(0) =~= inverse@.take(r));
    }
    chunks.push(inverse);
    push_applied(outcome, GraphOp::NodeRemove { position: *position });
    proof {
        assert(chunks@.drop_last() =~= old(chunks)@);
        assert forall|q: GridPos| #[trigger] graph.nodes.as_map().contains_key(q) implies interior(q) by {
            assert(g0.nodes.as_map().contains_key(q));
        }
    }
}

// Resizing
// ---------------------------------------------------------------------------

/// Cell `p` lies on a grid of `cols` by `rows`, the sizes read as `i32`.
pub open spec fn cell_on_grid(cols: u32, rows: u32, p: GridPos) -> bool {
    0 <= p.col < as_i32(cols) && 0 <= p.row < as_i32(rows)
}

/// The indices, among the first `n` items of `s`, of those satisfying `pred`.
pub open spec fn indices_where<A>(s: Seq<A>, pred: spec_fn(A) -> bool, n: int) -> Seq<int>
    decreases n,
{
    if n <= 0 {
        Seq::empty()
    } else if pred(s[n - 1]) {
        indices_where(s, pred, n - 1).push(n - 1)
    } else {
        indices_where(s, pred, n - 1)
    }
}

pub(crate) proof fn lemma_indices_where<A>(s: Seq<A>, pred: spec_fn(A) -> bool, n: int)
    requires
        0 <= n <= s.len(),
    ensures
        forall|t: int|
            0 <= t < indices_where(s, pred, n).len() ==> 0 <= #[trigger] indices_where(s, pred, n)[t] < n && pred(
                s[indices_where(s, pred, n)[t]],
            ),
        forall|a: int, b: int|
            0 <= a < b < indices_where(s, pred, n).len() ==> #[trigger] indices_where(s, pred, n)[a]
                < #[trigger] indices_where(s, pred, n)[b],
        forall|i: int| 0 <= i < n && pred(#[trigger] s[i]) ==> indices_where(s, pred, n).contains(i),
    decreases n,
{
    if n > 0 {
        lemma_indices_where(s, pred, n - 1);
        let prev = indices_where(s, pred, n - 1);
        if pred(s[n - 1]) {
            assert forall|i: int| 0 <= i < n && pred(#[trigger] s[i]) implies prev.push(n - 1).contains(i) by {
                if i < n - 1 {
                    let t = choose|t: int| 0 <= t < prev.len() && prev[t] == i;
                    assert(prev.push(n - 1)[t] == i);
                } else {
                    assert(prev.push(n - 1)[prev.len() as int] == i);
                }
            }
        }
    }
}

/// The cells off a `cols` by `rows` grid.
pub open spec fn off_grid(cols: u32, rows: u32) -> spec_fn(GridPos) -> bool {
    |p: GridPos| !cell_on_grid(cols, rows, p)
}

/// The nodes of `nodes` that stay on a `cols` by `rows` grid.
pub open spec fn kept_nodes(nodes: Map<GridPos, Node>, cols: u32, rows: u32) -> Map<GridPos, Node> {
    Map::new(|p: GridPos| nodes.contains_key(p) && cell_on_grid(cols, rows, p), |p: GridPos| nodes[p])
}

/// The edges that lose an end: a node gone or a cell off the grid.
pub open spec fn dangling(nodes: Map<GridPos, Node>, cols: u32, rows: u32) -> spec_fn(Edge) -> bool {
    |e: Edge|
        !(nodes.contains_key(e.from) && nodes.contains_key(e.to_node) && cell_on_grid(cols, rows, e.from)
            && cell_on_grid(cols, rows, e.to_node))
}

/// The number of operations that put the nodes `ns` back.
pub open spec fn restore_all_len(ns: Seq<Node>) -> nat
    decreases ns.len(),
{
    if ns.len() == 0 {
        0
    } else {
        restore_all_len(ns.drop_last()) + restore_len(ns.last())
    }
}

/// `ops` put the nodes `ns` back at the cells `ps`, one after the other.
pub open spec fn restores_nodes(ops: Seq<GraphOp>, ps: Seq<GridPos>, ns: Seq<Node>) -> bool
    decreases ns.len(),
{
    if ns.len() == 0 {
        ops.len() == 0
    } else {
        let k = restore_all_len(ns.drop_last()) as int;
        &&& ops.len() == k + restore_len(ns.last())
        &&& restores_nodes(ops.take(k), ps.drop_last(), ns.drop_last())
        &&& restores_node(ops.skip(k), ps.last(), ns.last())
    }
}

pub open spec fn is_resize(op: GraphOp, c: u32, r: u32) -> bool {
    op matches GraphOp::ResizeGrid { cols, rows } && cols == c && rows == r
}

/// The operations that undo a resize from `cols` by `rows` that dropped the
/// nodes `ns` at `ps` and the edges `gone`.
pub open spec fn undoes_resize(
    ops: Seq<GraphOp>,
    cols: u32,
    rows: u32,
    ps: Seq<GridPos>,
    ns: Seq<Node>,
    gone: Seq<Edge>,
) -> bool {
    let k = restore_all_len(ns) as int;
    &&& 1 + k <= ops.len()
    &&& is_resize(ops[0], cols, rows)
    &&& restores_nodes(ops.subrange(1, 1 + k), ps, ns)
    &&& reconnects_all(ops.skip(1 + k), gone)
}

/// The error for a grid without cells.
pub open spec fn empty_grid_error() -> DiagnosticView {
    op_error(None, "grid dimensions must be at least 1x1"@)
}

/// Resizing the grid to `cols` by `rows`: nodes off the new grid go, and so
/// do the edges that lose an end.
pub open spec fn resize_step(
    g0: Graph,
    cols: u32,
    rows: u32,
    g1: Graph,
    e0: Seq<DiagnosticView>,
    e1: Seq<DiagnosticView>,
    o0: ApplyOpsOutcome,
    o1: ApplyOpsOutcome,
    c0: Seq<Vec<GraphOp>>,
    c1: Seq<Vec<GraphOp>>,
) -> bool {
    if cols == 0 || rows == 0 {
        unchanged(g0, g1, o0, o1, c0, c1) && e1 == e0.push(empty_grid_error())
    } else if cols == g0.cols && rows == g0.rows {
        unchanged(g0, g1, o0, o1, c0, c1) && e1 == e0
    } else {
        let keys = g0.nodes.key_seq();
        let vals = g0.nodes.value_seq();
        let idx = indices_where(keys, off_grid(cols, rows), keys.len() as int);
        let ps = idx.map_values(|i: int| keys[i]);
        let ns = idx.map_values(|i: int| vals[i]);
        let kept = kept_nodes(g0.nodes.as_map(), cols, rows);
        let dead = dangling(kept, cols, rows);
        let gone = g0.edges.value_seq().filter(dead);
        &&& e1 == e0
        &&& g1.nodes.as_map() == kept
        &&& g1.edges.as_map() == keep_edges(g0.edges.as_map(), dead)
        &&& g1.name == g0.name
        &&& g1.cols == cols
        &&& g1.rows == rows
        &&& o1.removed_edges@ == o0.removed_edges@ + gone
        &&& o1.undo_ops == o0.undo_ops
        &&& o1.applied_ops@.len() == o0.applied_ops@.len() + 1
        &&& o1.applied_ops@.drop_last() == o0.applied_ops@
        &&& is_resize(o1.applied_ops@.last(), cols, rows)
        &&& one_chunk(c0, c1, |ops: Seq<GraphOp>| undoes_resize(ops, g0.cols, g0.rows, ps, ns, gone))
    }
}

/// The cells, in key order, of the nodes off the graph's grid.
fn cells_off_grid(graph: &Graph) -> (r: Vec<GridPos>)
    ensures
        ({
            let keys = graph.nodes.key_seq();
            r@ == indices_where(keys, off_grid(graph.cols, graph.rows), keys.len() as int).map_values(
                |i: int| keys[i],
            )
        }),
{
    let n = graph.nodes.len();
    let ghost keys = graph.nodes.key_seq();
    let ghost pred = off_grid(graph.cols, graph.rows);
    let mut out: Vec<GridPos> = Vec::new();
    let mut i: usize = 0;
    while i < n
        invariant
            n == keys.len(),
            keys == graph.nodes.key_seq(),
            pred == off_grid(graph.cols, graph.rows),
            i <= n,
            out@ == indices_where(keys, pred, i as int).map_values(|j: int| keys[j]),
        decreases n - i,
    {
        let p = *graph.nodes.key_at(i);
        if !graph.in_bounds(&p) {
            out.push(p);
        }
        proof {
            let prev = indices_where(keys, pred, i as int);
            if pred(keys[i as int]) {
                assert(prev.push(i as int).map_values(|j: int| keys[j]) =~= prev.map_values(|j: int| keys[j]).push(
                    keys[i as int],
                ));
            }
        }
        i = i + 1;
    }
    out
}

/// Takes the nodes at the cells `ps` out of the graph, in order; `idx` are
/// the indices of those cells among the graph's keys.
fn take_nodes(graph: &mut Graph, ps: &Vec<GridPos>, Ghost(idx): Ghost<Seq<int>>) -> (r: Vec<Node>)
    requires
        ps@.len() == idx.len(),
        forall|t: int|
            0 <= t < idx.len() ==> 0 <= #[trigger] idx[t] < old(graph).nodes.key_seq().len() && ps@[t]
                == old(graph).nodes.key_seq()[idx[t]],
        forall|a: int, b: int| 0 <= a < b < idx.len() ==> #[trigger] idx[a] < #[trigger] idx[b],
    ensures
        final(graph).nodes.as_map() == Map::new(
            |p: GridPos| old(graph).nodes.as_map().contains_key(p) && !ps@.contains(p),
            |p: GridPos| old(graph).nodes.as_map()[p],
        ),
        r@ == idx.map_values(|i: int| old(graph).nodes.value_seq()[i]),
        final(graph).edges == old(graph).edges,
        final(graph).name == old(graph).name,
        final(graph).cols == old(graph).cols,
        final(graph).rows == old(graph).rows,
{
    let _ = graph.nodes.len();
    proof {
        graph.nodes.lemma_keys_in_map();
    }
    let ghost m0 = graph.nodes.as_map();
    let ghost ks = graph.nodes.key_seq();
    let ghost vs = graph.nodes.value_seq();
    assert forall|i: int| 0 <= i < ks.len() implies m0.contains_key(#[trigger] ks[i]) && m0[ks[i]] == vs[i] by {
        graph.nodes.lemma_value_of_key(i);
    }
    let mut out: Vec<Node> = Vec::new();
    let mut t: usize = 0;
    while t < ps.len()
        invariant
            ps@.len() == idx.len(),
            0 <= t <= ps@.len(),
            forall|u: int| 0 <= u < idx.len() ==> 0 <= #[trigger] idx[u] < ks.len() && ps@[u] == ks[idx[u]],
            forall|a: int, b: int| 0 <= a < b < idx.len() ==> #[trigger] idx[a] < #[trigger] idx[b],
            ks.len() == vs.len(),
            forall|i: int, j: int| 0 <= i < j < ks.len() ==> grid_lt(#[trigger] ks[i], #[trigger] ks[j]),
            forall|i: int| 0 <= i < ks.len() ==> m0.contains_key(#[trigger] ks[i]) && m0[ks[i]] == vs[i],
            graph.edges == old(graph).edges,
            graph.name == old(graph).name,
            graph.cols == old(graph).cols,
            graph.rows == old(graph).rows,
            graph.nodes.as_map() == Map::new(
                |p: GridPos| m0.contains_key(p) && !ps@.take(t as int).contains(p),
                |p: GridPos| m0[p],
            ),
            out@ == idx.take(t as int).map_values(|i: int| vs[i]),
        decreases ps@.len() - t,
    {
        let ghost k = ps@[t as int];
        proof {
            assert(k == ks[idx[t as int]]);
            assert(!ps@.take(t as int).contains(k)) by {
                if ps@.take(t as int).contains(k) {
                    let u = choose|u: int| 0 <= u < t && ps@.take(t as int)[u] == k;
                    assert(ps@[u] == k);
                    assert(idx[u] < idx[t as int]);
                    assert(grid_lt(ks[idx[u]], ks[idx[t as int]]));
                }
            }
        }
        let node = graph.nodes.remove(&ps[t]).unwrap();
        out.push(node);
        proof {
            assert(idx.take(t + 1) =~= idx.take(t as int).push(idx[t as int]));
            assert(idx.take(t + 1).map_values(|i: int| vs[i]) =~= idx.take(t as int).map_values(|i: int| vs[i]).push(
                vs[idx[t as int]],
            ));
            assert(ps@.take(t + 1) =~= ps@.take(t as int).push(k));
            assert forall|p: GridPos| #[trigger] ps@.take(t + 1).contains(p) == (ps@.take(t as int).contains(p) || p
                == k) by {
                if ps@.take(t as int).contains(p) {
                    let u = choose|u: int| 0 <= u < t && ps@.take(t as int)[u] == p;
                    assert(ps@.take(t + 1)[u] == p);
                }
                if p == k {
                    assert(ps@.take(t + 1)[t as int] == p);
                }
                let pre = ps@.take(t + 1);
                if pre.contains(p) {
                    let u = choose|u: int| 0 <= u < pre.len() && #[trigger] pre[u] == p;
                    if u < t {
                        assert(ps@.take(t as int)[u] == p);
                    }
                }
            }
            assert(graph.nodes.as_map() =~= Map::new(
                |p: GridPos| m0.contains_key(p) && !ps@.take(t + 1).contains(p),
                |p: GridPos| m0[p],
            ));
        }
        t = t + 1;
    }
    proof {
        assert(idx.take(ps@.len() as int) =~= idx);
        assert(ps@.take(ps@.len() as int) =~= ps@);
    }
    out
}

/// The ids, in id order, of the edges that lose an end on the graph.
fn ids_dangling(graph: &Graph) -> (r: Vec<EdgeId>)
    ensures
        ({
            let dead = dangling(graph.nodes.as_map(), graph.cols, graph.rows);
            let idx = doomed_indices(graph.edges.value_seq(), dead, graph.edges.value_seq().len() as int);
            &&& r@.len() == idx.len()
            &&& forall|t: int| 0 <= t < idx.len() ==> #[trigger] r@[t]@ == graph.edges.key_seq()[idx[t]]
        }),
{
    let n = graph.edges.len();
    let ghost vs = graph.edges.value_seq();
    let ghost ks = graph.edges.key_seq();
    let ghost dead = dangling(graph.nodes.as_map(), graph.cols, graph.rows);
    let mut ids: Vec<EdgeId> = Vec::new();
    let mut i: usize = 0;
    while i < n
        invariant
            n == ks.len(),
            ks.len() == vs.len(),
            ks == graph.edges.key_seq(),
            vs == graph.edges.value_seq(),
            dead == dangling(graph.nodes.as_map(), graph.cols, graph.rows),
            i <= n,
            ids@.len() == doomed_indices(vs, dead, i as int).len(),
            forall|t: int| 0 <= t < ids@.len() ==> #[trigger] ids@[t]@ == ks[doomed_indices(vs, dead, i as int)[t]],
        decreases n - i,
    {
        let e = graph.edges.value_at(i);
        let alive = graph.nodes.contains_key(&e.from) && graph.nodes.contains_key(&e.to_node) && graph.in_bounds(
            &e.from,
        ) && graph.in_bounds(&e.to_node);
        if !alive {
            ids.push(graph.edges.key_at(i).clone());
        }
        i = i + 1;
    }
    ids
}

/// Appends the operations that put each node of `nodes` back at its cell.
fn push_restores(ops: &mut Vec<GraphOp>, ps: &Vec<GridPos>, nodes: Vec<Node>)
    requires
        ps@.len() == nodes@.len(),
    ensures
        final(ops)@.len() == old(ops)@.len() + restore_all_len(nodes@),
        final(ops)@.take(old(ops)@.len() as int) == old(ops)@,
        restores_nodes(final(ops)@.skip(old(ops)@.len() as int), ps@, nodes@),
{
    let ghost start = ops@.len() as int;
    let ghost all = nodes@;
    let mut rest = nodes;
    let mut t: usize = 0;
    while t < ps.len()
        invariant
            ps@.len() == all.len(),
            start == old(ops)@.len(),
            t <= ps@.len(),
            rest@ == all.skip(t as int),
            ops@.len() == start + restore_all_len(all.take(t as int)),
            ops@.take(start) == old(ops)@,
            restores_nodes(ops@.skip(start), ps@.take(t as int), all.take(t as int)),
        decreases ps@.len() - t,
    {
        let ghost before = ops@;
        proof {
            assert(rest@.len() == all.len() - t);
            assert(rest@[0] == all[t as int]);
        }
        let node = rest.remove(0);
        restore_node_ops(ps[t], node, ops);
        proof {
            assert(rest@ =~= all.skip(t + 1));
            let taken = all.take(t + 1);
            assert(taken.drop_last() =~= all.take(t as int));
            assert(taken.last() == all[t as int]);
            assert(ps@.take(t + 1).drop_last() =~= ps@.take(t as int));
            assert(ps@.take(t + 1).last() == ps@[t as int]);
            let k = restore_all_len(all.take(t as int)) as int;
            let seg = ops@.skip(start);
            assert(seg.take(k) =~= before.skip(start));
            assert(seg.skip(k) =~= ops@.skip(before.len() as int));
            assert(ops@.take(start) =~= old(ops)@);
        }
        t = t + 1;
    }
    proof {
        assert(all.take(ps@.len() as int) =~= all);
        assert(ps@.take(ps@.len() as int) =~= ps@);
    }
}

fn resize_grid(
    graph: &mut Graph,
    cols: u32,
    rows: u32,
    errors: &mut Vec<Diagnostic>,
    outcome: &mut ApplyOpsOutcome,
    chunks: &mut Vec<Vec<GraphOp>>,
)
    requires
        nodes_interior(*old(graph)),
    ensures
        nodes_interior(*final(graph)),
        resize_step(
            *old(graph),
            cols,
            rows,
            *final(graph),
            views(old(errors)@),
            views(final(errors)@),
            *old(outcome),
            *final(outcome),
            old(chunks)@,
            final(chunks)@,
        ),
{
    if cols == 0 || rows == 0 {
        push_error(errors, invalid_op(None, owned("grid dimensions must be at least 1x1")));
        return ;
    }
    let previous_cols = graph.cols;
    let previous_rows = graph.rows;
    if cols == previous_cols && rows == previous_rows {
        return ;
    }
    let ghost g0 = *graph;
    let ghost keys = g0.nodes.key_seq();
    let ghost idx = indices_where(keys, off_grid(cols, rows), keys.len() as int);
    graph.cols = cols;
    graph.rows = rows;
    let gone_cells = cells_off_grid(graph);
    proof {
        lemma_indices_where(keys, off_grid(cols, rows), keys.len() as int);
    }
    let removed_nodes = take_nodes(graph, &gone_cells, Ghost(idx));
    proof {
        g0.nodes.lemma_keys_in_map();
        assert forall|p: GridPos| #[trigger] graph.nodes.as_map().contains_key(p) == kept_nodes(
            g0.nodes.as_map(),
            cols,
            rows,
        ).contains_key(p) by {
            if g0.nodes.as_map().contains_key(p) {
                let i = choose|i: int| 0 <= i < keys.len() && keys[i] == p;
                if !cell_on_grid(cols, rows, p) {
                    assert(off_grid(cols, rows)(keys[i]));
                    assert(idx.contains(i));
                    let t = choose|t: int| 0 <= t < idx.len() && idx[t] == i;
                    assert(gone_cells@[t] == p);
                }
                if gone_cells@.contains(p) {
                    let t = choose|t: int| 0 <= t < gone_cells@.len() && gone_cells@[t] == p;
                    assert(off_grid(cols, rows)(keys[idx[t]]));
                }
            }
        }
        assert(graph.nodes.as_map() =~= kept_nodes(g0.nodes.as_map(), cols, rows));
    }
    let ids = ids_dangling(graph);
    let mut gone: Vec<Edge> = Vec::new();
    drop_edges(graph, &ids, &mut gone, Ghost(dangling(kept_nodes(g0.nodes.as_map(), cols, rows), cols, rows)));
    extend_edges(&mut outcome.removed_edges, &gone);
    let mut inverse: Vec<GraphOp> = Vec::new();
    inverse.push(GraphOp::ResizeGrid { cols: previous_cols, rows: previous_rows });
    let ghost ns = removed_nodes@;
    proof {
        let vals = g0.nodes.value_seq();
        assert(removed_nodes@ =~= idx.map_values(|i: int| vals[i]));
        assert(gone_cells@ =~= idx.map_values(|i: int| keys[i]));
    }
    let ghost first = inverse@;
    push_restores(&mut inverse, &gone_cells, removed_nodes);
    let ghost k = inverse@.len() as int;
    let ghost mid = inverse@;
    push_reconnects(&mut inverse, &gone);
    proof {
        assert(k == 1 + restore_all_len(ns));
        assert(inverse@.take(k) == mid);
        assert(mid.take(1) == first);
        assert(inverse@[0] == mid[0]);
        assert(mid[0] == first[0]);
        assert(is_resize(inverse@[0], g0.cols, g0.rows));
        assert(inverse@.subrange(1, k) =~= mid.skip(1));
        assert(restores_nodes(inverse@.subrange(1, k), gone_cells@, ns));
        assert(reconnects_all(inverse@.skip(k), gone@));
        assert(undoes_resize(inverse@, g0.cols, g0.rows, gone_cells@, ns, gone@));
    }
    chunks.push(inverse);
    push_applied(outcome, GraphOp::ResizeGrid { cols, rows });
    proof {
        assert(chunks@.drop_last() =~= old(chunks)@);
        assert forall|q: GridPos| #[trigger] graph.nodes.as_map().contains_key(q) implies interior(q) by {
            assert(g0.nodes.as_map().contains_key(q));
        }
    }
}

// Moving and swapping
// ---------------------------------------------------------------------------

/// Cell `p` after moving `a` to `b`, or after swapping them.
pub open spec fn rewrite_pos(p: GridPos, a: GridPos, b: GridPos, swap: bool) -> GridPos {
    if p == a {
        b
    } else if swap && p == b {
        a
    } else {
        p
    }
}

/// Edge `e` with its ends rewritten as `rewrite_pos` does.
pub open spec fn rewrite_edge(e: Edge, a: GridPos, b: GridPos, swap: bool) -> Edge {
    Edge { id: e.id, from: rewrite_pos(e.from, a, b, swap), to_node: rewrite_pos(e.to_node, a, b, swap), to_param: e.to_param }
}

/// Every edge of `m` with its ends rewritten.
pub open spec fn rewrite_edges(m: Map<u128, Edge>, a: GridPos, b: GridPos, swap: bool) -> Map<u128, Edge> {
    m.map_values(|e: Edge| rewrite_edge(e, a, b, swap))
}

fn rewrite_cell(p: GridPos, a: GridPos, b: GridPos, swap: bool) -> (r: GridPos)
    ensures
        r == rewrite_pos(p, a, b, swap),
{
    if p == a {
        b
    } else if swap && p == b {
        a
    } else {
        p
    }
}

/// Rewrites the ends of every edge of the graph.
fn rewrite_edge_ends(graph: &mut Graph, a: GridPos, b: GridPos, swap: bool)
    ensures
        final(graph).nodes == old(graph).nodes,
        final(graph).name == old(graph).name,
        final(graph).cols == old(graph).cols,
        final(graph).rows == old(graph).rows,
        final(graph).edges.as_map() == rewrite_edges(old(graph).edges.as_map(), a, b, swap),
{
    let n = graph.edges.len();
    let ghost ks = graph.edges.key_seq();
    let ghost vs = graph.edges.value_seq();
    let ghost m0 = graph.edges.as_map();
    proof {
        graph.edges.lemma_keys_in_map();
    }
    let mut i: usize = 0;
    while i < n
        invariant
            n == ks.len(),
            ks.len() == vs.len(),
            graph.edges.key_seq() == ks,
            graph.edges.value_seq().len() == n,
            i <= n,
            forall|j: int| 0 <= j < i ==> #[trigger] graph.edges.value_seq()[j] == rewrite_edge(vs[j], a, b, swap),
            forall|j: int| i <= j < n ==> #[trigger] graph.edges.value_seq()[j] == vs[j],
            graph.nodes == old(graph).nodes,
            graph.name == old(graph).name,
            graph.cols == old(graph).cols,
            graph.rows == old(graph).rows,
        decreases n - i,
    {
        let e = graph.edges.value_at(i);
        let moved = Edge {
            id: e.id.clone(),
            from: rewrite_cell(e.from, a, b, swap),
            to_node: rewrite_cell(e.to_node, a, b, swap),
            to_param: e.to_param.clone(),
        };
        graph.edges.set_value_at(i, moved);
        i = i + 1;
    }
    let _ = graph.edges.len();
    proof {
        graph.edges.lemma_keys_in_map();
        let m1 = graph.edges.as_map();
        assert forall|k: u128| #[trigger] m1.contains_key(k) == m0.contains_key(k) by {
            if m1.contains_key(k) {
                let j = choose|j: int| 0 <= j < ks.len() && ks[j] == k;
            }
            if m0.contains_key(k) {
                let j = choose|j: int| 0 <= j < ks.len() && ks[j] == k;
            }
        }
        assert forall|k: u128| #[trigger] m1.contains_key(k) implies m1[k] == rewrite_edge(m0[k], a, b, swap) by {
            let j = choose|j: int| 0 <= j < ks.len() && ks[j] == k;
            graph.edges.lemma_value_of_key(j);
            old(graph).edges.lemma_value_of_key(j);
        }
        assert(m1 =~= rewrite_edges(m0, a, b, swap));
    }
}

/// `ops` connect `edges` again with their ends rewritten, in order.
pub open spec fn reconnects_rewritten(ops: Seq<GraphOp>, edges: Seq<Edge>, a: GridPos, b: GridPos, swap: bool) -> bool {
    &&& ops.len() == edges.len()
    &&& forall|j: int| 0 <= j < edges.len() ==> reconnects(#[trigger] ops[j], rewrite_edge(edges[j], a, b, swap)@)
}

/// Appends the operations that connect `edges` again with their ends
/// rewritten.
fn push_rewritten_reconnects(ops: &mut Vec<GraphOp>, edges: &Vec<Edge>, a: GridPos, b: GridPos, swap: bool)
    ensures
        final(ops)@.len() == old(ops)@.len() + edges@.len(),
        final(ops)@.take(old(ops)@.len() as int) == old(ops)@,
        reconnects_rewritten(final(ops)@.skip(old(ops)@.len() as int), edges@, a, b, swap),
{
    let ghost start = ops@.len() as int;
    let mut j: usize = 0;
    while j < edges.len()
        invariant
            j <= edges@.len(),
            start == old(ops)@.len(),
            ops@.len() == start + j,
            ops@.take(start) == old(ops)@,
            forall|t: int|
                0 <= t < j ==> reconnects(#[trigger] ops@[start + t], rewrite_edge(edges@[t], a, b, swap)@),
        decreases edges@.len() - j,
    {
        let e = &edges[j];
        let restored = Edge {
            id: e.id.clone(),
            from: rewrite_cell(e.from, a, b, swap),
            to_node: rewrite_cell(e.to_node, a, b, swap),
            to_param: e.to_param.clone(),
        };
        ops.push(edge_connect_from(&restored));
        proof {
            assert(ops@.take(start) =~= old(ops)@);
        }
        j = j + 1;
    }
    proof {
        let rest = ops@.skip(start);
        assert forall|t: int| 0 <= t < edges@.len() implies reconnects(
            #[trigger] rest[t],
            rewrite_edge(edges@[t], a, b, swap)@,
        ) by {
            assert(rest[t] == ops@[start + t]);
        }
    }
}

pub open spec fn is_node_move(op: GraphOp, a: GridPos, b: GridPos) -> bool {
    op matches GraphOp::NodeMove { from, to } && from == a && to == b
}

pub open spec fn is_node_swap(op: GraphOp, a: GridPos, b: GridPos) -> bool {
    op matches GraphOp::NodeSwap { a: x, b: y } && x == a && y == b
}

/// A cell on the grid has neighbours inside the `i32` range.
proof fn lemma_in_bounds_interior(g: Graph, p: GridPos)
    requires
        spec_in_bounds(g, p),
    ensures
        interior(p),
{
}

/// Moving the node at `from` to the empty cell `to`: edges follow it, and
/// those of its edges that no longer come from the right neighbour go.
/// `gm` is the graph just after the move, before that pruning.
pub open spec fn node_move_step(
    reg: PieceRegistry,
    g0: Graph,
    from: GridPos,
    to: GridPos,
    gm: Graph,
    g1: Graph,
    e0: Seq<DiagnosticView>,
    e1: Seq<DiagnosticView>,
    o0: ApplyOpsOutcome,
    o1: ApplyOpsOutcome,
    c0: Seq<Vec<GraphOp>>,
    c1: Seq<Vec<GraphOp>>,
) -> bool {
    if from == to {
        unchanged(g0, g1, o0, o1, c0, c1) && e1 == e0
    } else if !spec_in_bounds(g0, from) {
        unchanged(g0, g1, o0, o1, c0, c1) && e1 == e0.push(bounds_error(g0, "node_move source"@, from))
    } else if !spec_in_bounds(g0, to) {
        unchanged(g0, g1, o0, o1, c0, c1) && e1 == e0.push(bounds_error(g0, "node_move target"@, to))
    } else if g0.nodes.as_map().contains_key(to) {
        unchanged(g0, g1, o0, o1, c0, c1) && e1 == e0.push(
            op_error(Some(to), "target cell already occupied at "@ + cell_text(to)),
        )
    } else if !g0.nodes.as_map().contains_key(from) {
        unchanged(g0, g1, o0, o1, c0, c1) && e1 == e0.push(op_error(Some(from), "missing source node at "@ + cell_text(from)))
    } else {
        let stale = stale_after_move(gm, reg, to);
        let gone = gm.edges.value_seq().filter(stale);
        &&& e1 == e0
        &&& gm.nodes.as_map() == g0.nodes.as_map().remove(from).insert(to, g0.nodes.as_map()[from])
        &&& gm.edges.as_map() == rewrite_edges(g0.edges.as_map(), from, to, false)
        &&& gm.edges.keys_sorted()
        &&& gm.edges.key_seq().len() == gm.edges.value_seq().len()
        &&& g1.nodes.as_map() == gm.nodes.as_map()
        &&& g1.edges.as_map() == keep_edges(gm.edges.as_map(), stale)
        &&& g1.name == g0.name
        &&& g1.cols == g0.cols
        &&& g1.rows == g0.rows
        &&& o1.removed_edges@ == o0.removed_edges@ + gone
        &&& o1.undo_ops == o0.undo_ops
        &&& o1.applied_ops@.len() == o0.applied_ops@.len() + 1
        &&& o1.applied_ops@.drop_last() == o0.applied_ops@
        &&& is_node_move(o1.applied_ops@.last(), from, to)
        &&& one_chunk(
            c0,
            c1,
            |ops: Seq<GraphOp>|
                ops.len() >= 1 && is_node_move(ops[0], to, from) && reconnects_rewritten(ops.skip(1), gone, to, from, false),
        )
    }
}

fn node_move(
    graph: &mut Graph,
    registry: &PieceRegistry,
    from: &GridPos,
    to: &GridPos,
    errors: &mut Vec<Diagnostic>,
    outcome: &mut ApplyOpsOutcome,
    chunks: &mut Vec<Vec<GraphOp>>,
)
    requires
        nodes_interior(*old(graph)),
    ensures
        nodes_interior(*final(graph)),
        exists|gm: Graph|
            node_move_step(
                *registry,
                *old(graph),
                *from,
                *to,
                gm,
                *final(graph),
                views(old(errors)@),
                views(final(errors)@),
                *old(outcome),
                *final(outcome),
                old(chunks)@,
                final(chunks)@,
            ),
{
    let ghost g0 = *graph;
    let ghost e0 = views(errors@);
    if *from == *to {
        assert(node_move_step(*registry, g0, *from, *to, g0, *graph, e0, views(errors@), *outcome, *outcome, chunks@, chunks@));
        return ;
    }
    if !ensure_in_bounds(errors, from, "node_move source", graph) {
        assert(node_move_step(*registry, g0, *from, *to, g0, *graph, e0, views(errors@), *outcome, *outcome, chunks@, chunks@));
        return ;
    }
    if !ensure_in_bounds(errors, to, "node_move target", graph) {
        assert(node_move_step(*registry, g0, *from, *to, g0, *graph, e0, views(errors@), *outcome, *outcome, chunks@, chunks@));
        return ;
    }
    if graph.nodes.contains_key(to) {
        push_error(errors, invalid_op(Some(*to), text_with_cell("target cell already occupied at ", to)));
        assert(node_move_step(*registry, g0, *from, *to, g0, *graph, e0, views(errors@), *outcome, *outcome, chunks@, chunks@));
        return ;
    }
    if !graph.nodes.contains_key(from) {
        push_error(errors, invalid_op(Some(*from), text_with_cell("missing source node at ", from)));
        assert(node_move_step(*registry, g0, *from, *to, g0, *graph, e0, views(errors@), *outcome, *outcome, chunks@, chunks@));
        return ;
    }
    let node = take_node(graph, from);
    graph.nodes.insert(*to, node);
    rewrite_edge_ends(graph, *from, *to, false);
    let _ = graph.edges.len();
    let ghost gm = *graph;
    proof {
        lemma_in_bounds_interior(g0, *to);
        assert forall|q: GridPos| #[trigger] graph.nodes.as_map().contains_key(q) implies interior(q) by {
            if q != *to {
                assert(g0.nodes.as_map().contains_key(q));
            }
        }
    }
    let mut gone: Vec<Edge> = Vec::new();
    prune_invalid_edges_for_node(graph, registry, to, &mut gone);
    extend_edges(&mut outcome.removed_edges, &gone);
    let mut inverse: Vec<GraphOp> = Vec::new();
    inverse.push(GraphOp::NodeMove { from: *to, to: *from });
    let ghost first = inverse@;
    push_rewritten_reconnects(&mut inverse, &gone, *to, *from, false);
    proof {
        assert(inverse@[0] == first[0]);
    }
    chunks.push(inverse);
    push_applied(outcome, GraphOp::NodeMove { from: *from, to: *to });
    proof {
        assert(chunks@.drop_last() =~= old(chunks)@);
    }
    assert(node_move_step(*registry, g0, *from, *to, gm, *graph, e0, views(errors@), *old(outcome), *outcome, old(chunks)@, chunks@));
}

/// Swapping the nodes at `a` and `b`: edges follow them, and the edges of
/// each that no longer come from the right neighbour go, those of `a`
/// first. `gm` is the graph just after the swap and `gp` the graph after
/// pruning at `a`.
pub open spec fn node_swap_step(
    reg: PieceRegistry,
    g0: Graph,
    a: GridPos,
    b: GridPos,
    gm: Graph,
    gp: Graph,
    g1: Graph,
    e0: Seq<DiagnosticView>,
    e1: Seq<DiagnosticView>,
    o0: ApplyOpsOutcome,
    o1: ApplyOpsOutcome,
    c0: Seq<Vec<GraphOp>>,
    c1: Seq<Vec<GraphOp>>,
) -> bool {
    if a == b {
        unchanged(g0, g1, o0, o1, c0, c1) && e1 == e0
    } else if !spec_in_bounds(g0, a) {
        unchanged(g0, g1, o0, o1, c0, c1) && e1 == e0.push(bounds_error(g0, "node_swap position a"@, a))
    } else if !spec_in_bounds(g0, b) {
        unchanged(g0, g1, o0, o1, c0, c1) && e1 == e0.push(bounds_error(g0, "node_swap position b"@, b))
    } else if !g0.nodes.as_map().contains_key(a) {
        unchanged(g0, g1, o0, o1, c0, c1) && e1 == e0.push(missing_node_error(a))
    } else if !g0.nodes.as_map().contains_key(b) {
        unchanged(g0, g1, o0, o1, c0, c1) && e1 == e0.push(missing_node_error(b))
    } else {
        let stale_a = stale_after_move(gm, reg, a);
        let stale_b = stale_after_move(gp, reg, b);
        let gone = gm.edges.value_seq().filter(stale_a) + gp.edges.value_seq().filter(stale_b);
        &&& e1 == e0
        &&& gm.nodes.as_map() == g0.nodes.as_map().insert(a, g0.nodes.as_map()[b]).insert(b, g0.nodes.as_map()[a])
        &&& gm.edges.as_map() == rewrite_edges(g0.edges.as_map(), a, b, true)
        &&& gm.edges.keys_sorted()
        &&& gm.edges.key_seq().len() == gm.edges.value_seq().len()
        &&& gp.edges.keys_sorted()
        &&& gp.edges.key_seq().len() == gp.edges.value_seq().len()
        &&& gp.nodes == gm.nodes
        &&& gp.edges.as_map() == keep_edges(gm.edges.as_map(), stale_a)
        &&& g1.nodes == gp.nodes
        &&& g1.edges.as_map() == keep_edges(gp.edges.as_map(), stale_b)
        &&& g1.name == g0.name
        &&& g1.cols == g0.cols
        &&& g1.rows == g0.rows
        &&& o1.removed_edges@ == o0.removed_edges@ + gone
        &&& o1.undo_ops == o0.undo_ops
        &&& o1.applied_ops@.len() == o0.applied_ops@.len() + 1
        &&& o1.applied_ops@.drop_last() == o0.applied_ops@
        &&& is_node_swap(o1.applied_ops@.last(), a, b)
        &&& one_chunk(
            c0,
            c1,
            |ops: Seq<GraphOp>|
                ops.len() >= 1 && is_node_swap(ops[0], a, b) && reconnects_rewritten(ops.skip(1), gone, a, b, true),
        )
    }
}

fn node_swap(
    graph: &mut Graph,
    registry: &PieceRegistry,
    a: &GridPos,
    b: &GridPos,
    errors: &mut Vec<Diagnostic>,
    outcome: &mut ApplyOpsOutcome,
    chunks: &mut Vec<Vec<GraphOp>>,
)
    requires
        nodes_interior(*old(graph)),
    ensures
        nodes_interior(*final(graph)),
        exists|gm: Graph, gp: Graph|
            node_swap_step(
                *registry,
                *old(graph),
                *a,
                *b,
                gm,
                gp,
                *final(graph),
                views(old(errors)@),
                views(final(errors)@),
                *old(outcome),
                *final(outcome),
                old(chunks)@,
                final(chunks)@,
            ),
{
    let ghost g0 = *graph;
    let ghost e0 = views(errors@);
    if *a == *b {
        assert(node_swap_step(*registry, g0, *a, *b, g0, g0, *graph, e0, views(errors@), *outcome, *outcome, chunks@, chunks@));
        return ;
    }
    if !ensure_in_bounds(errors, a, "node_swap position a", graph) {
        assert(node_swap_step(*registry, g0, *a, *b, g0, g0, *graph, e0, views(errors@), *outcome, *outcome, chunks@, chunks@));
        return ;
    }
    if !ensure_in_bounds(errors, b, "node_swap position b", graph) {
        assert(node_swap_step(*registry, g0, *a, *b, g0, g0, *graph, e0, views(errors@), *outcome, *outcome, chunks@, chunks@));
        return ;
    }
    if !graph.nodes.contains_key(a) {
        push_error(errors, invalid_op(Some(*a), text_with_cell("missing node at ", a)));
        assert(node_swap_step(*registry, g0, *a, *b, g0, g0, *graph, e0, views(errors@), *outcome, *outcome, chunks@, chunks@));
        return ;
    }
    if !graph.nodes.contains_key(b) {
        push_error(errors, invalid_op(Some(*b), text_with_cell("missing node at ", b)));
        assert(node_swap_step(*registry, g0, *a, *b, g0, g0, *graph, e0, views(errors@), *outcome, *outcome, chunks@, chunks@));
        return ;
    }
    let node_a = take_node(graph, a);
    let node_b = graph.nodes.remove(b).unwrap();
    graph.nodes.insert(*a, node_b);
    graph.nodes.insert(*b, node_a);
    rewrite_edge_ends(graph, *a, *b, true);
    let _ = graph.edges.len();
    let ghost gm = *graph;
    proof {
        assert(graph.nodes.as_map() =~= g0.nodes.as_map().insert(*a, g0.nodes.as_map()[*b]).insert(
            *b,
            g0.nodes.as_map()[*a],
        ));
        assert forall|q: GridPos| #[trigger] graph.nodes.as_map().contains_key(q) implies interior(q) by {
            assert(g0.nodes.as_map().contains_key(q));
        }
    }
    let mut gone: Vec<Edge> = Vec::new();
    prune_invalid_edges_for_node(graph, registry, a, &mut gone);
    let _ = graph.edges.len();
    let ghost gp = *graph;
    prune_invalid_edges_for_node(graph, registry, b, &mut gone);
    extend_edges(&mut outcome.removed_edges, &gone);
    let mut inverse: Vec<GraphOp> = Vec::new();
    inverse.push(GraphOp::NodeSwap { a: *a, b: *b });
    let ghost first = inverse@;
    push_rewritten_reconnects(&mut inverse, &gone, *a, *b, true);
    proof {
        assert(inverse@[0] == first[0]);
    }
    chunks.push(inverse);
    push_applied(outcome, GraphOp::NodeSwap { a: *a, b: *b });
    proof {
        assert(chunks@.drop_last() =~= old(chunks)@);
        assert(gone@ =~= gm.edges.value_seq().filter(stale_after_move(gm, *registry, *a)) + gp.edges.value_seq().filter(
            stale_after_move(gp, *registry, *b),
        ));
    }
    assert(node_swap_step(*registry, g0, *a, *b, gm, gp, *graph, e0, views(errors@), *old(outcome), *outcome, old(chunks)@, chunks@));
}

// Runs of operations
// ---------------------------------------------------------------------------

/// The state a run of operations has reached: the graph, the errors so
/// far, the outcome so far and the undo chunks so far.
pub struct RunState {
    pub graph: Graph,
    pub errors: Seq<DiagnosticView>,
    pub outcome: ApplyOpsOutcome,
    pub chunks: Seq<Vec<GraphOp>>,
}

/// The run state made of these parts.
pub open spec fn run_state(
    graph: Graph,
    errors: Seq<Diagnostic>,
    outcome: ApplyOpsOutcome,
    chunks: Seq<Vec<GraphOp>>,
) -> RunState {
    RunState { graph, errors: views(errors), outcome, chunks }
}

/// Only the error list grew, by `added`.
pub open spec fn errors_only(s0: RunState, s1: RunState, added: Seq<DiagnosticView>) -> bool {
    s1.graph == s0.graph && s1.outcome == s0.outcome && s1.chunks == s0.chunks && s1.errors == s0.errors + added
}

// Wiring
// ---------------------------------------------------------------------------

/// Wiring the node at `p` to its neighbours, new edges taking the ids `ids`.
pub open spec fn wire_step(reg: PieceRegistry, s0: RunState, p: GridPos, ids: Seq<u128>, s1: RunState) -> bool {
    &&& s1.errors == s0.errors
    &&& s1.graph.nodes == s0.graph.nodes
    &&& s1.graph.name == s0.graph.name
    &&& s1.graph.cols == s0.graph.cols
    &&& s1.graph.rows == s0.graph.rows
    &&& auto_wired(s0.graph, reg, p, ids, s1.graph.edges.as_map(), s0.outcome, s1.outcome, s0.chunks, s1.chunks)
}

/// The wiring operation on the node at `p`.
pub open spec fn node_auto_wire_step(reg: PieceRegistry, s0: RunState, p: GridPos, ids: Seq<u128>, s1: RunState) -> bool {
    match node_failure(s0.graph, "node_auto_wire"@, p) {
        Some(e) => errors_only(s0, s1, seq![e]),
        None => wire_step(reg, s0, p, ids, s1),
    }
}

fn node_auto_wire(
    graph: &mut Graph,
    registry: &PieceRegistry,
    position: &GridPos,
    errors: &mut Vec<Diagnostic>,
    outcome: &mut ApplyOpsOutcome,
    chunks: &mut Vec<Vec<GraphOp>>,
)
    requires
        nodes_interior(*old(graph)),
    ensures
        nodes_interior(*final(graph)),
        exists|ids: Seq<u128>|
            node_auto_wire_step(
                *registry,
                run_state(*old(graph), old(errors)@, *old(outcome), old(chunks)@),
                *position,
                ids,
                run_state(*final(graph), final(errors)@, *final(outcome), final(chunks)@),
            ),
{
    let ghost s0 = run_state(*graph, errors@, *outcome, chunks@);
    if !check_node(errors, position, "node_auto_wire", graph) {
        assert(views(errors@) =~= s0.errors + seq![node_failure(s0.graph, "node_auto_wire"@, *position)->0]);
        assert(node_auto_wire_step(*registry, s0, *position, seq![], run_state(*graph, errors@, *outcome, chunks@)));
        return ;
    }
    auto_wire_node(graph, registry, position, outcome, chunks);
    proof {
        let ids = choose|ids: Seq<u128>|
            auto_wired(s0.graph, *registry, *position, ids, graph.edges.as_map(), s0.outcome, *outcome, s0.chunks, chunks@);
        assert(node_auto_wire_step(*registry, s0, *position, ids, run_state(*graph, errors@, *outcome, chunks@)));
    }
}

// Placing several nodes
// ---------------------------------------------------------------------------

/// The error for a cell that already holds a node.
pub open spec fn occupied_error(p: GridPos) -> DiagnosticView {
    op_error(Some(p), "node already exists at "@ + cell_text(p))
}

/// The error for a piece id the registry lacks.
pub open spec fn unknown_piece_id_error(p: GridPos, id: Seq<char>) -> DiagnosticView {
    op_error(Some(p), "unknown piece id '"@ + id + "'"@)
}

/// The errors for the first `n` side keys that name no parameter of `def`.
pub open spec fn side_errors(def: PieceDef, p: GridPos, keys: Seq<Seq<char>>, n: nat) -> Seq<DiagnosticView>
    decreases n,
{
    if n == 0 {
        Seq::empty()
    } else {
        let prev = side_errors(def, p, keys, (n - 1) as nat);
        if first_param(def, keys[n - 1]) is None {
            prev.push(unknown_param_error(p, keys[n - 1]))
        } else {
            prev
        }
    }
}

/// An earlier entry of the batch takes cell `p`.
pub open spec fn taken_by(earlier: Seq<BatchPlaceEntry>, p: GridPos) -> bool {
    exists|j: int| 0 <= j < earlier.len() && #[trigger] earlier[j].position == p
}

/// The entry gets as far as its inline values: its cell is on the grid and
/// free, and its piece is registered.
pub open spec fn entry_reaches_values(
    reg: PieceRegistry,
    g: Graph,
    earlier: Seq<BatchPlaceEntry>,
    e: BatchPlaceEntry,
) -> bool {
    spec_in_bounds(g, e.position) && !g.nodes.as_map().contains_key(e.position) && !taken_by(earlier, e.position)
        && reg.defs().contains_key(e.piece_id@)
}

/// The errors of batch entry `e` after the entries `earlier`, given the
/// inline check's verdicts `oks`.
pub open spec fn entry_errors(
    reg: PieceRegistry,
    g: Graph,
    earlier: Seq<BatchPlaceEntry>,
    e: BatchPlaceEntry,
    oks: Seq<bool>,
) -> Seq<DiagnosticView> {
    let p = e.position;
    if !spec_in_bounds(g, p) {
        seq![bounds_error(g, "node_batch_place"@, p)]
    } else if g.nodes.as_map().contains_key(p) || taken_by(earlier, p) {
        seq![occupied_error(p)]
    } else if !reg.defs().contains_key(e.piece_id@) {
        seq![unknown_piece_id_error(p, e.piece_id@)]
    } else {
        let def = reg.defs()[e.piece_id@];
        inline_errors(def, p, e.inline_params.key_seq(), oks, e.inline_params.key_seq().len()) + side_errors(
            def,
            p,
            e.input_sides.key_seq(),
            e.input_sides.key_seq().len(),
        ) + (if e.output_side is Some && def.output_type is None {
            seq![terminal_output_error(p)]
        } else {
            Seq::empty()
        })
    }
}

/// `oks` are the inline check's verdicts on entry `e`'s values, where the
/// entry gets that far.
pub open spec fn entry_verdicts<F: Fn(&str, &str, &serde_json::Value) -> bool>(
    f: F,
    reg: PieceRegistry,
    g: Graph,
    earlier: Seq<BatchPlaceEntry>,
    e: BatchPlaceEntry,
    oks: Seq<bool>,
) -> bool {
    entry_reaches_values(reg, g, earlier, e) ==> {
        &&& oks.len() == e.inline_params.key_seq().len()
        &&& forall|k: int|
            0 <= k < oks.len() ==> verdict_for(
                f,
                reg.defs()[e.piece_id@],
                e.inline_params.key_seq()[k],
                e.inline_params.value_seq()[k],
                #[trigger] oks[k],
            )
    }
}

/// The errors of the first `n` entries of a batch.
pub open spec fn batch_errors(
    reg: PieceRegistry,
    g: Graph,
    entries: Seq<BatchPlaceEntry>,
    okss: Seq<Seq<bool>>,
    n: nat,
) -> Seq<DiagnosticView>
    decreases n,
{
    if n == 0 {
        Seq::empty()
    } else {
        batch_errors(reg, g, entries, okss, (n - 1) as nat) + entry_errors(
            reg,
            g,
            entries.take(n - 1),
            entries[n - 1],
            okss[n - 1],
        )
    }
}

proof fn lemma_batch_errors_prefix(
    reg: PieceRegistry,
    g: Graph,
    entries: Seq<BatchPlaceEntry>,
    a: Seq<Seq<bool>>,
    b: Seq<Seq<bool>>,
    n: nat,
)
    requires
        n <= a.len(),
        n <= b.len(),
        forall|k: int| 0 <= k < n ==> a[k] == b[k],
    ensures
        batch_errors(reg, g, entries, a, n) == batch_errors(reg, g, entries, b, n),
    decreases n,
{
    if n > 0 {
        lemma_batch_errors_prefix(reg, g, entries, a, b, (n - 1) as nat);
    }
}

#[verifier::spinoff_prover]
pub(crate) proof fn lemma_batch_errors_empty(
    reg: PieceRegistry,
    g: Graph,
    entries: Seq<BatchPlaceEntry>,
    okss: Seq<Seq<bool>>,
    n: nat,
)
    requires
        batch_errors(reg, g, entries, okss, n).len() == 0,
    ensures
        forall|i: int|
            0 <= i < n ==> #[trigger] entry_errors(reg, g, entries.take(i), entries[i], okss[i]).len() == 0,
    decreases n,
{
    if n > 0 {
        let prev = batch_errors(reg, g, entries, okss, (n - 1) as nat);
        let last = entry_errors(reg, g, entries.take(n - 1), entries[n - 1], okss[n - 1]);
        assert(batch_errors(reg, g, entries, okss, n) == prev + last);
        assert((prev + last).len() == prev.len() + last.len());
        lemma_batch_errors_empty(reg, g, entries, okss, (n - 1) as nat);
    }
}

/// Node `n` is what entry `e` places.
pub open spec fn placed_node(n: Node, e: BatchPlaceEntry) -> bool {
    &&& n.piece_id == e.piece_id
    &&& n.inline_params.as_map() == e.inline_params.as_map()
    &&& n.input_sides.as_map() == e.input_sides.as_map()
    &&& n.output_side == e.output_side
    &&& n.label == e.label
    &&& n.node_state is None
}

/// `g1` is `g0` with the nodes of `entries` placed.
pub open spec fn batch_placed(g0: Graph, entries: Seq<BatchPlaceEntry>, g1: Graph) -> bool {
    &&& forall|i: int|
        0 <= i < entries.len() ==> g1.nodes.as_map().contains_key(#[trigger] entries[i].position) && placed_node(
            g1.nodes.as_map()[entries[i].position],
            entries[i],
        )
    &&& forall|q: GridPos|
        !taken_by(entries, q) ==> (#[trigger] g1.nodes.as_map().contains_key(q) == g0.nodes.as_map().contains_key(q)
            && (g0.nodes.as_map().contains_key(q) ==> g1.nodes.as_map()[q] == g0.nodes.as_map()[q]))
    &&& g1.edges == g0.edges
    &&& g1.name == g0.name
    &&& g1.cols == g0.cols
    &&& g1.rows == g0.rows
}

/// Two batch entries say the same.
pub open spec fn same_entry(a: BatchPlaceEntry, b: BatchPlaceEntry) -> bool {
    &&& a.position == b.position
    &&& a.piece_id == b.piece_id
    &&& a.inline_params.as_map() == b.inline_params.as_map()
    &&& a.input_sides.as_map() == b.input_sides.as_map()
    &&& a.output_side == b.output_side
    &&& a.label == b.label
}

/// `op` places the nodes of `entries` and nothing more.
pub open spec fn is_batch_place(op: GraphOp, entries: Seq<BatchPlaceEntry>) -> bool {
    op matches GraphOp::NodeBatchPlace { nodes, edges, auto_wire } && nodes@.len() == entries.len() && (forall|i: int|
        0 <= i < entries.len() ==> same_entry(#[trigger] nodes@[i], entries[i])) && edges@.len() == 0 && !auto_wire
}

/// `ops` remove the nodes of `entries`, last first.
pub open spec fn removes_in_reverse(ops: Seq<GraphOp>, entries: Seq<BatchPlaceEntry>) -> bool {
    &&& ops.len() == entries.len()
    &&& forall|i: int| 0 <= i < entries.len() ==> is_node_remove(#[trigger] ops[i], entries[entries.len() - 1 - i].position)
}

/// Placing the nodes of `entries`, all of them.
pub open spec fn placement_step(s0: RunState, entries: Seq<BatchPlaceEntry>, s1: RunState) -> bool {
    &&& s1.errors == s0.errors
    &&& batch_placed(s0.graph, entries, s1.graph)
    &&& one_applied(s0.outcome, s1.outcome, |op: GraphOp| is_batch_place(op, entries))
    &&& one_chunk(s0.chunks, s1.chunks, |ops: Seq<GraphOp>| removes_in_reverse(ops, entries))
}

/// The run states `ss` connect `edges` one after the other, as connect
/// operations without ids do; `fresh` are the ids drawn.
pub open spec fn connect_chain(
    reg: PieceRegistry,
    edges: Seq<BatchPlaceEdge>,
    fresh: Seq<u128>,
    ss: Seq<RunState>,
) -> bool {
    &&& ss.len() == edges.len() + 1
    &&& fresh.len() == edges.len()
    &&& forall|i: int|
        #![trigger edges[i]]
        0 <= i < edges.len() ==> edge_connect_step(
            reg,
            ss[i].graph,
            None,
            edges[i].from,
            edges[i].to_node,
            edges[i].to_param@,
            fresh[i],
            ss[i + 1].graph,
            ss[i].errors,
            ss[i + 1].errors,
            ss[i].outcome,
            ss[i + 1].outcome,
            ss[i].chunks,
            ss[i + 1].chunks,
        )
}

/// The run states `ss` wire the nodes of `entries` one after the other;
/// `ids` are the ids drawn.
pub open spec fn wire_chain(
    reg: PieceRegistry,
    entries: Seq<BatchPlaceEntry>,
    ids: Seq<Seq<u128>>,
    ss: Seq<RunState>,
) -> bool {
    &&& ss.len() == entries.len() + 1
    &&& ids.len() == entries.len()
    &&& forall|i: int|
        #![trigger entries[i]]
        0 <= i < entries.len() ==> wire_step(reg, ss[i], entries[i].position, ids[i], ss[i + 1])
}

/// Placing a batch: every entry is checked first, and if any is refused
/// nothing is placed. Otherwise the nodes are placed together, then the
/// explicit edges are connected as connect operations would, then, when
/// asked, each placed node is wired to its neighbours.
pub open spec fn batch_place_step<F: Fn(&str, &str, &serde_json::Value) -> bool>(
    reg: PieceRegistry,
    f: F,
    s0: RunState,
    entries: Seq<BatchPlaceEntry>,
    edges: Seq<BatchPlaceEdge>,
    auto: bool,
    okss: Seq<Seq<bool>>,
    placed: RunState,
    conn: Seq<RunState>,
    fresh: Seq<u128>,
    wired: Seq<RunState>,
    wids: Seq<Seq<u128>>,
    s1: RunState,
) -> bool {
    let errs = batch_errors(reg, s0.graph, entries, okss, entries.len());
    &&& okss.len() == entries.len()
    &&& forall|i: int|
        0 <= i < entries.len() ==> entry_verdicts(f, reg, s0.graph, entries.take(i), entries[i], #[trigger] okss[i])
    &&& if errs.len() > 0 {
        errors_only(s0, s1, errs)
    } else {
        &&& placement_step(s0, entries, placed)
        &&& connect_chain(reg, edges, fresh, conn)
        &&& conn[0] == placed
        &&& if auto {
            wire_chain(reg, entries, wids, wired) && wired[0] == conn.last() && s1 == wired.last()
        } else {
            s1 == conn.last()
        }
    }
}

/// Records an error for each side key of `sides` that names no parameter.
fn check_side_params(def: &PieceDef, p: &GridPos, sides: &SortedMap<Name, TileSide>, errors: &mut Vec<Diagnostic>)
    ensures
        views(final(errors)@) == views(old(errors)@) + side_errors(*def, *p, sides.key_seq(), sides.key_seq().len()),
{
    let n = sides.len();
    let mut i: usize = 0;
    while i < n
        invariant
            n == sides.key_seq().len(),
            i <= n,
            views(errors@) == views(old(errors)@) + side_errors(*def, *p, sides.key_seq(), i as nat),
        decreases n - i,
    {
        let key = sides.key_at(i);
        if find_param(def, key.0.as_str()).is_none() {
            push_error(errors, invalid_op(Some(*p), quoted_name("unknown param '", key.0.as_str())));
        }
        proof {
            assert(views(errors@) =~= views(old(errors)@) + side_errors(*def, *p, sides.key_seq(), (i + 1) as nat));
        }
        i = i + 1;
    }
}

/// Checks entry `i` of a batch, after the entries before it.
fn check_entry<F: Fn(&str, &str, &serde_json::Value) -> bool>(
    graph: &Graph,
    registry: &PieceRegistry,
    check: &F,
    entries: &Vec<BatchPlaceEntry>,
    i: usize,
    errors: &mut Vec<Diagnostic>,
) -> (oks: Ghost<Seq<bool>>)
    requires
        i < entries@.len(),
        forall|a: &str, b: &str, v: &serde_json::Value| check.requires((a, b, v)),
    ensures
        views(final(errors)@) == views(old(errors)@) + entry_errors(
            *registry,
            *graph,
            entries@.take(i as int),
            entries@[i as int],
            oks@,
        ),
        entry_verdicts(*check, *registry, *graph, entries@.take(i as int), entries@[i as int], oks@),
{
    let e = &entries[i];
    let ghost earlier = entries@.take(i as int);
    if !ensure_in_bounds(errors, &e.position, "node_batch_place", graph) {
        proof {
            assert(views(errors@) =~= views(old(errors)@) + entry_errors(*registry, *graph, earlier, *e, seq![]));
        }
        return Ghost(Seq::empty());
    }
    let mut taken = graph.nodes.contains_key(&e.position);
    let mut j: usize = 0;
    while j < i
        invariant
            i < entries@.len(),
            j <= i,
            *e == entries@[i as int],
            earlier == entries@.take(i as int),
            taken == (graph.nodes.as_map().contains_key(e.position) || exists|k: int|
                0 <= k < j && #[trigger] earlier[k].position == e.position),
        decreases i - j,
    {
        if entries[j].position == e.position {
            taken = true;
            proof {
                assert(earlier[j as int] == entries@[j as int]);
            }
        }
        proof {
            assert(earlier[j as int] == entries@[j as int]);
            if exists|k: int| 0 <= k < j + 1 && #[trigger] earlier[k].position == e.position {
                let k = choose|k: int| 0 <= k < j + 1 && #[trigger] earlier[k].position == e.position;
                if k == j {
                    assert(entries@[j as int].position == e.position);
                }
            }
        }
        j = j + 1;
    }
    if taken {
        push_error(errors, invalid_op(Some(e.position), text_with_cell("node already exists at ", &e.position)));
        proof {
            assert(views(errors@) =~= views(old(errors)@) + entry_errors(*registry, *graph, earlier, *e, seq![]));
        }
        return Ghost(Seq::empty());
    }
    let def = match registry.get(e.piece_id.as_str()) {
        Some(d) => d,
        None => {
            push_error(errors, invalid_op(Some(e.position), quoted_name("unknown piece id '", e.piece_id.as_str())));
            proof {
                assert(views(errors@) =~= views(old(errors)@) + entry_errors(*registry, *graph, earlier, *e, seq![]));
            }
            return Ghost(Seq::empty());
        },
    };
    let ghost e0 = views(errors@);
    let oks = check_inline_values(def, &e.position, &e.inline_params, check, errors);
    let ghost e1 = views(errors@);
    check_side_params(def, &e.position, &e.input_sides, errors);
    let ghost e2 = views(errors@);
    if e.output_side.is_some() && def.output_type.is_none() {
        push_error(errors, invalid_op(Some(e.position), owned("cannot set output side on terminal piece")));
    }
    proof {
        assert(views(errors@) =~= views(old(errors)@) + entry_errors(*registry, *graph, earlier, *e, oks@));
    }
    oks
}

fn clone_sides(m: &SortedMap<Name, TileSide>) -> (r: SortedMap<Name, TileSide>)
    ensures
        r.as_map() == m.as_map(),
{
    let _ = m.len();
    let r = m.clone();
    proof {
        assert(r.value_seq() =~= m.value_seq());
        SortedMap::lemma_same_entries(*m, r);
    }
    r
}

fn clone_entry(e: &BatchPlaceEntry) -> (r: BatchPlaceEntry)
    ensures
        same_entry(r, *e),
{
    BatchPlaceEntry {
        position: e.position,
        piece_id: e.piece_id.clone(),
        inline_params: clone_params(&e.inline_params),
        input_sides: clone_sides(&e.input_sides),
        output_side: e.output_side,
        label: clone_label(&e.label),
    }
}

fn node_batch_place<F: Fn(&str, &str, &serde_json::Value) -> bool>(
    graph: &mut Graph,
    registry: &PieceRegistry,
    check: &F,
    entries: &Vec<BatchPlaceEntry>,
    edges: &Vec<BatchPlaceEdge>,
    auto_wire: bool,
    errors: &mut Vec<Diagnostic>,
    outcome: &mut ApplyOpsOutcome,
    chunks: &mut Vec<Vec<GraphOp>>,
)
    requires
        nodes_interior(*old(graph)),
        forall|a: &str, b: &str, v: &serde_json::Value| check.requires((a, b, v)),
    ensures
        nodes_interior(*final(graph)),
        exists|
            okss: Seq<Seq<bool>>,
            placed: RunState,
            conn: Seq<RunState>,
            fresh: Seq<u128>,
            wired: Seq<RunState>,
            wids: Seq<Seq<u128>>,
        |
            batch_place_step(
                *registry,
                *check,
                run_state(*old(graph), old(errors)@, *old(outcome), old(chunks)@),
                entries@,
                edges@,
                auto_wire,
                okss,
                placed,
                conn,
                fresh,
                wired,
                wids,
                run_state(*final(graph), final(errors)@, *final(outcome), final(chunks)@),
            ),
{
    let ghost s0 = run_state(*graph, errors@, *outcome, chunks@);
    let ghost g0 = *graph;
    let start = errors.len();
    let ghost mut okss: Seq<Seq<bool>> = Seq::empty();
    let n = entries.len();
    let mut i: usize = 0;
    while i < n
        invariant
            n == entries@.len(),
            i <= n,
            *graph == g0,
            s0.graph == g0,
            start == s0.errors.len(),
            okss.len() == i,
            forall|a: &str, b: &str, v: &serde_json::Value| check.requires((a, b, v)),
            forall|k: int|
                0 <= k < i ==> entry_verdicts(*check, *registry, g0, entries@.take(k), entries@[k], #[trigger] okss[k]),
            views(errors@) == s0.errors + batch_errors(*registry, g0, entries@, okss, i as nat),
        decreases n - i,
    {
        let oks = check_entry(graph, registry, check, entries, i, errors);
        proof {
            let next = okss.push(oks@);
            lemma_batch_errors_prefix(*registry, g0, entries@, okss, next, i as nat);
            assert(views(errors@) =~= s0.errors + batch_errors(*registry, g0, entries@, next, (i + 1) as nat));
            assert forall|k: int| 0 <= k < i + 1 implies entry_verdicts(
                *check,
                *registry,
                g0,
                entries@.take(k),
                entries@[k],
                #[trigger] next[k],
            ) by {
                if k < i {
                    assert(next[k] == okss[k]);
                }
            }
            okss = next;
        }
        i = i + 1;
    }
    let ghost errs = batch_errors(*registry, g0, entries@, okss, n as nat);
    if errors.len() != start {
        proof {
            assert(views(errors@).len() == errors@.len());
            assert(errs.len() > 0);
        }
        assert(batch_place_step(*registry, *check, s0, entries@, edges@, auto_wire, okss, s0, seq![s0], seq![], seq![s0], seq![], run_state(*graph, errors@, *outcome, chunks@)));
        return ;
    }
    proof {
        assert(views(errors@).len() == errors@.len());
        assert(errs.len() == 0);
        lemma_batch_errors_empty(*registry, g0, entries@, okss, n as nat);
    }
    // Every entry passed its checks: place the nodes.
    let mut i: usize = 0;
    while i < n
        invariant
            n == entries@.len(),
            i <= n,
            s0.graph == g0,
            nodes_interior(g0),
            nodes_interior(*graph),
            forall|k: int|
                0 <= k < n ==> #[trigger] entry_errors(*registry, g0, entries@.take(k), entries@[k], okss[k]).len()
                    == 0,
            batch_placed(g0, entries@.take(i as int), *graph),
        decreases n - i,
    {
        let e = &entries[i];
        let ghost before = *graph;
        proof {
            assert(entry_errors(*registry, g0, entries@.take(i as int), entries@[i as int], okss[i as int]).len() == 0);
            lemma_in_bounds_interior(g0, e.position);
        }
        let node = Node {
            piece_id: e.piece_id.clone(),
            inline_params: clone_params(&e.inline_params),
            input_sides: clone_sides(&e.input_sides),
            output_side: e.output_side,
            label: clone_label(&e.label),
            node_state: None,
        };
        graph.nodes.insert(e.position, node);
        proof {
            let prev = entries@.take(i as int);
            let next = entries@.take(i + 1);
            assert(next =~= prev.push(entries@[i as int]));
            assert(!taken_by(prev, e.position));
            assert forall|k: int| 0 <= k < next.len() implies graph.nodes.as_map().contains_key(
                #[trigger] next[k].position,
            ) && placed_node(graph.nodes.as_map()[next[k].position], next[k]) by {
                if k < i {
                    assert(next[k] == prev[k]);
                    assert(prev[k].position != e.position);
                }
            }
            assert forall|q: GridPos| !taken_by(next, q) implies (#[trigger] graph.nodes.as_map().contains_key(q)
                == g0.nodes.as_map().contains_key(q) && (g0.nodes.as_map().contains_key(q) ==> graph.nodes.as_map()[q]
                == g0.nodes.as_map()[q])) by {
                assert(next[i as int].position == e.position);
                assert(q != e.position);
                if taken_by(prev, q) {
                    let j = choose|j: int| 0 <= j < prev.len() && #[trigger] prev[j].position == q;
                    assert(next[j].position == q);
                }
            }
            assert forall|q: GridPos| #[trigger] graph.nodes.as_map().contains_key(q) implies interior(q) by {
                if q != e.position {
                    assert(before.nodes.as_map().contains_key(q));
                }
            }
        }
        i = i + 1;
    }
    proof {
        assert(entries@.take(n as int) =~= entries@);
    }
    let mut copies: Vec<BatchPlaceEntry> = Vec::new();
    let mut i: usize = 0;
    while i < n
        invariant
            n == entries@.len(),
            i <= n,
            copies@.len() == i,
            forall|k: int| 0 <= k < i ==> same_entry(#[trigger] copies@[k], entries@[k]),
        decreases n - i,
    {
        copies.push(clone_entry(&entries[i]));
        i = i + 1;
    }
    push_applied(outcome, GraphOp::NodeBatchPlace { nodes: copies, edges: Vec::new(), auto_wire: false });
    let mut removals: Vec<GraphOp> = Vec::new();
    let mut i: usize = n;
    while i > 0
        invariant
            n == entries@.len(),
            i <= n,
            removals@.len() == n - i,
            forall|k: int| 0 <= k < n - i ==> is_node_remove(#[trigger] removals@[k], entries@[n - 1 - k].position),
        decreases i,
    {
        i = i - 1;
        removals.push(GraphOp::NodeRemove { position: entries[i].position });
    }
    chunks.push(removals);
    let ghost placed = run_state(*graph, errors@, *outcome, chunks@);
    proof {
        assert(chunks@.drop_last() =~= s0.chunks);
        assert(placement_step(s0, entries@, placed));
    }
    // The explicit edges.
    let ghost mut conn: Seq<RunState> = seq![placed];
    let ghost mut fresh: Seq<u128> = Seq::empty();
    let m = edges.len();
    let mut j: usize = 0;
    while j < m
        invariant
            m == edges@.len(),
            j <= m,
            nodes_interior(*graph),
            conn.len() == j + 1,
            fresh.len() == j,
            conn[0] == placed,
            conn.last() == run_state(*graph, errors@, *outcome, chunks@),
            forall|t: int|
                #![trigger edges@[t]]
                0 <= t < j ==> edge_connect_step(
                    *registry,
                    conn[t].graph,
                    None,
                    edges@[t].from,
                    edges@[t].to_node,
                    edges@[t].to_param@,
                    fresh[t],
                    conn[t + 1].graph,
                    conn[t].errors,
                    conn[t + 1].errors,
                    conn[t].outcome,
                    conn[t + 1].outcome,
                    conn[t].chunks,
                    conn[t + 1].chunks,
                ),
        decreases m - j,
    {
        let ghost before = run_state(*graph, errors@, *outcome, chunks@);
        let edge = &edges[j];
        edge_connect(graph, registry, &None, &edge.from, &edge.to_node, &edge.to_param, errors, outcome, chunks);
        proof {
            let after = run_state(*graph, errors@, *outcome, chunks@);
            let id = choose|id: u128|
                edge_connect_step(
                    *registry,
                    before.graph,
                    None,
                    edge.from,
                    edge.to_node,
                    edge.to_param@,
                    id,
                    after.graph,
                    before.errors,
                    after.errors,
                    before.outcome,
                    after.outcome,
                    before.chunks,
                    after.chunks,
                );
            let conn1 = conn.push(after);
            let fresh1 = fresh.push(id);
            assert forall|t: int|
                #![trigger edges@[t]]
                0 <= t < j + 1 implies edge_connect_step(
                *registry,
                conn1[t].graph,
                None,
                edges@[t].from,
                edges@[t].to_node,
                edges@[t].to_param@,
                fresh1[t],
                conn1[t + 1].graph,
                conn1[t].errors,
                conn1[t + 1].errors,
                conn1[t].outcome,
                conn1[t + 1].outcome,
                conn1[t].chunks,
                conn1[t + 1].chunks,
            ) by {
                if t < j {
                    assert(conn1[t] == conn[t]);
                    assert(conn1[t + 1] == conn[t + 1]);
                }
            }
            conn = conn1;
            fresh = fresh1;
        }
        j = j + 1;
    }
    // Wiring, when asked.
    let ghost mut wired: Seq<RunState> = seq![conn.last()];
    let ghost mut wids: Seq<Seq<u128>> = Seq::empty();
    if auto_wire {
        let mut i: usize = 0;
        while i < n
            invariant
                n == entries@.len(),
                i <= n,
                nodes_interior(*graph),
                wired.len() == i + 1,
                wids.len() == i,
                wired[0] == conn.last(),
                wired.last() == run_state(*graph, errors@, *outcome, chunks@),
                forall|t: int|
                    #![trigger entries@[t]]
                    0 <= t < i ==> wire_step(*registry, wired[t], entries@[t].position, wids[t], wired[t + 1]),
            decreases n - i,
        {
            let ghost before = run_state(*graph, errors@, *outcome, chunks@);
            auto_wire_node(graph, registry, &entries[i].position, outcome, chunks);
            proof {
                let after = run_state(*graph, errors@, *outcome, chunks@);
                let ids = choose|ids: Seq<u128>|
                    auto_wired(
                        before.graph,
                        *registry,
                        entries@[i as int].position,
                        ids,
                        after.graph.edges.as_map(),
                        before.outcome,
                        after.outcome,
                        before.chunks,
                        after.chunks,
                    );
                let wired1 = wired.push(after);
                let wids1 = wids.push(ids);
                assert(wire_step(*registry, before, entries@[i as int].position, ids, after));
                assert forall|t: int|
                    #![trigger entries@[t]]
                    0 <= t < i + 1 implies wire_step(*registry, wired1[t], entries@[t].position, wids1[t], wired1[t + 1]) by {
                    if t < i {
                        assert(wired1[t] == wired[t]);
                        assert(wired1[t + 1] == wired[t + 1]);
                    }
                }
                wired = wired1;
                wids = wids1;
                assert(forall|q: GridPos| #[trigger] graph.nodes.as_map().contains_key(q) ==> before.graph.nodes.as_map().contains_key(q));
            }
            i = i + 1;
        }
    }
    assert(batch_place_step(*registry, *check, s0, entries@, edges@, auto_wire, okss, placed, conn, fresh, wired, wids, run_state(*graph, errors@, *outcome, chunks@)));
}

// Applying a batch
// ---------------------------------------------------------------------------

/// The undo operations of `chunks`: the last chunk first, each chunk in its
/// own order.
pub open spec fn undo_of(chunks: Seq<Vec<GraphOp>>) -> Seq<GraphOp>
    decreases chunks.len(),
{
    if chunks.len() == 0 {
        Seq::empty()
    } else {
        chunks.last()@ + undo_of(chunks.drop_last())
    }
}

/// Applying `op` takes run state `s0` to `s1`; `f` is the inline check.
pub open spec fn op_step<F: Fn(&str, &str, &serde_json::Value) -> bool>(
    reg: PieceRegistry,
    f: F,
    s0: RunState,
    op: GraphOp,
    s1: RunState,
) -> bool {
    let g0 = s0.graph;
    let g1 = s1.graph;
    let e0 = s0.errors;
    let e1 = s1.errors;
    let o0 = s0.outcome;
    let o1 = s1.outcome;
    let c0 = s0.chunks;
    let c1 = s1.chunks;
    match op {
        GraphOp::NodePlace { position, piece_id, inline_params } => exists|oks: Seq<bool>|
            node_place_step(reg, f, g0, position, piece_id, inline_params, oks, g1, e0, e1, o0, o1, c0, c1),
        GraphOp::NodeBatchPlace { nodes, edges, auto_wire } => exists|
            okss: Seq<Seq<bool>>,
            placed: RunState,
            conn: Seq<RunState>,
            fresh: Seq<u128>,
            wired: Seq<RunState>,
            wids: Seq<Seq<u128>>,
        | batch_place_step(reg, f, s0, nodes@, edges@, auto_wire, okss, placed, conn, fresh, wired, wids, s1),
        GraphOp::NodeMove { from, to } => exists|gm: Graph|
            node_move_step(reg, g0, from, to, gm, g1, e0, e1, o0, o1, c0, c1),
        GraphOp::NodeSwap { a, b } => exists|gm: Graph, gp: Graph|
            node_swap_step(reg, g0, a, b, gm, gp, g1, e0, e1, o0, o1, c0, c1),
        GraphOp::NodeRemove { position } => node_remove_step(g0, position, g1, e0, e1, o0, o1, c0, c1),
        GraphOp::EdgeConnect { edge_id, from, to_node, to_param } => exists|fresh: u128|
            edge_connect_step(reg, g0, edge_id, from, to_node, to_param@, fresh, g1, e0, e1, o0, o1, c0, c1),
        GraphOp::EdgeDisconnect { edge_id } => edge_disconnect_step(g0, edge_id@, g1, e0, e1, o0, o1, c0, c1),
        GraphOp::ParamSetInline { position, param_id, value } => exists|ok: bool, same: bool|
            param_set_inline_step(reg, f, g0, position, param_id@, value, ok, same, g1, e0, e1, o0, o1, c0, c1),
        GraphOp::ParamClearInline { position, param_id } => param_clear_inline_step(
            reg,
            g0,
            position,
            param_id@,
            g1,
            e0,
            e1,
            o0,
            o1,
            c0,
            c1,
        ),
        GraphOp::ParamSetSide { position, param_id, side } => param_set_side_step(
            reg,
            g0,
            position,
            param_id@,
            side,
            g1,
            e0,
            e1,
            o0,
            o1,
            c0,
            c1,
        ),
        GraphOp::ParamClearSide { position, param_id } => param_clear_side_step(
            reg,
            g0,
            position,
            param_id@,
            g1,
            e0,
            e1,
            o0,
            o1,
            c0,
            c1,
        ),
        GraphOp::OutputSetSide { position, side } => output_set_side_step(
            reg,
            g0,
            position,
            side,
            g1,
            e0,
            e1,
            o0,
            o1,
            c0,
            c1,
        ),
        GraphOp::OutputClearSide { position } => output_clear_side_step(reg, g0, position, g1, e0, e1, o0, o1, c0, c1),
        GraphOp::NodeAutoWire { position } => exists|ids: Seq<u128>| node_auto_wire_step(reg, s0, position, ids, s1),
        GraphOp::NodeSetLabel { position, label } => set_label_step(g0, position, label, g1, e0, e1, o0, o1, c0, c1),
        GraphOp::NodeSetState { position, state } => set_state_step(g0, position, state, g1, e0, e1, o0, o1, c0, c1),
        GraphOp::ResizeGrid { cols, rows } => resize_step(g0, cols, rows, g1, e0, e1, o0, o1, c0, c1),
    }
}

/// The run states `ss` apply `ops` one after the other.
pub open spec fn run_ops<F: Fn(&str, &str, &serde_json::Value) -> bool>(
    reg: PieceRegistry,
    f: F,
    ops: Seq<GraphOp>,
    ss: Seq<RunState>,
) -> bool {
    &&& ss.len() == ops.len() + 1
    &&& forall|i: int| #![trigger ops[i]] 0 <= i < ops.len() ==> op_step(reg, f, ss[i], ops[i], ss[i + 1])
}

/// A run starts from `g` with no errors, an empty outcome and no undo chunks.
pub open spec fn run_start(s: RunState, g: Graph) -> bool {
    &&& s.graph == g
    &&& s.errors.len() == 0
    &&& s.outcome.removed_edges@.len() == 0
    &&& s.outcome.applied_ops@.len() == 0
    &&& s.outcome.undo_ops@.len() == 0
    &&& s.chunks.len() == 0
}

/// What a run that ends in state `s` returns: its outcome with the undo
/// operations gathered when no operation failed, else every error.
pub open spec fn run_result(s: RunState, r: Result<ApplyOpsOutcome, Vec<Diagnostic>>) -> bool {
    match r {
        Ok(out) => {
            &&& s.errors.len() == 0
            &&& out.removed_edges == s.outcome.removed_edges
            &&& out.applied_ops == s.outcome.applied_ops
            &&& out.undo_ops@ == undo_of(s.chunks)
        },
        Err(errs) => s.errors.len() > 0 && views(errs@) == s.errors,
    }
}


fn apply_batch<F: Fn(&str, &str, &serde_json::Value) -> bool>(
    graph: &mut Graph,
    registry: &PieceRegistry,
    op: &GraphOp,
    check: &F,
    errors: &mut Vec<Diagnostic>,
    outcome: &mut ApplyOpsOutcome,
    chunks: &mut Vec<Vec<GraphOp>>,
)
    requires
        *op is NodeBatchPlace,
        nodes_interior(*old(graph)),
        forall|a: &str, b: &str, v: &serde_json::Value| check.requires((a, b, v)),
    ensures
        nodes_interior(*final(graph)),
        op_step(
            *registry,
            *check,
            run_state(*old(graph), old(errors)@, *old(outcome), old(chunks)@),
            *op,
            run_state(*final(graph), final(errors)@, *final(outcome), final(chunks)@),
        ),
{
    match op {
        GraphOp::NodeBatchPlace { nodes, edges, auto_wire } => {
            node_batch_place(graph, registry, check, nodes, edges, *auto_wire, errors, outcome, chunks);
        },
        _ => {},
    }
}

#[verifier::spinoff_prover]
fn apply_one<F: Fn(&str, &str, &serde_json::Value) -> bool>(
    graph: &mut Graph,
    registry: &PieceRegistry,
    op: &GraphOp,
    check: &F,
    errors: &mut Vec<Diagnostic>,
    outcome: &mut ApplyOpsOutcome,
    chunks: &mut Vec<Vec<GraphOp>>,
)
    requires
        nodes_interior(*old(graph)),
        forall|a: &str, b: &str, v: &serde_json::Value| check.requires((a, b, v)),
    ensures
        nodes_interior(*final(graph)),
        op_step(
            *registry,
            *check,
            run_state(*old(graph), old(errors)@, *old(outcome), old(chunks)@),
            *op,
            run_state(*final(graph), final(errors)@, *final(outcome), final(chunks)@),
        ),
{
    let ghost s0 = run_state(*graph, errors@, *outcome, chunks@);
    match op {
        GraphOp::NodePlace { position, piece_id, inline_params } => {
            node_place(graph, registry, check, position, piece_id, inline_params, errors, outcome, chunks);
            proof {
                let s1 = run_state(*graph, errors@, *outcome, chunks@);
                let oks = choose|oks: Seq<bool>|
                    node_place_step(
                        *registry,
                        *check,
                        s0.graph,
                        *position,
                        *piece_id,
                        *inline_params,
                        oks,
                        s1.graph,
                        s0.errors,
                        s1.errors,
                        s0.outcome,
                        s1.outcome,
                        s0.chunks,
                        s1.chunks,
                    );
                assert(node_place_step(
                    *registry,
                    *check,
                    s0.graph,
                    *position,
                    *piece_id,
                    *inline_params,
                    oks,
                    s1.graph,
                    s0.errors,
                    s1.errors,
                    s0.outcome,
                    s1.outcome,
                    s0.chunks,
                    s1.chunks,
                ));
            }
            assert(op_step(*registry, *check, s0, *op, run_state(*graph, errors@, *outcome, chunks@)));
        },
        GraphOp::NodeBatchPlace { .. } => {
            apply_batch(graph, registry, op, check, errors, outcome, chunks);
            assert(op_step(*registry, *check, s0, *op, run_state(*graph, errors@, *outcome, chunks@)));
        },
        GraphOp::NodeMove { from, to } => {
            node_move(graph, registry, from, to, errors, outcome, chunks);
            proof {
                let s1 = run_state(*graph, errors@, *outcome, chunks@);
                let gm = choose|gm: Graph|
                    node_move_step(
                        *registry,
                        s0.graph,
                        *from,
                        *to,
                        gm,
                        s1.graph,
                        s0.errors,
                        s1.errors,
                        s0.outcome,
                        s1.outcome,
                        s0.chunks,
                        s1.chunks,
                    );
                assert(node_move_step(
                    *registry,
                    s0.graph,
                    *from,
                    *to,
                    gm,
                    s1.graph,
                    s0.errors,
                    s1.errors,
                    s0.outcome,
                    s1.outcome,
                    s0.chunks,
                    s1.chunks,
                ));
            }
            assert(op_step(*registry, *check, s0, *op, run_state(*graph, errors@, *outcome, chunks@)));
        },
        GraphOp::NodeSwap { a, b } => {
            node_swap(graph, registry, a, b, errors, outcome, chunks);
            proof {
                let s1 = run_state(*graph, errors@, *outcome, chunks@);
                let (gm, gp) = choose|gm: Graph, gp: Graph|
                    node_swap_step(
                        *registry,
                        s0.graph,
                        *a,
                        *b,
                        gm,
                        gp,
                        s1.graph,
                        s0.errors,
                        s1.errors,
                        s0.outcome,
                        s1.outcome,
                        s0.chunks,
                        s1.chunks,
                    );
                assert(node_swap_step(
                    *registry,
                    s0.graph,
                    *a,
                    *b,
                    gm,
                    gp,
                    s1.graph,
                    s0.errors,
                    s1.errors,
                    s0.outcome,
                    s1.outcome,
                    s0.chunks,
                    s1.chunks,
                ));
            }
            assert(op_step(*registry, *check, s0, *op, run_state(*graph, errors@, *outcome, chunks@)));
        },
        GraphOp::NodeRemove { position } => {
            node_remove(graph, position, errors, outcome, chunks);
            assert(op_step(*registry, *check, s0, *op, run_state(*graph, errors@, *outcome, chunks@)));
        },
        GraphOp::EdgeConnect { edge_id, from, to_node, to_param } => {
            edge_connect(graph, registry, edge_id, from, to_node, to_param, errors, outcome, chunks);
            proof {
                let s1 = run_state(*graph, errors@, *outcome, chunks@);
                let fresh = choose|fresh: u128|
                    edge_connect_step(
                        *registry,
                        s0.graph,
                        *edge_id,
                        *from,
                        *to_node,
                        to_param@,
                        fresh,
                        s1.graph,
                        s0.errors,
                        s1.errors,
                        s0.outcome,
                        s1.outcome,
                        s0.chunks,
                        s1.chunks,
                    );
                assert(edge_connect_step(
                    *registry,
                    s0.graph,
                    *edge_id,
                    *from,
                    *to_node,
                    to_param@,
                    fresh,
                    s1.graph,
                    s0.errors,
                    s1.errors,
                    s0.outcome,
                    s1.outcome,
                    s0.chunks,
                    s1.chunks,
                ));
            }
            assert(op_step(*registry, *check, s0, *op, run_state(*graph, errors@, *outcome, chunks@)));
        },
        GraphOp::EdgeDisconnect { edge_id } => {
            edge_disconnect(graph, edge_id, errors, outcome, chunks);
            assert(op_step(*registry, *check, s0, *op, run_state(*graph, errors@, *outcome, chunks@)));
        },
        GraphOp::ParamSetInline { position, param_id, value } => {
            param_set_inline(graph, registry, check, position, param_id, value, errors, outcome, chunks);
            proof {
                let s1 = run_state(*graph, errors@, *outcome, chunks@);
                let (ok, same) = choose|ok: bool, same: bool|
                    param_set_inline_step(
                        *registry,
                        *check,
                        s0.graph,
                        *position,
                        param_id@,
                        *value,
                        ok,
                        same,
                        s1.graph,
                        s0.errors,
                        s1.errors,
                        s0.outcome,
                        s1.outcome,
                        s0.chunks,
                        s1.chunks,
                    );
                assert(param_set_inline_step(
                    *registry,
                    *check,
                    s0.graph,
                    *position,
                    param_id@,
                    *value,
                    ok,
                    same,
                    s1.graph,
                    s0.errors,
                    s1.errors,
                    s0.outcome,
                    s1.outcome,
                    s0.chunks,
                    s1.chunks,
                ));
            }
            assert(op_step(*registry, *check, s0, *op, run_state(*graph, errors@, *outcome, chunks@)));
        },
        GraphOp::ParamClearInline { position, param_id } => {
            param_clear_inline(graph, registry, position, param_id, errors, outcome, chunks);
            assert(op_step(*registry, *check, s0, *op, run_state(*graph, errors@, *outcome, chunks@)));
        },
        GraphOp::ParamSetSide { position, param_id, side } => {
            param_set_side(graph, registry, position, param_id, *side, errors, outcome, chunks);
            assert(op_step(*registry, *check, s0, *op, run_state(*graph, errors@, *outcome, chunks@)));
        },
        GraphOp::ParamClearSide { position, param_id } => {
            param_clear_side(graph, registry, position, param_id, errors, outcome, chunks);
            assert(op_step(*registry, *check, s0, *op, run_state(*graph, errors@, *outcome, chunks@)));
        },
        GraphOp::OutputSetSide { position, side } => {
            output_set_side(graph, registry, position, *side, errors, outcome, chunks);
            assert(op_step(*registry, *check, s0, *op, run_state(*graph, errors@, *outcome, chunks@)));
        },
        GraphOp::OutputClearSide { position } => {
            output_clear_side(graph, registry, position, errors, outcome, chunks);
            assert(op_step(*registry, *check, s0, *op, run_state(*graph, errors@, *outcome, chunks@)));
        },
        GraphOp::NodeAutoWire { position } => {
            node_auto_wire(graph, registry, position, errors, outcome, chunks);
            proof {
                let s1 = run_state(*graph, errors@, *outcome, chunks@);
                let ids = choose|ids: Seq<u128>| node_auto_wire_step(*registry, s0, *position, ids, s1);
                assert(node_auto_wire_step(*registry, s0, *position, ids, s1));
            }
            assert(op_step(*registry, *check, s0, *op, run_state(*graph, errors@, *outcome, chunks@)));
        },
        GraphOp::NodeSetLabel { position, label } => {
            node_set_label(graph, position, label, errors, outcome, chunks);
            assert(op_step(*registry, *check, s0, *op, run_state(*graph, errors@, *outcome, chunks@)));
        },
        GraphOp::NodeSetState { position, state } => {
            node_set_state(graph, position, state, errors, outcome, chunks);
            assert(op_step(*registry, *check, s0, *op, run_state(*graph, errors@, *outcome, chunks@)));
        },
        GraphOp::ResizeGrid { cols, rows } => {
            resize_grid(graph, *cols, *rows, errors, outcome, chunks);
            assert(op_step(*registry, *check, s0, *op, run_state(*graph, errors@, *outcome, chunks@)));
        },
    }
}

/// Applies `ops` to `graph` in order. Each operation is checked and, when
/// valid, carried out, recording what it did and the operations that undo
/// it; an invalid operation records its errors and changes nothing, and the
/// operations after it still run. The result is the outcome, with every
/// undo operation in the order that restores the graph, when no operation
/// failed, and else every error. `inline_value_ok` tells whether a value
/// suits a parameter of a piece, by piece id and parameter id.
pub fn apply_ops_to_graph<F: Fn(&str, &str, &serde_json::Value) -> bool>(
    graph: &mut Graph,
    registry: &PieceRegistry,
    ops: &[GraphOp],
    inline_value_ok: &F,
) -> (r: Result<ApplyOpsOutcome, Vec<Diagnostic>>)
    requires
        nodes_interior(*old(graph)),
        forall|a: &str, b: &str, v: &serde_json::Value| inline_value_ok.requires((a, b, v)),
    ensures
        nodes_interior(*final(graph)),
        exists|ss: Seq<RunState>|
            {
                &&& run_ops(*registry, *inline_value_ok, ops@, ss)
                &&& run_start(ss[0], *old(graph))
                &&& ss.last().graph == *final(graph)
                &&& run_result(ss.last(), r)
            },
{
    let mut errors: Vec<Diagnostic> = Vec::new();
    let mut outcome = ApplyOpsOutcome::default();
    let mut chunks: Vec<Vec<GraphOp>> = Vec::new();
    let ghost mut ss: Seq<RunState> = seq![run_state(*graph, errors@, outcome, chunks@)];
    proof {
        assert(views(errors@) =~= Seq::<DiagnosticView>::empty());
    }
    let n = ops.len();
    let mut i: usize = 0;
    while i < n
        invariant
            n == ops@.len(),
            i <= n,
            nodes_interior(*graph),
            forall|a: &str, b: &str, v: &serde_json::Value| inline_value_ok.requires((a, b, v)),
            ss.len() == i + 1,
            run_start(ss[0], *old(graph)),
            ss.last() == run_state(*graph, errors@, outcome, chunks@),
            forall|t: int| #![trigger ops@[t]] 0 <= t < i ==> op_step(*registry, *inline_value_ok, ss[t], ops@[t], ss[t + 1]),
        decreases n - i,
    {
        let ghost before = ss;
        apply_one(graph, registry, &ops[i], inline_value_ok, &mut errors, &mut outcome, &mut chunks);
        proof {
            let after = run_state(*graph, errors@, outcome, chunks@);
            ss = before.push(after);
            assert forall|t: int| #![trigger ops@[t]] 0 <= t < i + 1 implies op_step(
                *registry,
                *inline_value_ok,
                ss[t],
                ops@[t],
                ss[t + 1],
            ) by {
                if t < i {
                    assert(ss[t] == before[t]);
                    assert(ss[t + 1] == before[t + 1]);
                }
            }
        }
        i = i + 1;
    }
    let ghost last = ss.last();
    if errors.len() == 0 {
        proof {
            assert(views(errors@).len() == errors@.len());
        }
        let mut undo: Vec<GraphOp> = Vec::new();
        while chunks.len() > 0
            invariant
                undo@ + undo_of(chunks@) == undo_of(last.chunks),
            decreases chunks@.len(),
        {
            let ghost before = chunks@;
            let mut chunk = chunks.pop().unwrap();
            proof {
                assert(chunks@ == before.drop_last());
                assert(chunk@ == before.last()@);
            }
            let ghost u0 = undo@;
            undo.append(&mut chunk);
            proof {
                assert(undo@ + undo_of(chunks@) =~= u0 + (before.last()@ + undo_of(before.drop_last())));
            }
        }
        proof {
            assert(undo@ =~= undo@ + undo_of(chunks@));
        }
        outcome.undo_ops = undo;
        let r = Ok(outcome);
        assert(run_result(last, r));
        assert(run_ops(*registry, *inline_value_ok, ops@, ss) && run_start(ss[0], *old(graph)) && ss.last().graph
            == *graph && run_result(ss.last(), r));
        r
    } else {
        proof {
            assert(views(errors@).len() == errors@.len());
        }
        let r = Err(errors);
        assert(run_ops(*registry, *inline_value_ok, ops@, ss) && run_start(ss[0], *old(graph)) && ss.last().graph
            == *graph && run_result(ss.last(), r));
        r
    }
}

// Undoing an edit
// ---------------------------------------------------------------------------

/// Two nodes hold the same: piece, inline values, sides, output side,
/// label and state.
pub open spec fn same_node(a: Node, b: Node) -> bool {
    &&& a.piece_id@ == b.piece_id@
    &&& a.inline_params.as_map() == b.inline_params.as_map()
    &&& a.input_sides.as_map() == b.input_sides.as_map()
    &&& a.output_side == b.output_side
    &&& a.label == b.label
    &&& a.node_state == b.node_state
}

/// Two graphs hold the same nodes at the same cells, the same edges under
/// the same ids, the same name and the same size.
pub open spec fn same_content(a: Graph, b: Graph) -> bool {
    &&& a.nodes.as_map().dom() == b.nodes.as_map().dom()
    &&& forall|p: GridPos| #[trigger] a.nodes.as_map().contains_key(p) ==> same_node(a.nodes.as_map()[p], b.nodes.as_map()[p])
    &&& edge_views(a.edges.as_map()) == edge_views(b.edges.as_map())
    &&& a.name == b.name
    &&& a.cols == b.cols
    &&& a.rows == b.rows
}

/// Every edge is stored under its own id.
pub open spec fn keyed_by_id(g: Graph) -> bool {
    forall|k: u128| #[trigger] g.edges.as_map().contains_key(k) ==> g.edges.as_map()[k].id@ == k
}

/// The edits of one node's label, state, sides or inline values, and
/// connecting or disconnecting one edge.
pub open spec fn is_edit(op: GraphOp) -> bool {
    ||| op is NodeSetLabel
    ||| op is NodeSetState
    ||| op is ParamSetSide
    ||| op is ParamClearSide
    ||| op is OutputSetSide
    ||| op is OutputClearSide
    ||| op is ParamSetInline
    ||| op is ParamClearInline
    ||| op is EdgeConnect
    ||| op is EdgeDisconnect
}

proof fn lemma_replaced_twice(g0: Graph, g1: Graph, g2: Graph, p: GridPos)
    requires
        g0.nodes.as_map().contains_key(p),
        node_replaced(g0, g1, p),
        node_replaced(g1, g2, p),
        same_node(g2.nodes.as_map()[p], g0.nodes.as_map()[p]),
    ensures
        same_content(g2, g0),
{
    assert(g2.nodes.as_map().dom() =~= g0.nodes.as_map().dom());
    assert forall|q: GridPos| #[trigger] g2.nodes.as_map().contains_key(q) implies same_node(
        g2.nodes.as_map()[q],
        g0.nodes.as_map()[q],
    ) by {
        if q != p {
            assert(g2.nodes.as_map()[q] == g1.nodes.as_map()[q]);
            assert(g1.nodes.as_map()[q] == g0.nodes.as_map()[q]);
        }
    }
}

/// A node edit that changed the graph, followed by the operation of its
/// undo chunk, when that operation records no error and changes the graph
/// in turn, gives back a graph with the same content.
proof fn lemma_node_edit_undone<F: Fn(&str, &str, &serde_json::Value) -> bool>(
    reg: PieceRegistry,
    f: F,
    s0: RunState,
    op: GraphOp,
    s1: RunState,
    s2: RunState,
)
    requires
        op is NodeSetLabel || op is NodeSetState || op is ParamSetSide || op is ParamClearSide || op is OutputSetSide
            || op is OutputClearSide || op is ParamSetInline || op is ParamClearInline,
        op_step(reg, f, s0, op, s1),
        s1.chunks.len() == s0.chunks.len() + 1,
        op_step(reg, f, s1, s1.chunks.last()@[0], s2),
        s2.errors == s1.errors,
        s2.chunks.len() == s1.chunks.len() + 1,
    ensures
        same_content(s2.graph, s0.graph),
{
    let g0 = s0.graph;
    let g1 = s1.graph;
    let g2 = s2.graph;
    let u = s1.chunks.last()@[0];
    match op {
        GraphOp::NodeSetLabel { position: p, label } => {
            assert(node_failure(g0, "node_set_label"@, p) is None);
            assert(is_set_label(u, p, g0.nodes.as_map()[p].label));
            assert(node_failure(g1, "node_set_label"@, p) is None);
            lemma_replaced_twice(g0, g1, g2, p);
        },
        GraphOp::NodeSetState { position: p, state } => {
            assert(node_failure(g0, "node_set_state"@, p) is None);
            assert(is_set_state(u, p, g0.nodes.as_map()[p].node_state));
            assert(node_failure(g1, "node_set_state"@, p) is None);
            lemma_replaced_twice(g0, g1, g2, p);
        },
        GraphOp::ParamSetSide { position: p, param_id, side } => {
            let id = param_id@;
            assert(node_piece_failure(reg, g0, "param_set_side"@, p) is None);
            let sides = g0.nodes.as_map()[p].input_sides.as_map();
            if sides.contains_key(id) {
                assert(is_param_set_side(u, p, id, sides[id]));
                assert(node_piece_failure(reg, g1, "param_set_side"@, p) is None);
                assert(g2.nodes.as_map()[p].input_sides.as_map() =~= sides);
            } else {
                assert(is_param_clear_side(u, p, id));
                assert(node_piece_failure(reg, g1, "param_clear_side"@, p) is None);
                assert(g2.nodes.as_map()[p].input_sides.as_map() =~= sides);
            }
            lemma_replaced_twice(g0, g1, g2, p);
        },
        GraphOp::ParamClearSide { position: p, param_id } => {
            let id = param_id@;
            assert(node_piece_failure(reg, g0, "param_clear_side"@, p) is None);
            let sides = g0.nodes.as_map()[p].input_sides.as_map();
            assert(is_param_set_side(u, p, id, sides[id]));
            assert(node_piece_failure(reg, g1, "param_set_side"@, p) is None);
            assert(g2.nodes.as_map()[p].input_sides.as_map() =~= sides);
            lemma_replaced_twice(g0, g1, g2, p);
        },
        GraphOp::OutputSetSide { position: p, side } => {
            assert(node_piece_failure(reg, g0, "output_set_side"@, p) is None);
            let prev = g0.nodes.as_map()[p].output_side;
            match prev {
                Some(ps) => {
                    assert(is_output_set_side(u, p, ps));
                    assert(node_piece_failure(reg, g1, "output_set_side"@, p) is None);
                },
                None => {
                    assert(is_output_clear_side(u, p));
                    assert(node_piece_failure(reg, g1, "output_clear_side"@, p) is None);
                },
            }
            lemma_replaced_twice(g0, g1, g2, p);
        },
        GraphOp::OutputClearSide { position: p } => {
            assert(node_piece_failure(reg, g0, "output_clear_side"@, p) is None);
            let prev = g0.nodes.as_map()[p].output_side;
            assert(is_output_set_side(u, p, prev->0));
            assert(node_piece_failure(reg, g1, "output_set_side"@, p) is None);
            lemma_replaced_twice(g0, g1, g2, p);
        },
        GraphOp::ParamSetInline { position: p, param_id, value } => {
            let id = param_id@;
            assert(node_piece_failure(reg, g0, "param_set_inline"@, p) is None);
            let values = g0.nodes.as_map()[p].inline_params.as_map();
            if values.contains_key(id) {
                assert(is_param_set_inline(u, p, id, values[id]));
                assert(node_piece_failure(reg, g1, "param_set_inline"@, p) is None);
                assert(g2.nodes.as_map()[p].inline_params.as_map() =~= values);
            } else {
                assert(is_param_clear_inline(u, p, id));
                assert(node_piece_failure(reg, g1, "param_clear_inline"@, p) is None);
                assert(g2.nodes.as_map()[p].inline_params.as_map() =~= values);
            }
            lemma_replaced_twice(g0, g1, g2, p);
        },
        GraphOp::ParamClearInline { position: p, param_id } => {
            let id = param_id@;
            assert(node_piece_failure(reg, g0, "param_clear_inline"@, p) is None);
            let values = g0.nodes.as_map()[p].inline_params.as_map();
            assert(is_param_set_inline(u, p, id, values[id]));
            assert(node_piece_failure(reg, g1, "param_set_inline"@, p) is None);
            assert(g2.nodes.as_map()[p].inline_params.as_map() =~= values);
            lemma_replaced_twice(g0, g1, g2, p);
        },
        _ => {},
    }
}

/// Connecting or disconnecting an edge, followed by the operation of its
/// undo chunk, when that operation records no error, gives back a graph
/// with the same content.
proof fn lemma_edge_edit_undone<F: Fn(&str, &str, &serde_json::Value) -> bool>(
    reg: PieceRegistry,
    f: F,
    s0: RunState,
    op: GraphOp,
    s1: RunState,
    s2: RunState,
)
    requires
        op is EdgeConnect || op is EdgeDisconnect,
        keyed_by_id(s0.graph),
        op_step(reg, f, s0, op, s1),
        s1.chunks.len() == s0.chunks.len() + 1,
        op_step(reg, f, s1, s1.chunks.last()@[0], s2),
        s2.errors == s1.errors,
    ensures
        same_content(s2.graph, s0.graph),
{
    let g0 = s0.graph;
    let g1 = s1.graph;
    let g2 = s2.graph;
    let u = s1.chunks.last()@[0];
    match op {
        GraphOp::EdgeConnect { edge_id, from, to_node, to_param } => {
            let fresh = choose|fresh: u128|
                edge_connect_step(
                    reg,
                    g0,
                    edge_id,
                    from,
                    to_node,
                    to_param@,
                    fresh,
                    g1,
                    s0.errors,
                    s1.errors,
                    s0.outcome,
                    s1.outcome,
                    s0.chunks,
                    s1.chunks,
                );
            let id = connect_id(edge_id, fresh);
            assert(connect_errors(reg, g0, edge_id, from, to_node, to_param@, fresh).len() == 0);
            assert(disconnects(u, id));
            assert(g1.edges.as_map().contains_key(id));
            assert(!g0.edges.as_map().contains_key(id));
            assert(g2.edges.as_map() =~= g0.edges.as_map());
            assert(g2.nodes.as_map().dom() =~= g0.nodes.as_map().dom());
        },
        GraphOp::EdgeDisconnect { edge_id } => {
            let id = edge_id@;
            assert(g0.edges.as_map().contains_key(id));
            let e = g0.edges.as_map()[id];
            assert(reconnects(u, e@));
            match u {
                GraphOp::EdgeConnect { edge_id: uid, from, to_node, to_param } => {
                    let fresh = choose|fresh: u128|
                        edge_connect_step(
                            reg,
                            g1,
                            uid,
                            from,
                            to_node,
                            to_param@,
                            fresh,
                            g2,
                            s1.errors,
                            s2.errors,
                            s1.outcome,
                            s2.outcome,
                            s1.chunks,
                            s2.chunks,
                        );
                    assert(connect_id(uid, fresh) == id);
                    assert(connect_errors(reg, g1, uid, from, to_node, to_param@, fresh).len() == 0) by {
                        assert((s1.errors + connect_errors(reg, g1, uid, from, to_node, to_param@, fresh)).len()
                            == s1.errors.len() + connect_errors(reg, g1, uid, from, to_node, to_param@, fresh).len());
                    }
                    assert(edge_views(g2.edges.as_map()) =~= edge_views(g0.edges.as_map()));
                },
                _ => {},
            }
        },
        _ => {},
    }
}

/// Connecting an edge in a graph whose edges are stored under their own
/// ids, then running the operation of its undo chunk, records no error and
/// gives back a graph with the same content.
pub proof fn lemma_connect_undone<F: Fn(&str, &str, &serde_json::Value) -> bool>(
    reg: PieceRegistry,
    f: F,
    s0: RunState,
    op: GraphOp,
    s1: RunState,
    s2: RunState,
)
    requires
        op is EdgeConnect,
        keyed_by_id(s0.graph),
        op_step(reg, f, s0, op, s1),
        s1.chunks.len() == s0.chunks.len() + 1,
        op_step(reg, f, s1, s1.chunks.last()@[0], s2),
    ensures
        s2.errors == s1.errors,
        same_content(s2.graph, s0.graph),
{
    let g0 = s0.graph;
    let g1 = s1.graph;
    let u = s1.chunks.last()@[0];
    match op {
        GraphOp::EdgeConnect { edge_id, from, to_node, to_param } => {
            let fresh = choose|fresh: u128|
                edge_connect_step(
                    reg,
                    g0,
                    edge_id,
                    from,
                    to_node,
                    to_param@,
                    fresh,
                    g1,
                    s0.errors,
                    s1.errors,
                    s0.outcome,
                    s1.outcome,
                    s0.chunks,
                    s1.chunks,
                );
            let id = connect_id(edge_id, fresh);
            assert(connect_errors(reg, g0, edge_id, from, to_node, to_param@, fresh).len() == 0);
            assert(disconnects(u, id));
            assert(g1.edges.as_map().contains_key(id));
        },
        _ => {},
    }
    lemma_edge_edit_undone(reg, f, s0, op, s1, s2);
}

/// An edit of a node's label, state, sides or inline values, or connecting
/// or disconnecting an edge, that changed a graph whose edges are stored
/// under their own ids, followed by the operation its undo chunk holds,
/// gives back a graph with the same content whenever that operation
/// records no error and, for a node edit, changes the graph in turn.
pub proof fn lemma_edit_undone<F: Fn(&str, &str, &serde_json::Value) -> bool>(
    reg: PieceRegistry,
    f: F,
    s0: RunState,
    op: GraphOp,
    s1: RunState,
    s2: RunState,
)
    requires
        is_edit(op),
        keyed_by_id(s0.graph),
        op_step(reg, f, s0, op, s1),
        s1.chunks.len() == s0.chunks.len() + 1,
        op_step(reg, f, s1, s1.chunks.last()@[0], s2),
        s2.errors == s1.errors,
        op is EdgeConnect || op is EdgeDisconnect || s2.chunks.len() == s1.chunks.len() + 1,
    ensures
        same_content(s2.graph, s0.graph),
{
    if op is EdgeConnect || op is EdgeDisconnect {
        lemma_edge_edit_undone(reg, f, s0, op, s1, s2);
    } else {
        lemma_node_edit_undone(reg, f, s0, op, s1, s2);
    }
}

/// Setting a node's label or state, then running the operation of its undo
/// chunk, records no error and gives back a graph with the same content.
pub proof fn lemma_label_state_undone<F: Fn(&str, &str, &serde_json::Value) -> bool>(
    reg: PieceRegistry,
    f: F,
    s0: RunState,
    op: GraphOp,
    s1: RunState,
    s2: RunState,
)
    requires
        op is NodeSetLabel || op is NodeSetState,
        op_step(reg, f, s0, op, s1),
        s1.chunks.len() == s0.chunks.len() + 1,
        op_step(reg, f, s1, s1.chunks.last()@[0], s2),
    ensures
        s2.errors == s1.errors,
        same_content(s2.graph, s0.graph),
{
    let g0 = s0.graph;
    let g1 = s1.graph;
    let u = s1.chunks.last()@[0];
    match op {
        GraphOp::NodeSetLabel { position: p, label } => {
            assert(node_failure(g0, "node_set_label"@, p) is None);
            assert(g1.nodes.as_map().contains_key(p));
            assert(is_set_label(u, p, g0.nodes.as_map()[p].label));
            assert(node_failure(g1, "node_set_label"@, p) is None);
        },
        GraphOp::NodeSetState { position: p, state } => {
            assert(node_failure(g0, "node_set_state"@, p) is None);
            assert(g1.nodes.as_map().contains_key(p));
            assert(is_set_state(u, p, g0.nodes.as_map()[p].node_state));
            assert(node_failure(g1, "node_set_state"@, p) is None);
        },
        _ => {},
    }
    lemma_node_edit_undone(reg, f, s0, op, s1, s2);
}

// Edges stay under their own ids
// ---------------------------------------------------------------------------

/// Every entry of a map of edge views is stored under its own id.
pub open spec fn views_keyed(m: Map<u128, EdgeView>) -> bool {
    forall|k: u128| #[trigger] m.contains_key(k) ==> m[k].id == k
}

proof fn lemma_keyed_views(m: Map<u128, Edge>)
    ensures
        views_keyed(edge_views(m)) == (forall|k: u128| #[trigger] m.contains_key(k) ==> m[k].id@ == k),
{
    if views_keyed(edge_views(m)) {
        assert forall|k: u128| #[trigger] m.contains_key(k) implies m[k].id@ == k by {
            assert(edge_views(m).contains_key(k));
        }
    }
}

proof fn lemma_keep_keyed(m: Map<u128, Edge>, doomed: spec_fn(Edge) -> bool)
    requires
        forall|k: u128| #[trigger] m.contains_key(k) ==> m[k].id@ == k,
    ensures
        forall|k: u128| #[trigger] keep_edges(m, doomed).contains_key(k) ==> keep_edges(m, doomed)[k].id@ == k,
{
}

proof fn lemma_wire_inputs_keyed(
    g: Graph,
    reg: PieceRegistry,
    pos: GridPos,
    node: Node,
    def: PieceDef,
    edges: Map<u128, EdgeView>,
    ids: Seq<u128>,
    j: int,
)
    requires
        views_keyed(edges),
    ensures
        views_keyed(wire_inputs(g, reg, pos, node, def, edges, ids, j).0),
    decreases j,
{
    if j > 0 {
        lemma_wire_inputs_keyed(g, reg, pos, node, def, edges, ids, j - 1);
    }
}

/// Wiring keeps every edge under its own id.
proof fn lemma_auto_wired_keyed(
    g: Graph,
    reg: PieceRegistry,
    pos: GridPos,
    ids: Seq<u128>,
    edges_after: Map<u128, Edge>,
    o0: ApplyOpsOutcome,
    o1: ApplyOpsOutcome,
    c0: Seq<Vec<GraphOp>>,
    c1: Seq<Vec<GraphOp>>,
)
    requires
        keyed_by_id(g),
        auto_wired(g, reg, pos, ids, edges_after, o0, o1, c0, c1),
    ensures
        forall|k: u128| #[trigger] edges_after.contains_key(k) ==> edges_after[k].id@ == k,
{
    match spec_auto_wire(g, reg, pos, ids) {
        None => {},
        Some(w) => {
            let node = g.nodes.as_map()[pos];
            let def = reg.defs()[node.piece_id@];
            let doomed = stale_after_rewire(g, reg, pos);
            lemma_keep_keyed(g.edges.as_map(), doomed);
            lemma_keyed_views(keep_edges(g.edges.as_map(), doomed));
            let kept = edge_views(keep_edges(g.edges.as_map(), doomed));
            lemma_wire_inputs_keyed(g, reg, pos, node, def, kept, ids, def.params@.len() as int);
            assert(views_keyed(w.edges));
            lemma_keyed_views(edges_after);
        },
    }
}

proof fn lemma_connect_keyed(
    reg: PieceRegistry,
    g0: Graph,
    edge_id: Option<EdgeId>,
    from: GridPos,
    to: GridPos,
    pid: Seq<char>,
    fresh: u128,
    g1: Graph,
    e0: Seq<DiagnosticView>,
    e1: Seq<DiagnosticView>,
    o0: ApplyOpsOutcome,
    o1: ApplyOpsOutcome,
    c0: Seq<Vec<GraphOp>>,
    c1: Seq<Vec<GraphOp>>,
)
    requires
        keyed_by_id(g0),
        edge_connect_step(reg, g0, edge_id, from, to, pid, fresh, g1, e0, e1, o0, o1, c0, c1),
    ensures
        keyed_by_id(g1),
{
}

/// Every operation keeps each edge stored under its own id.
proof fn lemma_step_keeps_keyed<F: Fn(&str, &str, &serde_json::Value) -> bool>(
    reg: PieceRegistry,
    f: F,
    s0: RunState,
    op: GraphOp,
    s1: RunState,
)
    requires
        keyed_by_id(s0.graph),
        op_step(reg, f, s0, op, s1),
    ensures
        keyed_by_id(s1.graph),
{
    let g0 = s0.graph;
    let g1 = s1.graph;
    match op {
        GraphOp::NodeMove { from, to } => {
            let gm = choose|gm: Graph|
                node_move_step(
                    reg,
                    g0,
                    from,
                    to,
                    gm,
                    g1,
                    s0.errors,
                    s1.errors,
                    s0.outcome,
                    s1.outcome,
                    s0.chunks,
                    s1.chunks,
                );
            if from != to && spec_in_bounds(g0, from) && spec_in_bounds(g0, to) && !g0.nodes.as_map().contains_key(to)
                && g0.nodes.as_map().contains_key(from) {
                assert(keyed_by_id(gm));
            }
        },
        GraphOp::NodeSwap { a, b } => {
            let (gm, gp) = choose|gm: Graph, gp: Graph|
                node_swap_step(
                    reg,
                    g0,
                    a,
                    b,
                    gm,
                    gp,
                    g1,
                    s0.errors,
                    s1.errors,
                    s0.outcome,
                    s1.outcome,
                    s0.chunks,
                    s1.chunks,
                );
            if a != b && spec_in_bounds(g0, a) && spec_in_bounds(g0, b) && g0.nodes.as_map().contains_key(a)
                && g0.nodes.as_map().contains_key(b) {
                assert(keyed_by_id(gm));
                assert(keyed_by_id(gp));
            }
        },
        GraphOp::EdgeConnect { edge_id, from, to_node, to_param } => {
            let fresh = choose|fresh: u128|
                edge_connect_step(
                    reg,
                    g0,
                    edge_id,
                    from,
                    to_node,
                    to_param@,
                    fresh,
                    g1,
                    s0.errors,
                    s1.errors,
                    s0.outcome,
                    s1.outcome,
                    s0.chunks,
                    s1.chunks,
                );
            lemma_connect_keyed(
                reg,
                g0,
                edge_id,
                from,
                to_node,
                to_param@,
                fresh,
                g1,
                s0.errors,
                s1.errors,
                s0.outcome,
                s1.outcome,
                s0.chunks,
                s1.chunks,
            );
        },
        GraphOp::NodeAutoWire { position } => {
            let ids = choose|ids: Seq<u128>| node_auto_wire_step(reg, s0, position, ids, s1);
            if node_failure(g0, "node_auto_wire"@, position) is None {
                lemma_auto_wired_keyed(
                    g0,
                    reg,
                    position,
                    ids,
                    g1.edges.as_map(),
                    s0.outcome,
                    s1.outcome,
                    s0.chunks,
                    s1.chunks,
                );
            }
        },
        GraphOp::NodeBatchPlace { nodes, edges, auto_wire } => {
            let (okss, placed, conn, fresh, wired, wids) = choose|
                okss: Seq<Seq<bool>>,
                placed: RunState,
                conn: Seq<RunState>,
                fresh: Seq<u128>,
                wired: Seq<RunState>,
                wids: Seq<Seq<u128>>,
            | batch_place_step(reg, f, s0, nodes@, edges@, auto_wire, okss, placed, conn, fresh, wired, wids, s1);
            if batch_errors(reg, g0, nodes@, okss, nodes@.len()).len() == 0 {
                assert(keyed_by_id(placed.graph));
                let n = edges@.len();
                assert forall|i: int| 0 <= i <= n implies #[trigger] keyed_by_id(conn[i].graph) by {
                    lemma_connect_chain_keyed(reg, edges@, fresh, conn, i);
                }
                if auto_wire {
                    assert forall|i: int| 0 <= i <= nodes@.len() implies #[trigger] keyed_by_id(wired[i].graph) by {
                        lemma_wire_chain_keyed(reg, nodes@, wids, wired, i);
                    }
                }
            }
        },
        _ => {},
    }
}

proof fn lemma_connect_chain_keyed(
    reg: PieceRegistry,
    edges: Seq<BatchPlaceEdge>,
    fresh: Seq<u128>,
    ss: Seq<RunState>,
    i: int,
)
    requires
        connect_chain(reg, edges, fresh, ss),
        keyed_by_id(ss[0].graph),
        0 <= i <= edges.len(),
    ensures
        keyed_by_id(ss[i].graph),
    decreases i,
{
    if i > 0 {
        lemma_connect_chain_keyed(reg, edges, fresh, ss, i - 1);
        let t = i - 1;
        assert(edge_connect_step(
            reg,
            ss[t].graph,
            None,
            edges[t].from,
            edges[t].to_node,
            edges[t].to_param@,
            fresh[t],
            ss[t + 1].graph,
            ss[t].errors,
            ss[t + 1].errors,
            ss[t].outcome,
            ss[t + 1].outcome,
            ss[t].chunks,
            ss[t + 1].chunks,
        ));
        lemma_connect_keyed(
            reg,
            ss[t].graph,
            None,
            edges[t].from,
            edges[t].to_node,
            edges[t].to_param@,
            fresh[t],
            ss[t + 1].graph,
            ss[t].errors,
            ss[t + 1].errors,
            ss[t].outcome,
            ss[t + 1].outcome,
            ss[t].chunks,
            ss[t + 1].chunks,
        );
    }
}

proof fn lemma_wire_chain_keyed(
    reg: PieceRegistry,
    entries: Seq<BatchPlaceEntry>,
    ids: Seq<Seq<u128>>,
    ss: Seq<RunState>,
    i: int,
)
    requires
        wire_chain(reg, entries, ids, ss),
        keyed_by_id(ss[0].graph),
        0 <= i <= entries.len(),
    ensures
        keyed_by_id(ss[i].graph),
    decreases i,
{
    if i > 0 {
        lemma_wire_chain_keyed(reg, entries, ids, ss, i - 1);
        let t = i - 1;
        assert(wire_step(reg, ss[t], entries[t].position, ids[t], ss[t + 1]));
        lemma_auto_wired_keyed(
            ss[t].graph,
            reg,
            entries[t].position,
            ids[t],
            ss[t + 1].graph.edges.as_map(),
            ss[t].outcome,
            ss[t + 1].outcome,
            ss[t].chunks,
            ss[t + 1].chunks,
        );
    }
}

/// Applying operations to a graph whose edges are stored under their own
/// ids keeps them so: in every state of the run.
pub proof fn lemma_run_keeps_edges_keyed<F: Fn(&str, &str, &serde_json::Value) -> bool>(
    reg: PieceRegistry,
    f: F,
    ops: Seq<GraphOp>,
    ss: Seq<RunState>,
    i: int,
)
    requires
        run_ops(reg, f, ops, ss),
        keyed_by_id(ss[0].graph),
        0 <= i <= ops.len(),
    ensures
        keyed_by_id(ss[i].graph),
    decreases i,
{
    if i > 0 {
        lemma_run_keeps_edges_keyed(reg, f, ops, ss, i - 1);
        assert(op_step(reg, f, ss[i - 1], ops[i - 1], ss[i]));
        lemma_step_keeps_keyed(reg, f, ss[i - 1], ops[i - 1], ss[i]);
    }
}

// Refused operations
// ---------------------------------------------------------------------------

/// An operation other than a batch placement that records an error changes
/// nothing else: the graph, the outcome and the undo chunks stay as they
/// were.
pub proof fn lemma_refused_op_changes_nothing<F: Fn(&str, &str, &serde_json::Value) -> bool>(
    reg: PieceRegistry,
    f: F,
    s0: RunState,
    op: GraphOp,
    s1: RunState,
)
    requires
        !(op is NodeBatchPlace),
        op_step(reg, f, s0, op, s1),
        s1.errors != s0.errors,
    ensures
        s1.graph == s0.graph,
        s1.outcome == s0.outcome,
        s1.chunks == s0.chunks,
{
    let g0 = s0.graph;
    let g1 = s1.graph;
    match op {
        GraphOp::NodePlace { position, piece_id, inline_params } => {
            let oks = choose|oks: Seq<bool>|
                node_place_step(
                    reg,
                    f,
                    g0,
                    position,
                    piece_id,
                    inline_params,
                    oks,
                    g1,
                    s0.errors,
                    s1.errors,
                    s0.outcome,
                    s1.outcome,
                    s0.chunks,
                    s1.chunks,
                );
        },
        GraphOp::NodeMove { from, to } => {
            let gm = choose|gm: Graph|
                node_move_step(
                    reg,
                    g0,
                    from,
                    to,
                    gm,
                    g1,
                    s0.errors,
                    s1.errors,
                    s0.outcome,
                    s1.outcome,
                    s0.chunks,
                    s1.chunks,
                );
        },
        GraphOp::NodeSwap { a, b } => {
            let (gm, gp) = choose|gm: Graph, gp: Graph|
                node_swap_step(
                    reg,
                    g0,
                    a,
                    b,
                    gm,
                    gp,
                    g1,
                    s0.errors,
                    s1.errors,
                    s0.outcome,
                    s1.outcome,
                    s0.chunks,
                    s1.chunks,
                );
        },
        GraphOp::EdgeConnect { edge_id, from, to_node, to_param } => {
            let fresh = choose|fresh: u128|
                edge_connect_step(
                    reg,
                    g0,
                    edge_id,
                    from,
                    to_node,
                    to_param@,
                    fresh,
                    g1,
                    s0.errors,
                    s1.errors,
                    s0.outcome,
                    s1.outcome,
                    s0.chunks,
                    s1.chunks,
                );
        },
        GraphOp::ParamSetInline { position, param_id, value } => {
            let (ok, same) = choose|ok: bool, same: bool|
                param_set_inline_step(
                    reg,
                    f,
                    g0,
                    position,
                    param_id@,
                    value,
                    ok,
                    same,
                    g1,
                    s0.errors,
                    s1.errors,
                    s0.outcome,
                    s1.outcome,
                    s0.chunks,
                    s1.chunks,
                );
        },
        GraphOp::NodeAutoWire { position } => {
            let ids = choose|ids: Seq<u128>| node_auto_wire_step(reg, s0, position, ids, s1);
        },
        _ => {},
    }
}

/// Placing a node at a cell no edge touches, followed by the removal its
/// undo chunk holds, gives back a graph with the same content.
pub proof fn lemma_place_undone<F: Fn(&str, &str, &serde_json::Value) -> bool>(
    reg: PieceRegistry,
    f: F,
    s0: RunState,
    op: GraphOp,
    s1: RunState,
    s2: RunState,
)
    requires
        op is NodePlace,
        forall|k: u128| #[trigger] s0.graph.edges.as_map().contains_key(k) ==> !touches(s0.graph.edges.as_map()[k], op->NodePlace_position),
        op_step(reg, f, s0, op, s1),
        s1.chunks.len() == s0.chunks.len() + 1,
        op_step(reg, f, s1, s1.chunks.last()@[0], s2),
    ensures
        same_content(s2.graph, s0.graph),
{
    let g0 = s0.graph;
    let g1 = s1.graph;
    let g2 = s2.graph;
    match op {
        GraphOp::NodePlace { position: p, piece_id, inline_params } => {
            let oks = choose|oks: Seq<bool>|
                node_place_step(
                    reg,
                    f,
                    g0,
                    p,
                    piece_id,
                    inline_params,
                    oks,
                    g1,
                    s0.errors,
                    s1.errors,
                    s0.outcome,
                    s1.outcome,
                    s0.chunks,
                    s1.chunks,
                );
            let u = s1.chunks.last()@[0];
            assert(is_node_remove(u, p));
            assert(spec_in_bounds(g1, p));
            assert(g1.nodes.as_map().contains_key(p));
            assert(g2.nodes.as_map() =~= g0.nodes.as_map());
            assert(keep_edges(g1.edges.as_map(), touching(p)) =~= g0.edges.as_map());
        },
        _ => {},
    }
}

// Undoing a swap
// ---------------------------------------------------------------------------

/// The views of `m` with the edges `es` added in order, each under its id.
pub open spec fn add_views(m: Map<u128, EdgeView>, es: Seq<EdgeView>) -> Map<u128, EdgeView>
    decreases es.len(),
{
    if es.len() == 0 {
        m
    } else {
        add_views(m, es.drop_last()).insert(es.last().id, es.last())
    }
}

/// Adding edges that agree with `t` to a map that agrees with `t` gives a
/// map that agrees with `t` and holds the ids of both.
pub(crate) proof fn lemma_add_views_agree(m: Map<u128, EdgeView>, es: Seq<EdgeView>, t: Map<u128, EdgeView>)
    requires
        forall|k: u128| #[trigger] m.contains_key(k) ==> t.contains_key(k) && t[k] == m[k],
        forall|j: int| 0 <= j < es.len() ==> t.contains_key(#[trigger] es[j].id) && t[es[j].id] == es[j],
    ensures
        forall|k: u128|
            #[trigger] add_views(m, es).contains_key(k) ==> t.contains_key(k) && t[k] == add_views(m, es)[k],
        forall|k: u128| #[trigger] m.contains_key(k) ==> add_views(m, es).contains_key(k),
        forall|j: int| 0 <= j < es.len() ==> add_views(m, es).contains_key(#[trigger] es[j].id),
    decreases es.len(),
{
    if es.len() > 0 {
        let prev = es.drop_last();
        assert forall|j: int| 0 <= j < prev.len() implies t.contains_key(#[trigger] prev[j].id) && t[prev[j].id]
            == prev[j] by {
            assert(prev[j] == es[j]);
        }
        lemma_add_views_agree(m, prev, t);
        let last = es[es.len() - 1];
        assert(es.last() == last);
        assert(add_views(m, es) == add_views(m, prev).insert(last.id, last));
        assert(t.contains_key(last.id) && t[last.id] == last);
        assert forall|j: int| 0 <= j < es.len() implies add_views(m, es).contains_key(#[trigger] es[j].id) by {
            if j < es.len() - 1 {
                assert(prev[j] == es[j]);
            }
        }
    }
}

/// Every item of a filtered sequence is an item of the sequence.
proof fn lemma_filter_from<A>(s: Seq<A>, p: spec_fn(A) -> bool, x: A)
    requires
        s.filter(p).contains(x),
    ensures
        s.contains(x),
        p(x),
    decreases s.len(),
{
    reveal(Seq::filter);
    s.filter_lemma(p);
    if s.len() > 0 {
        let last = s.last();
        let rest = s.drop_last();
        if p(last) && x == last {
            assert(s[s.len() - 1] == x);
        } else {
            assert(rest.filter(p).contains(x)) by {
                let i = choose|i: int| 0 <= i < s.filter(p).len() && s.filter(p)[i] == x;
                if p(last) {
                    assert(s.filter(p) == rest.filter(p).push(last));
                    if i == rest.filter(p).len() {
                        assert(x == last);
                    } else {
                        assert(rest.filter(p)[i] == x);
                    }
                } else {
                    assert(s.filter(p) == rest.filter(p));
                }
            }
            lemma_filter_from(rest, p, x);
            let k = choose|k: int| 0 <= k < rest.len() && rest[k] == x;
            assert(s[k] == x);
        }
    }
}

/// The edges a filter keeps from a sorted map of edges are its entries.
pub(crate) proof fn lemma_filtered_entry(m: SortedMap<EdgeId, Edge>, p: spec_fn(Edge) -> bool, x: Edge)
    requires
        m.keys_sorted(),
        m.key_seq().len() == m.value_seq().len(),
        m.value_seq().filter(p).contains(x),
    ensures
        exists|k: u128| #[trigger] m.as_map().contains_key(k) && m.as_map()[k] == x && p(x),
{
    lemma_filter_from(m.value_seq(), p, x);
    let i = choose|i: int| 0 <= i < m.value_seq().len() && m.value_seq()[i] == x;
    m.lemma_value_of_key(i);
    assert(m.as_map().contains_key(m.key_seq()[i]));
}

/// An entry of a sorted map of edges that satisfies the filter is kept by it.
pub(crate) proof fn lemma_entry_filtered(m: SortedMap<EdgeId, Edge>, p: spec_fn(Edge) -> bool, k: u128)
    requires
        m.keys_sorted(),
        m.key_seq().len() == m.value_seq().len(),
        m.as_map().contains_key(k),
        p(m.as_map()[k]),
    ensures
        m.value_seq().filter(p).contains(m.as_map()[k]),
{
    m.lemma_keys_in_map();
    let i = choose|i: int| 0 <= i < m.key_seq().len() && m.key_seq()[i] == k;
    m.lemma_value_of_key(i);
    m.value_seq().filter_lemma(p);
}

/// A run of reconnect operations, from index `start` of `ops`, adds the
/// edges `es` when none of them records an error.
pub(crate) proof fn lemma_reconnect_chain<F: Fn(&str, &str, &serde_json::Value) -> bool>(
    reg: PieceRegistry,
    f: F,
    ops: Seq<GraphOp>,
    ss: Seq<RunState>,
    start: int,
    es: Seq<EdgeView>,
    n: int,
)
    requires
        run_ops(reg, f, ops, ss),
        0 <= start,
        start + es.len() == ops.len(),
        forall|j: int| 0 <= j < es.len() ==> reconnects(#[trigger] ops[start + j], es[j]),
        forall|i: int| 0 <= i < ss.len() ==> #[trigger] ss[i].errors == ss[0].errors,
        0 <= n <= es.len(),
    ensures
        ss[start + n].graph.nodes == ss[start].graph.nodes,
        ss[start + n].graph.name == ss[start].graph.name,
        ss[start + n].graph.cols == ss[start].graph.cols,
        ss[start + n].graph.rows == ss[start].graph.rows,
        edge_views(ss[start + n].graph.edges.as_map()) == add_views(
            edge_views(ss[start].graph.edges.as_map()),
            es.take(n),
        ),
    decreases n,
{
    if n == 0 {
        assert(es.take(0) =~= Seq::<EdgeView>::empty());
    } else {
        lemma_reconnect_chain(reg, f, ops, ss, start, es, n - 1);
        let i = start + n - 1;
        let op = ops[i];
        assert(reconnects(ops[start + (n - 1)], es[n - 1]));
        assert(op_step(reg, f, ss[i], ops[i], ss[i + 1]));
        let s0 = ss[i];
        let s1 = ss[i + 1];
        assert(s0.errors == ss[0].errors);
        assert(s1.errors == ss[0].errors);
        match op {
            GraphOp::EdgeConnect { edge_id, from, to_node, to_param } => {
                let fresh = choose|fresh: u128|
                    edge_connect_step(
                        reg,
                        s0.graph,
                        edge_id,
                        from,
                        to_node,
                        to_param@,
                        fresh,
                        s1.graph,
                        s0.errors,
                        s1.errors,
                        s0.outcome,
                        s1.outcome,
                        s0.chunks,
                        s1.chunks,
                    );
                let errs = connect_errors(reg, s0.graph, edge_id, from, to_node, to_param@, fresh);
                assert(errs.len() == 0) by {
                    if errs.len() > 0 {
                        assert((s0.errors + errs).len() == s0.errors.len() + errs.len());
                    }
                }
                let id = connect_id(edge_id, fresh);
                assert(id == es[n - 1].id);
                assert(edge_views(s1.graph.edges.as_map()) =~= edge_views(s0.graph.edges.as_map()).insert(
                    es[n - 1].id,
                    es[n - 1],
                ));
                assert(es.take(n).drop_last() =~= es.take(n - 1));
                assert(es.take(n).last() == es[n - 1]);
            },
            _ => {},
        }
    }
}

/// Swapping two nodes, then running the operations of its undo chunk,
/// gives back a graph with the same content, when the graph's edges are
/// stored under their own ids, every edge at either cell comes from the
/// right neighbour, and no undo operation records an error.
pub proof fn lemma_swap_undone<F: Fn(&str, &str, &serde_json::Value) -> bool>(
    reg: PieceRegistry,
    f: F,
    s0: RunState,
    op: GraphOp,
    s1: RunState,
    ss: Seq<RunState>,
)
    requires
        op is NodeSwap,
        keyed_by_id(s0.graph),
        forall|k: u128|
            #[trigger] s0.graph.edges.as_map().contains_key(k) && (touches(s0.graph.edges.as_map()[k], op->a)
                || touches(s0.graph.edges.as_map()[k], op->b)) ==> spec_edge_still_adjacent(
                s0.graph,
                reg,
                s0.graph.edges.as_map()[k],
            ),
        op_step(reg, f, s0, op, s1),
        s1.chunks.len() == s0.chunks.len() + 1,
        run_ops(reg, f, s1.chunks.last()@, ss),
        ss[0] == s1,
        forall|i: int| 0 <= i < ss.len() ==> #[trigger] ss[i].errors == s1.errors,
    ensures
        same_content(ss.last().graph, s0.graph),
{
    let g0 = s0.graph;
    let g1 = s1.graph;
    let a = op->a;
    let b = op->b;
    let (gm, gp) = choose|gm: Graph, gp: Graph|
        node_swap_step(
            reg,
            g0,
            a,
            b,
            gm,
            gp,
            g1,
            s0.errors,
            s1.errors,
            s0.outcome,
            s1.outcome,
            s0.chunks,
            s1.chunks,
        );
    assert(a != b && spec_in_bounds(g0, a) && spec_in_bounds(g0, b) && g0.nodes.as_map().contains_key(a)
        && g0.nodes.as_map().contains_key(b));
    let sa = stale_after_move(gm, reg, a);
    let sb = stale_after_move(gp, reg, b);
    let r = gm.edges.value_seq().filter(sa) + gp.edges.value_seq().filter(sb);
    let u = s1.chunks.last()@;
    let m0 = g0.edges.as_map();
    let m1 = g1.edges.as_map();
    // The swap back.
    assert(op_step(reg, f, ss[0], u[0], ss[1]));
    let (gm2, gp2) = choose|gm2: Graph, gp2: Graph|
        node_swap_step(
            reg,
            g1,
            a,
            b,
            gm2,
            gp2,
            ss[1].graph,
            ss[0].errors,
            ss[1].errors,
            ss[0].outcome,
            ss[1].outcome,
            ss[0].chunks,
            ss[1].chunks,
        );
    assert(ss[1].errors == s1.errors);
    assert(g1.nodes.as_map().contains_key(a) && g1.nodes.as_map().contains_key(b));
    assert(gm2.nodes.as_map() =~= g0.nodes.as_map());
    // Every edge left after the swap back is an edge of the graph before.
    assert forall|k: u128| #[trigger] gm2.edges.as_map().contains_key(k) implies m0.contains_key(k)
        && gm2.edges.as_map()[k] == m0[k] by {
        assert(m1.contains_key(k));
        assert(gm.edges.as_map().contains_key(k));
        assert(gm2.edges.as_map()[k] == rewrite_edge(m1[k], a, b, true));
        assert(m1[k] == gm.edges.as_map()[k]);
        assert(gm.edges.as_map()[k] == rewrite_edge(m0[k], a, b, true));
    }
    // Nothing is pruned on the way back.
    assert(gp2.edges.as_map() =~= gm2.edges.as_map()) by {
        assert forall|k: u128| #[trigger] gm2.edges.as_map().contains_key(k) implies !stale_after_move(gm2, reg, a)(
            gm2.edges.as_map()[k],
        ) by {
            let e = gm2.edges.as_map()[k];
            assert(m0.contains_key(k) && e == m0[k]);
            if touches(e, a) {
                assert(spec_edge_still_adjacent(g0, reg, e));
            }
        }
    }
    assert(ss[1].graph.edges.as_map() =~= gm2.edges.as_map()) by {
        assert forall|k: u128| #[trigger] gp2.edges.as_map().contains_key(k) implies !stale_after_move(gp2, reg, b)(
            gp2.edges.as_map()[k],
        ) by {
            let e = gp2.edges.as_map()[k];
            assert(gm2.edges.as_map().contains_key(k));
            assert(m0.contains_key(k) && e == m0[k]);
            if touches(e, b) {
                assert(spec_edge_still_adjacent(g0, reg, e));
            }
        }
    }
    // The reconnects add back the pruned edges.
    let es = r.map_values(|e: Edge| rewrite_edge(e, a, b, true)@);
    assert forall|j: int| 0 <= j < es.len() implies reconnects(#[trigger] u[1 + j], es[j]) by {
        assert(u.skip(1)[j] == u[1 + j]);
    }
    assert forall|i: int| 0 <= i < ss.len() implies #[trigger] ss[i].errors == ss[0].errors by {}
    lemma_reconnect_chain(reg, f, u, ss, 1, es, es.len() as int);
    assert(es.take(es.len() as int) =~= es);
    let last = ss[1 + es.len() as int];
    assert(ss.len() == u.len() + 1);
    assert(last == ss.last());
    let t = edge_views(m0);
    // The re-added edges agree with the graph before.
    assert forall|j: int| 0 <= j < es.len() implies t.contains_key(#[trigger] es[j].id) && t[es[j].id] == es[j] by {
        let x = r[j];
        if j < gm.edges.value_seq().filter(sa).len() {
            assert(gm.edges.value_seq().filter(sa).contains(x)) by {
                assert(gm.edges.value_seq().filter(sa)[j] == x);
            }
            lemma_filtered_entry(gm.edges, sa, x);
            let k = choose|k: u128| #[trigger] gm.edges.as_map().contains_key(k) && gm.edges.as_map()[k] == x && sa(x);
            assert(m0.contains_key(k));
            assert(x == rewrite_edge(m0[k], a, b, true));
        } else {
            let jj = j - gm.edges.value_seq().filter(sa).len();
            assert(gp.edges.value_seq().filter(sb).contains(x)) by {
                assert(gp.edges.value_seq().filter(sb)[jj] == x);
            }
            lemma_filtered_entry(gp.edges, sb, x);
            let k = choose|k: u128| #[trigger] gp.edges.as_map().contains_key(k) && gp.edges.as_map()[k] == x && sb(x);
            assert(gm.edges.as_map().contains_key(k));
            assert(m0.contains_key(k));
            assert(x == rewrite_edge(m0[k], a, b, true));
        }
    }
    let base = edge_views(ss[1].graph.edges.as_map());
    assert forall|k: u128| #[trigger] base.contains_key(k) implies t.contains_key(k) && t[k] == base[k] by {
        assert(gm2.edges.as_map().contains_key(k));
    }
    lemma_add_views_agree(base, es, t);
    // Every edge of the graph before is back.
    assert forall|k: u128| #[trigger] t.contains_key(k) implies add_views(base, es).contains_key(k) by {
        assert(gm.edges.as_map().contains_key(k));
        let xm = gm.edges.as_map()[k];
        if m1.contains_key(k) {
            assert(gm2.edges.as_map().contains_key(k));
            assert(ss[1].graph.edges.as_map().contains_key(k));
            assert(base.contains_key(k));
        } else if sa(xm) {
            lemma_entry_filtered(gm.edges, sa, k);
            let i = choose|i: int| 0 <= i < gm.edges.value_seq().filter(sa).len() && gm.edges.value_seq().filter(sa)[i] == xm;
            assert(r[i] == xm);
            assert(es[i].id == k);
        } else {
            assert(gp.edges.as_map().contains_key(k));
            assert(gp.edges.as_map()[k] == xm);
            lemma_entry_filtered(gp.edges, sb, k);
            let i = choose|i: int| 0 <= i < gp.edges.value_seq().filter(sb).len() && gp.edges.value_seq().filter(sb)[i] == xm;
            let off = gm.edges.value_seq().filter(sa).len() as int;
            assert(r[off + i] == xm);
            assert(es[off + i].id == k);
        }
    }
    assert(add_views(base, es) =~= t);
    assert(last.graph.nodes.as_map() == gm2.nodes.as_map());
    assert forall|p: GridPos| #[trigger] last.graph.nodes.as_map().contains_key(p) implies same_node(
        last.graph.nodes.as_map()[p],
        g0.nodes.as_map()[p],
    ) by {}
    assert(last.graph.nodes.as_map().dom() =~= g0.nodes.as_map().dom());
}

/// Moving a node to an empty cell, then running the operations of its undo
/// chunk, gives back a graph with the same content, when the graph's edges
/// are stored under their own ids, no edge touches the empty cell, every
/// edge at the moved node comes from the right neighbour, and no undo
/// operation records an error.
pub proof fn lemma_move_undone<F: Fn(&str, &str, &serde_json::Value) -> bool>(
    reg: PieceRegistry,
    f: F,
    s0: RunState,
    op: GraphOp,
    s1: RunState,
    ss: Seq<RunState>,
)
    requires
        op is NodeMove,
        keyed_by_id(s0.graph),
        forall|k: u128|
            #[trigger] s0.graph.edges.as_map().contains_key(k) ==> !touches(s0.graph.edges.as_map()[k], op->NodeMove_to),
        forall|k: u128|
            #[trigger] s0.graph.edges.as_map().contains_key(k) && touches(s0.graph.edges.as_map()[k], op->NodeMove_from)
                ==> spec_edge_still_adjacent(s0.graph, reg, s0.graph.edges.as_map()[k]),
        op_step(reg, f, s0, op, s1),
        s1.chunks.len() == s0.chunks.len() + 1,
        run_ops(reg, f, s1.chunks.last()@, ss),
        ss[0] == s1,
        forall|i: int| 0 <= i < ss.len() ==> #[trigger] ss[i].errors == s1.errors,
    ensures
        same_content(ss.last().graph, s0.graph),
{
    let g0 = s0.graph;
    let g1 = s1.graph;
    let from = op->NodeMove_from;
    let to = op->NodeMove_to;
    let gm = choose|gm: Graph|
        node_move_step(
            reg,
            g0,
            from,
            to,
            gm,
            g1,
            s0.errors,
            s1.errors,
            s0.outcome,
            s1.outcome,
            s0.chunks,
            s1.chunks,
        );
    assert(from != to && spec_in_bounds(g0, from) && spec_in_bounds(g0, to) && !g0.nodes.as_map().contains_key(to)
        && g0.nodes.as_map().contains_key(from));
    let st = stale_after_move(gm, reg, to);
    let r = gm.edges.value_seq().filter(st);
    let u = s1.chunks.last()@;
    let m0 = g0.edges.as_map();
    let m1 = g1.edges.as_map();
    // The move back.
    assert(op_step(reg, f, ss[0], u[0], ss[1]));
    let gm2 = choose|gm2: Graph|
        node_move_step(
            reg,
            g1,
            to,
            from,
            gm2,
            ss[1].graph,
            ss[0].errors,
            ss[1].errors,
            ss[0].outcome,
            ss[1].outcome,
            ss[0].chunks,
            ss[1].chunks,
        );
    assert(ss[1].errors == s1.errors);
    assert(g1.nodes.as_map().contains_key(to) && !g1.nodes.as_map().contains_key(from));
    assert(gm2.nodes.as_map() =~= g0.nodes.as_map());
    assert forall|k: u128| #[trigger] gm2.edges.as_map().contains_key(k) implies m0.contains_key(k)
        && gm2.edges.as_map()[k] == m0[k] by {
        assert(m1.contains_key(k));
        assert(gm.edges.as_map().contains_key(k));
        assert(gm2.edges.as_map()[k] == rewrite_edge(m1[k], to, from, false));
        assert(m1[k] == gm.edges.as_map()[k]);
        assert(gm.edges.as_map()[k] == rewrite_edge(m0[k], from, to, false));
        assert(!touches(m0[k], to));
    }
    assert(ss[1].graph.edges.as_map() =~= gm2.edges.as_map()) by {
        assert forall|k: u128| #[trigger] gm2.edges.as_map().contains_key(k) implies !stale_after_move(gm2, reg, from)(
            gm2.edges.as_map()[k],
        ) by {
            let e = gm2.edges.as_map()[k];
            assert(m0.contains_key(k) && e == m0[k]);
            if touches(e, from) {
                assert(spec_edge_still_adjacent(g0, reg, e));
            }
        }
    }
    let es = r.map_values(|e: Edge| rewrite_edge(e, to, from, false)@);
    assert forall|j: int| 0 <= j < es.len() implies reconnects(#[trigger] u[1 + j], es[j]) by {
        assert(u.skip(1)[j] == u[1 + j]);
    }
    assert forall|i: int| 0 <= i < ss.len() implies #[trigger] ss[i].errors == ss[0].errors by {}
    lemma_reconnect_chain(reg, f, u, ss, 1, es, es.len() as int);
    assert(es.take(es.len() as int) =~= es);
    let last = ss[1 + es.len() as int];
    assert(ss.len() == u.len() + 1);
    assert(last == ss.last());
    let t = edge_views(m0);
    assert forall|j: int| 0 <= j < es.len() implies t.contains_key(#[trigger] es[j].id) && t[es[j].id] == es[j] by {
        let x = r[j];
        assert(r.contains(x)) by {
            assert(r[j] == x);
        }
        lemma_filtered_entry(gm.edges, st, x);
        let k = choose|k: u128| #[trigger] gm.edges.as_map().contains_key(k) && gm.edges.as_map()[k] == x && st(x);
        assert(m0.contains_key(k));
        assert(x == rewrite_edge(m0[k], from, to, false));
        assert(!touches(m0[k], to));
    }
    let base = edge_views(ss[1].graph.edges.as_map());
    assert forall|k: u128| #[trigger] base.contains_key(k) implies t.contains_key(k) && t[k] == base[k] by {
        assert(gm2.edges.as_map().contains_key(k));
    }
    lemma_add_views_agree(base, es, t);
    assert forall|k: u128| #[trigger] t.contains_key(k) implies add_views(base, es).contains_key(k) by {
        assert(gm.edges.as_map().contains_key(k));
        let xm = gm.edges.as_map()[k];
        if m1.contains_key(k) {
            assert(gm2.edges.as_map().contains_key(k));
            assert(ss[1].graph.edges.as_map().contains_key(k));
            assert(base.contains_key(k));
        } else {
            lemma_entry_filtered(gm.edges, st, k);
            let i = choose|i: int| 0 <= i < r.len() && r[i] == xm;
            assert(es[i].id == k);
        }
    }
    assert(add_views(base, es) =~= t);
    assert(last.graph.nodes.as_map() == gm2.nodes.as_map());
    assert(last.graph.nodes.as_map().dom() =~= g0.nodes.as_map().dom());
}

// Undoing a removal
// ---------------------------------------------------------------------------

/// The sides map built by setting `keys[t]` to `vals[t]` for each `t < i`,
/// in order.
pub open spec fn sides_from(keys: Seq<Seq<char>>, vals: Seq<TileSide>, i: int) -> Map<Seq<char>, TileSide>
    decreases i,
{
    if i <= 0 {
        Map::empty()
    } else {
        sides_from(keys, vals, i - 1).insert(keys[i - 1], vals[i - 1])
    }
}

proof fn lemma_sides_from(m: SortedMap<Name, TileSide>, i: int)
    requires
        m.keys_sorted(),
        m.key_seq().len() == m.value_seq().len(),
        0 <= i <= m.key_seq().len(),
    ensures
        forall|k: Seq<char>|
            #[trigger] sides_from(m.key_seq(), m.value_seq(), i).contains_key(k) <==> exists|t: int|
                0 <= t < i && m.key_seq()[t] == k,
        forall|t: int|
            0 <= t < i ==> sides_from(m.key_seq(), m.value_seq(), i)[#[trigger] m.key_seq()[t]] == m.value_seq()[t],
    decreases i,
{
    let ks = m.key_seq();
    let vs = m.value_seq();
    if i > 0 {
        lemma_sides_from(m, i - 1);
        let prev = sides_from(ks, vs, i - 1);
        assert forall|k: Seq<char>| #[trigger] sides_from(ks, vs, i).contains_key(k) <==> exists|t: int|
            0 <= t < i && ks[t] == k by {
            if k == ks[i - 1] {
                assert(ks[i - 1] == k);
            } else if prev.contains_key(k) {
                let t = choose|t: int| 0 <= t < i - 1 && ks[t] == k;
            }
        }
        assert forall|t: int| 0 <= t < i implies sides_from(ks, vs, i)[#[trigger] ks[t]] == vs[t] by {
            if t < i - 1 {
                assert(Name::key_lt(ks[t], ks[i - 1]));
                if ks[t] == ks[i - 1] {
                    Name::lemma_key_lt_irreflexive(ks[t]);
                }
            }
        }
    }
}

/// A sorted sides map is the map built from its keys and values.
pub(crate) proof fn lemma_sides_from_all(m: SortedMap<Name, TileSide>)
    requires
        m.keys_sorted(),
        m.key_seq().len() == m.value_seq().len(),
    ensures
        sides_from(m.key_seq(), m.value_seq(), m.key_seq().len() as int) == m.as_map(),
{
    let n = m.key_seq().len() as int;
    lemma_sides_from(m, n);
    m.lemma_keys_in_map();
    let built = sides_from(m.key_seq(), m.value_seq(), n);
    assert forall|k: Seq<char>| #[trigger] built.contains_key(k) == m.as_map().contains_key(k) by {
        if built.contains_key(k) {
            let t = choose|t: int| 0 <= t < n && m.key_seq()[t] == k;
        }
        if m.as_map().contains_key(k) {
            let t = choose|t: int| 0 <= t < n && m.key_seq()[t] == k;
        }
    }
    assert forall|k: Seq<char>| #[trigger] built.contains_key(k) implies built[k] == m.as_map()[k] by {
        let t = choose|t: int| 0 <= t < n && m.key_seq()[t] == k;
        m.lemma_value_of_key(t);
    }
    assert(built =~= m.as_map());
}

/// The node at `p` after the sides phase of a restore: the run from index
/// `start` sets the sides of `n` in key order without recording an error.
pub(crate) proof fn lemma_sides_phase<F: Fn(&str, &str, &serde_json::Value) -> bool>(
    reg: PieceRegistry,
    f: F,
    ops: Seq<GraphOp>,
    ss: Seq<RunState>,
    start: int,
    p: GridPos,
    n: Node,
    i: int,
)
    requires
        run_ops(reg, f, ops, ss),
        forall|j: int| 0 <= j < ss.len() ==> #[trigger] ss[j].errors == ss[0].errors,
        n.input_sides.keys_sorted(),
        n.input_sides.key_seq().len() == n.input_sides.value_seq().len(),
        0 <= start,
        start + n.input_sides.key_seq().len() <= ops.len(),
        forall|t: int|
            0 <= t < n.input_sides.key_seq().len() ==> is_param_set_side(
                ops[start + t],
                p,
                #[trigger] n.input_sides.key_seq()[t],
                n.input_sides.value_seq()[t],
            ),
        ss[start].graph.nodes.as_map().contains_key(p),
        ss[start].graph.nodes.as_map()[p].input_sides.as_map() == Map::<Seq<char>, TileSide>::empty(),
        0 <= i <= n.input_sides.key_seq().len(),
    ensures
        ss[start + i].graph.nodes.as_map().dom() == ss[start].graph.nodes.as_map().dom(),
        forall|q: GridPos|
            q != p && #[trigger] ss[start].graph.nodes.as_map().contains_key(q) ==> ss[start + i].graph.nodes.as_map()[q]
                == ss[start].graph.nodes.as_map()[q],
        same_but_sides(ss[start].graph.nodes.as_map()[p], ss[start + i].graph.nodes.as_map()[p]),
        ss[start + i].graph.nodes.as_map()[p].input_sides.as_map() == sides_from(
            n.input_sides.key_seq(),
            n.input_sides.value_seq(),
            i,
        ),
        ss[start + i].graph.edges.as_map() == ss[start].graph.edges.as_map(),
        ss[start + i].graph.name == ss[start].graph.name,
        ss[start + i].graph.cols == ss[start].graph.cols,
        ss[start + i].graph.rows == ss[start].graph.rows,
    decreases i,
{
    let ks = n.input_sides.key_seq();
    let vs = n.input_sides.value_seq();
    if i == 0 {
        assert(sides_from(ks, vs, 0) =~= Map::<Seq<char>, TileSide>::empty());
    } else {
        lemma_sides_phase(reg, f, ops, ss, start, p, n, i - 1);
        lemma_sides_from(n.input_sides, i - 1);
        let j = start + i - 1;
        let s0 = ss[j];
        let s1 = ss[j + 1];
        assert(is_param_set_side(ops[start + (i - 1)], p, ks[i - 1], vs[i - 1]));
        assert(op_step(reg, f, ss[j], ops[j], ss[j + 1]));
        assert(s0.errors == ss[0].errors);
        assert(s1.errors == ss[0].errors);
        let sides = s0.graph.nodes.as_map()[p].input_sides.as_map();
        assert(!sides.contains_key(ks[i - 1])) by {
            if sides.contains_key(ks[i - 1]) {
                let target = ks[i - 1];
                let t = choose|t: int| 0 <= t < i - 1 && #[trigger] ks[t] == target;
                assert(Name::key_lt(ks[t], ks[i - 1]));
                Name::lemma_key_lt_irreflexive(ks[t]);
            }
        }
        assert(s1.graph.nodes.as_map().dom() =~= s0.graph.nodes.as_map().dom());
    }
}

/// Removing a node, then running the operations of its undo chunk, gives
/// back a graph with the same content, when the graph's edges are stored
/// under their own ids and no undo operation records an error.
pub proof fn lemma_remove_undone<F: Fn(&str, &str, &serde_json::Value) -> bool>(
    reg: PieceRegistry,
    f: F,
    s0: RunState,
    op: GraphOp,
    s1: RunState,
    ss: Seq<RunState>,
)
    requires
        op is NodeRemove,
        keyed_by_id(s0.graph),
        op_step(reg, f, s0, op, s1),
        s1.chunks.len() == s0.chunks.len() + 1,
        run_ops(reg, f, s1.chunks.last()@, ss),
        ss[0] == s1,
        forall|i: int| 0 <= i < ss.len() ==> #[trigger] ss[i].errors == s1.errors,
    ensures
        same_content(ss.last().graph, s0.graph),
{
    let g0 = s0.graph;
    let g1 = s1.graph;
    let p = op->NodeRemove_position;
    assert(node_failure(g0, "node_remove"@, p) is None);
    let n = g0.nodes.as_map()[p];
    let gone = g0.edges.value_seq().filter(touching(p));
    let u = s1.chunks.last()@;
    let r = restore_len(n) as int;
    let a: int = if n.label is Some {
        1
    } else {
        0
    };
    let b: int = if n.node_state is Some {
        1
    } else {
        0
    };
    let k: int = n.input_sides.key_seq().len() as int;
    let c: int = if n.output_side is Some {
        1
    } else {
        0
    };
    let place = u.take(r);
    assert(restores_node(place, p, n));
    assert(forall|j: int| 0 <= j < r ==> place[j] == u[j]);
    assert forall|j: int| 0 <= j < ss.len() implies #[trigger] ss[j].errors == ss[0].errors by {}
    // Placing the node again.
    assert(op_step(reg, f, ss[0], u[0], ss[1]));
    assert(is_node_place(u[0], p, n.piece_id, n.inline_params.as_map()));
    let s_a = ss[1];
    match u[0] {
        GraphOp::NodePlace { position, piece_id, inline_params } => {
            let oks = choose|oks: Seq<bool>|
                node_place_step(
                    reg,
                    f,
                    g1,
                    position,
                    piece_id,
                    inline_params,
                    oks,
                    s_a.graph,
                    ss[0].errors,
                    s_a.errors,
                    ss[0].outcome,
                    s_a.outcome,
                    ss[0].chunks,
                    s_a.chunks,
                );
            assert(spec_in_bounds(g1, p));
            assert(!g1.nodes.as_map().contains_key(p));
            assert(reg.defs().contains_key(piece_id@)) by {
                if !reg.defs().contains_key(piece_id@) {
                    assert(s_a.errors.len() == ss[0].errors.len() + 1);
                }
            }
            let errs = inline_errors(
                reg.defs()[piece_id@],
                p,
                inline_params.key_seq(),
                oks,
                inline_params.key_seq().len(),
            );
            assert(errs.len() == 0) by {
                if errs.len() > 0 {
                    assert((ss[0].errors + errs).len() == ss[0].errors.len() + errs.len());
                }
            }
        },
        _ => {},
    }
    let n1 = s_a.graph.nodes.as_map()[p];
    assert(fresh_node(n1, n.piece_id, n.inline_params.as_map()));
    // The label.
    let s_b = ss[1 + a];
    if a == 1 {
        assert(op_step(reg, f, ss[1], u[1], ss[2]));
        assert(is_set_label(u[1], p, n.label));
        assert(node_failure(s_a.graph, "node_set_label"@, p) is None);
    }
    assert(s_b.graph.nodes.as_map().dom() == s_a.graph.nodes.as_map().dom()) by {
        if a == 1 {
            assert(s_b.graph.nodes.as_map().dom() =~= s_a.graph.nodes.as_map().dom());
        }
    }
    // The state.
    let s_c = ss[1 + a + b];
    if b == 1 {
        assert(op_step(reg, f, ss[1 + a], u[1 + a], ss[1 + a + 1]));
        assert(is_set_state(u[1 + a], p, n.node_state));
        assert(node_failure(s_b.graph, "node_set_state"@, p) is None);
    }
    assert(s_c.graph.nodes.as_map().dom() == s_b.graph.nodes.as_map().dom()) by {
        if b == 1 {
            assert(s_c.graph.nodes.as_map().dom() =~= s_b.graph.nodes.as_map().dom());
        }
    }
    let nc = s_c.graph.nodes.as_map()[p];
    assert(nc.piece_id == n.piece_id);
    assert(nc.inline_params.as_map() == n.inline_params.as_map());
    assert(nc.input_sides.as_map() == Map::<Seq<char>, TileSide>::empty());
    assert(nc.output_side is None);
    assert(nc.label == n.label);
    assert(nc.node_state == n.node_state);
    assert(reg.defs().contains_key(nc.piece_id@));
    // The sides.
    assert forall|t: int| 0 <= t < k implies is_param_set_side(
        u[(1 + a + b) + t],
        p,
        #[trigger] n.input_sides.key_seq()[t],
        n.input_sides.value_seq()[t],
    ) by {
        assert(place[1 + a + b + t] == u[1 + a + b + t]);
    }
    lemma_sides_phase(reg, f, u, ss, 1 + a + b, p, n, k);
    lemma_sides_from_all(n.input_sides);
    let s_d = ss[1 + a + b + k];
    let nd = s_d.graph.nodes.as_map()[p];
    // The output side.
    let s_e = ss[r];
    if c == 1 {
        assert(op_step(reg, f, ss[1 + a + b + k], u[1 + a + b + k], ss[1 + a + b + k + 1]));
        assert(place[1 + a + b + k] == u[1 + a + b + k]);
        assert(is_output_set_side(u[1 + a + b + k], p, n.output_side->0));
        assert(node_piece_failure(reg, s_d.graph, "output_set_side"@, p) is None);
        assert(reg.defs()[nd.piece_id@].output_type is Some) by {
            if reg.defs()[nd.piece_id@].output_type is None {
                assert(s_e.errors.len() == s_d.errors.len() + 1);
            }
        }
    }
    let ne = s_e.graph.nodes.as_map()[p];
    assert(same_node(ne, n));
    assert(s_e.graph.nodes.as_map().dom() =~= g0.nodes.as_map().dom());
    assert forall|q: GridPos| q != p && #[trigger] g0.nodes.as_map().contains_key(q) implies s_e.graph.nodes.as_map()[q]
        == g0.nodes.as_map()[q] by {
        assert(g1.nodes.as_map().contains_key(q));
        assert(s_a.graph.nodes.as_map()[q] == g1.nodes.as_map()[q]);
        assert(s_c.graph.nodes.as_map()[q] == s_a.graph.nodes.as_map()[q]) by {
            if a == 1 {
                assert(ss[2].graph.nodes.as_map()[q] == s_a.graph.nodes.as_map()[q]);
            }
            if b == 1 {
                assert(ss[1 + a + 1].graph.nodes.as_map()[q] == s_b.graph.nodes.as_map()[q]);
            }
        }
        assert(s_c.graph.nodes.as_map().contains_key(q));
    }
    assert(s_e.graph.edges.as_map() == g1.edges.as_map());
    // The edges.
    let es = gone.map_values(|e: Edge| e@);
    assert forall|j: int| 0 <= j < es.len() implies reconnects(#[trigger] u[r + j], es[j]) by {
        assert(u.skip(r)[j] == u[r + j]);
    }
    lemma_reconnect_chain(reg, f, u, ss, r, es, es.len() as int);
    assert(es.take(es.len() as int) =~= es);
    let last = ss[r + es.len() as int];
    assert(ss.len() == u.len() + 1);
    assert(last == ss.last());
    let m0 = g0.edges.as_map();
    let t = edge_views(m0);
    assert forall|j: int| 0 <= j < es.len() implies t.contains_key(#[trigger] es[j].id) && t[es[j].id] == es[j] by {
        let x = gone[j];
        assert(gone.contains(x)) by {
            assert(gone[j] == x);
        }
        lemma_filtered_entry(g0.edges, touching(p), x);
    }
    let base = edge_views(s_e.graph.edges.as_map());
    assert forall|kk: u128| #[trigger] base.contains_key(kk) implies t.contains_key(kk) && t[kk] == base[kk] by {}
    lemma_add_views_agree(base, es, t);
    assert forall|kk: u128| #[trigger] t.contains_key(kk) implies add_views(base, es).contains_key(kk) by {
        if !base.contains_key(kk) {
            assert(touches(m0[kk], p));
            lemma_entry_filtered(g0.edges, touching(p), kk);
            let i = choose|i: int| 0 <= i < gone.len() && gone[i] == m0[kk];
            assert(es[i].id == kk);
        }
    }
    assert(add_views(base, es) =~= t);
    assert(last.graph.nodes.as_map().dom() =~= g0.nodes.as_map().dom());
}

} // verus!
