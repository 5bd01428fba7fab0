//! The semantic pass over a graph: unknown pieces and parameters, slots fed
//! twice, edges that do not reach their parameter's side, inline values,
//! missing required parameters, the evaluation order with feedback through
//! delays, the output type of every node (a delay takes the type its default
//! and its feedback share), type checks of every edge with the domain bridges
//! they need, the output nodes, and nodes that feed no output.

use vstd::prelude::*;

use crate::collections::{SortedMap, SortedSet};
use crate::diagnostics::{edge_error_view, error_view, Diagnostic, DiagnosticKind, DiagnosticSeverity, DiagnosticView, KindView};
use crate::graph::{claims_slot, feeds_into, has_param, push_diag, registered, slots_before, views, Edge, Graph, Node, Slot};
use crate::internal::{find_param, first_param};
use crate::ops::pruning::nodes_interior;
use crate::piece::{
    accepted_port_type, control_type, schema_can_inline, schema_domain, schema_kind, spec_accepted_type,
    spec_is_output, ParamSchema, PieceDef,
};
use crate::piece_registry::PieceRegistry;
use crate::semantic::topo_sort::{cycle_diagnostics, spec_delay_edges, spec_eval_order, topo_sort_with_delay_edges};
use crate::text::{owned, str_eq, Name};
use crate::types::{
    adjacent_in_direction, spec_adjacent, spec_bridge_from_domains, spec_common_kind, spec_opposite, DomainBridge,
    DomainBridgeKind, EdgeId, ExecutionDomain, GridPos, PortType, PortTypeConnectionError, TileSide, DELAY_PIECE_ID,
};

verus! {

/// What the semantic pass finds and computes.
pub struct SemanticResult {
    /// Every finding, in the order of the checks.
    pub diagnostics: Vec<Diagnostic>,
    /// The nodes in evaluation order.
    pub eval_order: Vec<GridPos>,
    /// The output nodes, in cell order.
    pub terminals: Vec<GridPos>,
    /// The output type of each node that has one.
    pub output_types: SortedMap<GridPos, PortType>,
    /// The bridge each edge crossing execution domains needs, by edge id.
    pub domain_bridges: SortedMap<EdgeId, DomainBridge>,
    /// The feedback edges into delays, which order nothing.
    pub delay_edges: SortedSet<EdgeId>,
}

/// A domain bridge by the views of its parts.
pub struct BridgeView {
    pub edge_id: u128,
    pub source_pos: GridPos,
    pub target_pos: GridPos,
    pub param: Seq<char>,
    pub kind: DomainBridgeKind,
}

// ---------------------------------------------------------------------------
// The inline check
// ---------------------------------------------------------------------------

/// The check gives one verdict for a piece, a parameter and a value.
pub open spec fn consistent_check<F: Fn(&str, &str, &serde_json::Value) -> bool>(f: F) -> bool {
    forall|a: &str, b: &str, c: &str, d: &str, v: serde_json::Value, x: bool, y: bool|
        #![trigger f.ensures((a, b, &v), x), f.ensures((c, d, &v), y)]
        a@ == c@ && b@ == d@ && f.ensures((a, b, &v), x) && f.ensures((c, d, &v), y) ==> x == y
}

/// The check accepts value `v` for parameter `param` of piece `piece`.
pub open spec fn accepts<F: Fn(&str, &str, &serde_json::Value) -> bool>(
    f: F,
    piece: Seq<char>,
    param: Seq<char>,
    v: serde_json::Value,
) -> bool {
    exists|a: &str, b: &str| a@ == piece && b@ == param && #[trigger] f.ensures((a, b, &v), true)
}

fn ask<F: Fn(&str, &str, &serde_json::Value) -> bool>(f: &F, piece: &str, param: &str, v: &serde_json::Value) -> (r: bool)
    requires
        consistent_check(*f),
        forall|a: &str, b: &str, x: &serde_json::Value| f.requires((a, b, x)),
    ensures
        r == accepts(*f, piece@, param@, *v),
{
    let r = f(piece, param, v);
    proof {
        if !r && accepts(*f, piece@, param@, *v) {
            let (a, b) = choose|a: &str, b: &str| a@ == piece@ && b@ == param@ && #[trigger] f.ensures((a, b, v), true);
            assert(f.ensures((a, b, v), true));
            assert(f.ensures((piece, param, v), false));
        }
    }
    r
}

// ---------------------------------------------------------------------------
// Types
// ---------------------------------------------------------------------------

/// The domain a connection lands in: the target's, else the source's.
pub open spec fn landing_domain(t: (Seq<char>, Option<ExecutionDomain>), s: (Seq<char>, Option<ExecutionDomain>)) -> Option<
    ExecutionDomain,
> {
    match t.1 {
        Some(d) => Some(d),
        None => s.1,
    }
}

/// Connecting a source of type `s` into a port of type `t`: the effective
/// type and the bridge needed, or `Err(true)` when the kinds do not meet and
/// `Err(false)` when no bridge joins the domains.
pub open spec fn spec_connect(t: (Seq<char>, Option<ExecutionDomain>), s: (Seq<char>, Option<ExecutionDomain>)) -> Result<
    ((Seq<char>, Option<ExecutionDomain>), Option<DomainBridgeKind>),
    bool,
> {
    match spec_common_kind(t.0, s.0) {
        None => Err(true),
        Some(k) => {
            let td = landing_domain(t, s);
            match (s.1, td) {
                (Some(sd), Some(tdd)) => if sd != tdd {
                    match spec_bridge_from_domains(sd, tdd) {
                        None => Err(false),
                        Some(b) => Ok(((k, Some(tdd)), Some(b))),
                    }
                } else {
                    Ok(((k, Some(tdd)), None))
                },
                _ => Ok(((k, td), None)),
            }
        },
    }
}

/// The type a parameter of schema `s` expects.
pub open spec fn expected_view(s: ParamSchema) -> (Seq<char>, Option<ExecutionDomain>) {
    (schema_kind(s), schema_domain(s))
}

/// The views of the values of a map of types.
pub open spec fn type_views(m: Map<GridPos, PortType>) -> Map<GridPos, (Seq<char>, Option<ExecutionDomain>)> {
    m.map_values(|t: PortType| t@)
}

// ---------------------------------------------------------------------------
// Node and edge checks
// ---------------------------------------------------------------------------

/// The piece definition of node `n`.
pub open spec fn def_of(reg: PieceRegistry, n: Node) -> PieceDef {
    reg.defs()[n.piece_id@]
}

/// Unknown pieces among the first `k` nodes.
pub open spec fn unknown_pieces_upto(g: Graph, reg: PieceRegistry, k: int) -> Seq<DiagnosticView>
    decreases k,
{
    if k <= 0 {
        Seq::empty()
    } else {
        let prev = unknown_pieces_upto(g, reg, k - 1);
        let n = g.nodes.value_seq()[k - 1];
        if !registered(reg, n.piece_id@) {
            prev.push(error_view(KindView::UnknownPiece { piece_id: n.piece_id@ }, Some(g.nodes.key_seq()[k - 1])))
        } else {
            prev
        }
    }
}

/// The side a node sends output from: none when its piece has no output
/// type, else its own choice, else the piece's.
pub open spec fn output_side_of(n: Node, d: PieceDef) -> Option<TileSide> {
    if d.output_type is None {
        None
    } else if n.output_side is Some {
        n.output_side
    } else {
        d.output_side
    }
}

/// The reason for a target parameter without a side on its node.
pub open spec fn no_side_text(param: Seq<char>) -> Seq<char> {
    "target param '"@ + param + "' has no assigned side on placed node"@
}

/// The findings of the `i`-th edge, and whether its type is to be checked.
pub open spec fn edge_findings(g: Graph, reg: PieceRegistry, i: int) -> (Seq<DiagnosticView>, bool) {
    let e = g.edges.value_seq()[i];
    let id = e.id@;
    if !g.nodes.as_map().contains_key(e.from) {
        (seq![edge_error_view(KindView::UnknownNode { pos: e.from }, Some(e.to_node), id)], false)
    } else if !g.nodes.as_map().contains_key(e.to_node) {
        (seq![edge_error_view(KindView::UnknownNode { pos: e.to_node }, Some(e.to_node), id)], false)
    } else if !claims_slot(g, reg, e) {
        (Seq::empty(), false)
    } else {
        let from_node = g.nodes.as_map()[e.from];
        let to_node = g.nodes.as_map()[e.to_node];
        let to_def = def_of(reg, to_node);
        let dup = if slots_before(g, reg, i).contains((e.to_node, e.to_param@)) {
            seq![
                edge_error_view(
                    KindView::DuplicateConnection { to_node: e.to_node, to_param: e.to_param@ },
                    Some(e.to_node),
                    id,
                ),
            ]
        } else {
            Seq::empty()
        };
        match first_param(to_def, e.to_param@) {
            None => (
                dup.push(
                    edge_error_view(
                        KindView::UnknownParam { piece_id: to_def.id@, param: e.to_param@ },
                        Some(e.to_node),
                        id,
                    ),
                ),
                false,
            ),
            Some(_) => if !to_node.input_sides.as_map().contains_key(e.to_param@) {
                (
                    dup.push(
                        edge_error_view(
                            KindView::InvalidOperation { reason: no_side_text(e.to_param@) },
                            Some(e.to_node),
                            id,
                        ),
                    ),
                    false,
                )
            } else {
                let side = to_node.input_sides.as_map()[e.to_param@];
                if spec_adjacent(e.to_node, Some(side)) != e.from {
                    (
                        dup.push(
                            edge_error_view(
                                KindView::NotAdjacent { from_pos: e.from, to_pos: e.to_node },
                                Some(e.to_node),
                                id,
                            ),
                        ),
                        false,
                    )
                } else {
                    match output_side_of(from_node, def_of(reg, from_node)) {
                        Some(fs) => if side != spec_opposite(fs) {
                            (
                                dup.push(
                                    edge_error_view(
                                        KindView::SideMismatch {
                                            from_pos: e.from,
                                            to_pos: e.to_node,
                                            expected_side: side,
                                        },
                                        Some(e.to_node),
                                        id,
                                    ),
                                ),
                                true,
                            )
                        } else {
                            (dup, true)
                        },
                        None => (dup, true),
                    }
                }
            },
        }
    }
}

/// The edge findings of the first `k` edges.
pub open spec fn edge_findings_upto(g: Graph, reg: PieceRegistry, k: int) -> Seq<DiagnosticView>
    decreases k,
{
    if k <= 0 {
        Seq::empty()
    } else {
        edge_findings_upto(g, reg, k - 1) + edge_findings(g, reg, k - 1).0
    }
}

/// The indices of the first `k` edges whose type is to be checked.
pub open spec fn pending_upto(g: Graph, reg: PieceRegistry, k: int) -> Seq<int>
    decreases k,
{
    if k <= 0 {
        Seq::empty()
    } else if edge_findings(g, reg, k - 1).1 {
        pending_upto(g, reg, k - 1).push(k - 1)
    } else {
        pending_upto(g, reg, k - 1)
    }
}

/// The finding for inline value `key` of the node at `p`, if any.
pub open spec fn inline_finding<F: Fn(&str, &str, &serde_json::Value) -> bool>(
    f: F,
    d: PieceDef,
    p: GridPos,
    key: Seq<char>,
    v: serde_json::Value,
) -> Option<DiagnosticView> {
    match first_param(d, key) {
        None => Some(error_view(KindView::UnknownParam { piece_id: d.id@, param: key }, Some(p))),
        Some(j) => {
            let s = d.params@[j].schema;
            if !schema_can_inline(s) {
                Some(error_view(KindView::InlineNotAllowed { param: key }, Some(p)))
            } else if !accepts(f, d.id@, key, v) {
                Some(
                    error_view(
                        KindView::InlineTypeMismatch { param: key, expected: expected_view(s), got_value: v },
                        Some(p),
                    ),
                )
            } else {
                None
            }
        },
    }
}

/// The inline findings of the first `k` inline values of node `n` at `p`.
pub open spec fn inline_findings<F: Fn(&str, &str, &serde_json::Value) -> bool>(
    f: F,
    d: PieceDef,
    p: GridPos,
    n: Node,
    k: int,
) -> Seq<DiagnosticView>
    decreases k,
{
    if k <= 0 {
        Seq::empty()
    } else {
        let prev = inline_findings(f, d, p, n, k - 1);
        match inline_finding(f, d, p, n.inline_params.key_seq()[k - 1], n.inline_params.value_seq()[k - 1]) {
            Some(x) => prev.push(x),
            None => prev,
        }
    }
}

/// Side assignments of node `n` at `p` naming no parameter, among the first `k`.
pub open spec fn side_findings(d: PieceDef, p: GridPos, n: Node, k: int) -> Seq<DiagnosticView>
    decreases k,
{
    if k <= 0 {
        Seq::empty()
    } else {
        let prev = side_findings(d, p, n, k - 1);
        let key = n.input_sides.key_seq()[k - 1];
        if !has_param(d, key) {
            prev.push(error_view(KindView::UnknownParam { piece_id: d.id@, param: key }, Some(p)))
        } else {
            prev
        }
    }
}

/// An edge feeds parameter `pid` of the node at `p`.
pub open spec fn fed(g: Graph, p: GridPos, pid: Seq<char>) -> bool {
    exists|j: int|
        0 <= j < g.edges.value_seq().len() && (#[trigger] g.edges.value_seq()[j]).to_node == p
            && g.edges.value_seq()[j].to_param@ == pid
}

/// The schema gives a value without an inline one: every built-in kind has
/// a default; a custom parameter has one when it carries one.
pub open spec fn has_default(s: ParamSchema) -> bool {
    match s {
        ParamSchema::Custom { default, .. } => default is Some,
        _ => true,
    }
}

/// Required parameters among the first `k` of `d` that nothing feeds.
pub open spec fn missing_findings(g: Graph, d: PieceDef, p: GridPos, n: Node, k: int) -> Seq<DiagnosticView>
    decreases k,
{
    if k <= 0 {
        Seq::empty()
    } else {
        let prev = missing_findings(g, d, p, n, k - 1);
        let prm = d.params@[k - 1];
        if prm.required && !fed(g, p, prm.id@) && !n.inline_params.as_map().contains_key(prm.id@) && !has_default(
            prm.schema,
        ) {
            prev.push(error_view(KindView::MissingRequiredParam { param: prm.id@ }, Some(p)))
        } else {
            prev
        }
    }
}

/// The parameter findings of the node at `p`.
pub open spec fn node_findings<F: Fn(&str, &str, &serde_json::Value) -> bool>(
    f: F,
    g: Graph,
    reg: PieceRegistry,
    p: GridPos,
    n: Node,
) -> Seq<DiagnosticView> {
    if !registered(reg, n.piece_id@) {
        Seq::empty()
    } else {
        let d = def_of(reg, n);
        inline_findings(f, d, p, n, n.inline_params.key_seq().len() as int) + side_findings(
            d,
            p,
            n,
            n.input_sides.key_seq().len() as int,
        ) + missing_findings(g, d, p, n, d.params@.len() as int)
    }
}

/// The parameter findings of the first `k` nodes.
pub open spec fn node_findings_upto<F: Fn(&str, &str, &serde_json::Value) -> bool>(
    f: F,
    g: Graph,
    reg: PieceRegistry,
    k: int,
) -> Seq<DiagnosticView>
    decreases k,
{
    if k <= 0 {
        Seq::empty()
    } else {
        node_findings_upto(f, g, reg, k - 1) + node_findings(f, g, reg, g.nodes.key_seq()[k - 1], g.nodes.value_seq()[k - 1])
    }
}

// ---------------------------------------------------------------------------
// Output types
// ---------------------------------------------------------------------------

/// Each of the first `k` nodes of a registered piece with an output type
/// has that type.
pub open spec fn base_types_upto(g: Graph, reg: PieceRegistry, k: int) -> Map<GridPos, (Seq<char>, Option<ExecutionDomain>)>
    decreases k,
{
    if k <= 0 {
        Map::empty()
    } else {
        let prev = base_types_upto(g, reg, k - 1);
        let n = g.nodes.value_seq()[k - 1];
        if registered(reg, n.piece_id@) && def_of(reg, n).output_type is Some {
            prev.insert(g.nodes.key_seq()[k - 1], def_of(reg, n).output_type->0@)
        } else {
            prev
        }
    }
}

/// Each node of a registered piece with an output type has that type.
pub open spec fn base_types(g: Graph, reg: PieceRegistry) -> Map<GridPos, (Seq<char>, Option<ExecutionDomain>)> {
    base_types_upto(g, reg, g.nodes.key_seq().len() as int)
}

/// The first edge, from index `j` on in id order, into parameter `pid` of
/// the node at `p`.
pub open spec fn first_incoming_from(g: Graph, p: GridPos, pid: Seq<char>, j: int) -> Option<int>
    decreases g.edges.value_seq().len() - j,
{
    if j < 0 || j >= g.edges.value_seq().len() {
        None
    } else if g.edges.value_seq()[j].to_node == p && g.edges.value_seq()[j].to_param@ == pid {
        Some(j)
    } else {
        first_incoming_from(g, p, pid, j + 1)
    }
}

/// The type parameter `pid` (of schema `s`) of node `n` at `p` takes: from
/// the first edge into it (the type its source connects with, when the
/// source has a type), else from its inline value or default when the check
/// accepts it, else from its schema.
pub open spec fn resolved_input<F: Fn(&str, &str, &serde_json::Value) -> bool>(
    f: F,
    g: Graph,
    p: GridPos,
    n: Node,
    d: PieceDef,
    pid: Seq<char>,
    s: ParamSchema,
    t: Map<GridPos, (Seq<char>, Option<ExecutionDomain>)>,
) -> Option<(Seq<char>, Option<ExecutionDomain>)> {
    match first_incoming_from(g, p, pid, 0) {
        Some(j) => {
            let src = g.edges.value_seq()[j].from;
            if t.contains_key(src) {
                match spec_connect(expected_view(s), t[src]) {
                    Ok((v, _)) => Some(v),
                    Err(_) => None,
                }
            } else {
                None
            }
        },
        None => if n.inline_params.as_map().contains_key(pid) {
            let v = n.inline_params.as_map()[pid];
            if accepts(f, d.id@, pid, v) {
                Some(spec_accepted_type(s, v))
            } else {
                None
            }
        } else {
            match s {
                ParamSchema::Custom { default, .. } => match default {
                    Some(dv) => if accepts(f, d.id@, pid, dv) {
                        Some(spec_accepted_type(s, dv))
                    } else {
                        None
                    },
                    None => None,
                },
                _ => Some(expected_view(s)),
            }
        },
    }
}

/// Reconciling the delay at the `k`-th node with types `t`: its default and
/// its feedback types, when both known, give the type either connects into
/// the other with (the feedback taking the default first), else a mismatch
/// and type `any`; a delay with one known type takes it.
pub open spec fn delay_step<F: Fn(&str, &str, &serde_json::Value) -> bool>(
    f: F,
    g: Graph,
    reg: PieceRegistry,
    k: int,
    t: Map<GridPos, (Seq<char>, Option<ExecutionDomain>)>,
) -> (Map<GridPos, (Seq<char>, Option<ExecutionDomain>)>, Seq<DiagnosticView>) {
    let p = g.nodes.key_seq()[k];
    let n = g.nodes.value_seq()[k];
    if n.piece_id@ != DELAY_PIECE_ID@ || !registered(reg, n.piece_id@) {
        (t, Seq::empty())
    } else {
        let d = def_of(reg, n);
        match first_param(d, "default"@) {
            None => (t, Seq::empty()),
            Some(jd) => {
                let dt = resolved_input(f, g, p, n, d, "default"@, d.params@[jd].schema, t);
                match first_param(d, "value"@) {
                    None => (t, Seq::empty()),
                    Some(jv) => {
                        let ft = resolved_input(f, g, p, n, d, "value"@, d.params@[jv].schema, t);
                        match (dt, ft) {
                            (Some(a), Some(b)) => match spec_connect(b, a) {
                                Ok((v, _)) => (t.insert(p, v), Seq::empty()),
                                Err(_) => match spec_connect(a, b) {
                                    Ok((v, _)) => (t.insert(p, v), Seq::empty()),
                                    Err(_) => (
                                        t.insert(p, control_type("any"@)),
                                        seq![
                                            error_view(KindView::DelayTypeMismatch { default: a, feedback: b }, Some(p)),
                                        ],
                                    ),
                                },
                            },
                            (Some(a), None) => (t.insert(p, a), Seq::empty()),
                            (None, Some(b)) => (t.insert(p, b), Seq::empty()),
                            (None, None) => (t, Seq::empty()),
                        }
                    },
                }
            },
        }
    }
}

/// The types and delay findings after reconciling the delays among the
/// first `k` nodes, in cell order.
pub open spec fn delays_upto<F: Fn(&str, &str, &serde_json::Value) -> bool>(
    f: F,
    g: Graph,
    reg: PieceRegistry,
    k: int,
) -> (Map<GridPos, (Seq<char>, Option<ExecutionDomain>)>, Seq<DiagnosticView>)
    decreases k,
{
    if k <= 0 {
        (base_types(g, reg), Seq::empty())
    } else {
        let prev = delays_upto(f, g, reg, k - 1);
        let step = delay_step(f, g, reg, k - 1, prev.0);
        (step.0, prev.1 + step.1)
    }
}

/// The output types the pass computes.
pub open spec fn spec_output_types<F: Fn(&str, &str, &serde_json::Value) -> bool>(
    f: F,
    g: Graph,
    reg: PieceRegistry,
) -> Map<GridPos, (Seq<char>, Option<ExecutionDomain>)> {
    delays_upto(f, g, reg, g.nodes.key_seq().len() as int).0
}

// ---------------------------------------------------------------------------
// Edge type checks
// ---------------------------------------------------------------------------

/// The schema of the parameter the `i`-th edge feeds.
pub open spec fn fed_schema(g: Graph, reg: PieceRegistry, i: int) -> ParamSchema {
    let e = g.edges.value_seq()[i];
    let d = def_of(reg, g.nodes.as_map()[e.to_node]);
    d.params@[first_param(d, e.to_param@)->0].schema
}

/// Type-checking the `i`-th edge with types `t`: a source without a type is
/// a terminal; a connection needing a bridge records it; kinds that do not
/// meet and domains no bridge joins are errors.
pub open spec fn type_check(
    g: Graph,
    reg: PieceRegistry,
    t: Map<GridPos, (Seq<char>, Option<ExecutionDomain>)>,
    i: int,
) -> (Seq<DiagnosticView>, Option<BridgeView>) {
    let e = g.edges.value_seq()[i];
    let s = fed_schema(g, reg, i);
    if !t.contains_key(e.from) {
        (seq![edge_error_view(KindView::OutputFromTerminal { position: e.from }, Some(e.to_node), e.id@)], None)
    } else {
        match spec_connect(expected_view(s), t[e.from]) {
            Ok((_, Some(b))) => (
                Seq::empty(),
                Some(
                    BridgeView { edge_id: e.id@, source_pos: e.from, target_pos: e.to_node, param: e.to_param@, kind: b },
                ),
            ),
            Ok((_, None)) => (Seq::empty(), None),
            Err(kinds) => (
                seq![
                    edge_error_view(
                        if kinds {
                            KindView::TypeMismatch { expected: expected_view(s), got: t[e.from], param: e.to_param@ }
                        } else {
                            KindView::UnsupportedDomainCrossing {
                                expected: expected_view(s),
                                got: t[e.from],
                                param: e.to_param@,
                            }
                        },
                        Some(e.to_node),
                        e.id@,
                    ),
                ],
                None,
            ),
        }
    }
}

/// The findings and bridges of type-checking the first `k` pending edges.
pub open spec fn type_checks_upto(
    g: Graph,
    reg: PieceRegistry,
    t: Map<GridPos, (Seq<char>, Option<ExecutionDomain>)>,
    pending: Seq<int>,
    k: int,
) -> (Seq<DiagnosticView>, Map<u128, BridgeView>)
    decreases k,
{
    if k <= 0 {
        (Seq::empty(), Map::empty())
    } else {
        let prev = type_checks_upto(g, reg, t, pending, k - 1);
        let c = type_check(g, reg, t, pending[k - 1]);
        (
            prev.0 + c.0,
            match c.1 {
                Some(b) => prev.1.insert(b.edge_id, b),
                None => prev.1,
            },
        )
    }
}

// ---------------------------------------------------------------------------
// Outputs and reachability
// ---------------------------------------------------------------------------

/// The output nodes among the first `k` nodes.
pub open spec fn terminals_upto(g: Graph, reg: PieceRegistry, k: int) -> Seq<GridPos>
    decreases k,
{
    if k <= 0 {
        Seq::empty()
    } else {
        let prev = terminals_upto(g, reg, k - 1);
        let n = g.nodes.value_seq()[k - 1];
        if registered(reg, n.piece_id@) && spec_is_output(def_of(reg, n)) {
            prev.push(g.nodes.key_seq()[k - 1])
        } else {
            prev
        }
    }
}

/// The output nodes of the graph, in cell order.
pub open spec fn spec_terminals(g: Graph, reg: PieceRegistry) -> Seq<GridPos> {
    terminals_upto(g, reg, g.nodes.key_seq().len() as int)
}

/// A warning.
pub open spec fn warning_view(kind: KindView, site: Option<GridPos>) -> DiagnosticView {
    DiagnosticView { kind, site, edge_id: None, severity: DiagnosticSeverity::Warning }
}

/// Warnings for the first `k` nodes that feed none of `ts`.
pub open spec fn unreachable_upto(g: Graph, ts: Seq<GridPos>, k: int) -> Seq<DiagnosticView>
    decreases k,
{
    if k <= 0 {
        Seq::empty()
    } else {
        let prev = unreachable_upto(g, ts, k - 1);
        let p = g.nodes.key_seq()[k - 1];
        if !feeds_into(g, p, ts) {
            prev.push(warning_view(KindView::UnreachableNode { position: p }, Some(p)))
        } else {
            prev
        }
    }
}

/// Without an output node, an error; with some, a warning for each node
/// that feeds none of them.
pub open spec fn output_findings(g: Graph, reg: PieceRegistry) -> Seq<DiagnosticView> {
    let ts = spec_terminals(g, reg);
    if ts.len() == 0 {
        seq![error_view(KindView::NoOutputNode, None)]
    } else {
        unreachable_upto(g, ts, g.nodes.key_seq().len() as int)
    }
}

// ---------------------------------------------------------------------------
// The whole pass
// ---------------------------------------------------------------------------

/// The edges whose types are checked.
pub open spec fn spec_pending(g: Graph, reg: PieceRegistry) -> Seq<int> {
    pending_upto(g, reg, g.edges.value_seq().len() as int)
}

/// Everything the pass finds, in order: unknown pieces, edge findings,
/// parameter findings, cycles, delay mismatches, edge type findings, and
/// output findings.
pub open spec fn spec_semantic_diagnostics<F: Fn(&str, &str, &serde_json::Value) -> bool>(
    f: F,
    g: Graph,
    reg: PieceRegistry,
) -> Seq<DiagnosticView> {
    let nn = g.nodes.key_seq().len() as int;
    let ne = g.edges.value_seq().len() as int;
    let pending = spec_pending(g, reg);
    unknown_pieces_upto(g, reg, nn) + edge_findings_upto(g, reg, ne) + node_findings_upto(f, g, reg, nn)
        + cycle_diagnostics(g) + delays_upto(f, g, reg, nn).1 + type_checks_upto(
        g,
        reg,
        spec_output_types(f, g, reg),
        pending,
        pending.len() as int,
    ).0 + output_findings(g, reg)
}

/// The domain bridges the pass finds, by edge id.
pub open spec fn spec_domain_bridges<F: Fn(&str, &str, &serde_json::Value) -> bool>(
    f: F,
    g: Graph,
    reg: PieceRegistry,
) -> Map<u128, BridgeView> {
    let pending = spec_pending(g, reg);
    type_checks_upto(g, reg, spec_output_types(f, g, reg), pending, pending.len() as int).1
}

/// The views of a map of bridges.
pub open spec fn bridge_views(m: Map<u128, DomainBridge>) -> Map<u128, BridgeView> {
    m.map_values(
        |b: DomainBridge|
            BridgeView {
                edge_id: b.edge_id@,
                source_pos: b.source_pos,
                target_pos: b.target_pos,
                param: b.param@,
                kind: b.kind,
            },
    )
}

// ---------------------------------------------------------------------------
// Checking nodes and edges
// ---------------------------------------------------------------------------

fn report_unknown_pieces(g: &Graph, reg: &PieceRegistry, out: &mut Vec<Diagnostic>)
    ensures
        views(final(out)@) == views(old(out)@) + unknown_pieces_upto(*g, *reg, g.nodes.key_seq().len() as int),
{
    let n = g.nodes.len();
    let mut i: usize = 0;
    while i < n
        invariant
            n == g.nodes.key_seq().len(),
            n == g.nodes.value_seq().len(),
            i <= n,
            views(out@) == views(old(out)@) + unknown_pieces_upto(*g, *reg, i as int),
        decreases n - i,
    {
        let node = g.nodes.value_at(i);
        let p = *g.nodes.key_at(i);
        if reg.get(node.piece_id.as_str()).is_none() {
            push_diag(out, Diagnostic::error(DiagnosticKind::UnknownPiece { piece_id: node.piece_id.clone() }, Some(p)));
        }
        proof {
            assert(views(out@) =~= views(old(out)@) + unknown_pieces_upto(*g, *reg, i + 1));
        }
        i = i + 1;
    }
}

/// An edge error on edge `e`.
fn edge_error(kind: DiagnosticKind, e: &Edge) -> (r: Diagnostic)
    ensures
        r@ == edge_error_view(kind@, Some(e.to_node), e.id@),
{
    Diagnostic::error(kind, Some(e.to_node)).with_edge(e.id)
}

/// The side a node sends output from (see `output_side_of`).
fn output_side(n: &Node, d: &PieceDef) -> (r: Option<TileSide>)
    ensures
        r == output_side_of(*n, *d),
{
    if d.output_type.is_none() {
        None
    } else {
        match n.output_side {
            Some(s) => Some(s),
            None => d.output_side,
        }
    }
}

/// Checks the `i`-th edge; returns whether its type is to be checked.
fn check_edge(
    g: &Graph,
    reg: &PieceRegistry,
    i: usize,
    slots: &mut SortedSet<Slot>,
    out: &mut Vec<Diagnostic>,
) -> (pending: bool)
    requires
        nodes_interior(*g),
        i < g.edges.value_seq().len(),
        old(slots).set_view() == slots_before(*g, *reg, i as int),
    ensures
        views(final(out)@) == views(old(out)@) + edge_findings(*g, *reg, i as int).0,
        pending == edge_findings(*g, *reg, i as int).1,
        final(slots).set_view() == slots_before(*g, *reg, i + 1),
{
    let _ = g.edges.len();
    let e = g.edges.value_at(i);
    proof {
        assert(slots_before(*g, *reg, i + 1) =~= if claims_slot(*g, *reg, *e) {
            slots_before(*g, *reg, i as int).insert((e.to_node, e.to_param@))
        } else {
            slots_before(*g, *reg, i as int)
        });
    }
    let from_node = match g.nodes.get(&e.from) {
        None => {
            push_diag(out, edge_error(DiagnosticKind::UnknownNode { pos: e.from }, e));
            return false;
        },
        Some(x) => x,
    };
    let to_node = match g.nodes.get(&e.to_node) {
        None => {
            push_diag(out, edge_error(DiagnosticKind::UnknownNode { pos: e.to_node }, e));
            return false;
        },
        Some(x) => x,
    };
    let from_def = match reg.get(from_node.piece_id.as_str()) {
        None => {
            return false;
        },
        Some(d) => d,
    };
    let to_def = match reg.get(to_node.piece_id.as_str()) {
        None => {
            return false;
        },
        Some(d) => d,
    };
    let fresh = slots.insert(Slot::new(e.to_node, &e.to_param));
    if !fresh {
        push_diag(
            out,
            edge_error(DiagnosticKind::DuplicateConnection { to_node: e.to_node, to_param: e.to_param.clone() }, e),
        );
    }
    if find_param(to_def, e.to_param.as_str()).is_none() {
        push_diag(
            out,
            edge_error(DiagnosticKind::UnknownParam { piece_id: to_def.id.clone(), param: e.to_param.clone() }, e),
        );
        return false;
    }
    let side = match to_node.input_sides.get(&Name::new(e.to_param.as_str())) {
        None => {
            let mut buf: Vec<char> = Vec::new();
            crate::text::append_str(&mut buf, "target param '");
            crate::text::append_str(&mut buf, e.to_param.as_str());
            crate::text::append_str(&mut buf, "' has no assigned side on placed node");
            let reason = crate::text::string_of_chars(buf.as_slice());
            proof {
                assert(reason@ =~= no_side_text(e.to_param@));
            }
            push_diag(out, edge_error(DiagnosticKind::InvalidOperation { reason }, e));
            return false;
        },
        Some(s) => *s,
    };
    let expected = adjacent_in_direction(&e.to_node, Some(side));
    if expected != e.from {
        push_diag(out, edge_error(DiagnosticKind::NotAdjacent { from_pos: e.from, to_pos: e.to_node }, e));
        return false;
    }
    match output_side(from_node, from_def) {
        Some(fs) => {
            if !fs.faces(side) {
                push_diag(
                    out,
                    edge_error(
                        DiagnosticKind::SideMismatch { from_pos: e.from, to_pos: e.to_node, expected_side: side },
                        e,
                    ),
                );
            }
        },
        None => {},
    }
    true
}

/// Checks every edge; returns the indices of the edges whose types are to
/// be checked.
fn check_edges(g: &Graph, reg: &PieceRegistry, out: &mut Vec<Diagnostic>) -> (pending: Vec<usize>)
    requires
        nodes_interior(*g),
    ensures
        views(final(out)@) == views(old(out)@) + edge_findings_upto(*g, *reg, g.edges.value_seq().len() as int),
        pending@.map_values(|i: usize| i as int) == spec_pending(*g, *reg),
{
    let n = g.edges.len();
    let mut slots: SortedSet<Slot> = SortedSet::new();
    let mut pending: Vec<usize> = Vec::new();
    let mut i: usize = 0;
    proof {
        assert(slots_before(*g, *reg, 0) =~= Set::empty());
        assert(pending@.map_values(|i: usize| i as int) =~= pending_upto(*g, *reg, 0));
    }
    while i < n
        invariant
            nodes_interior(*g),
            n == g.edges.key_seq().len(),
            n == g.edges.value_seq().len(),
            i <= n,
            slots.set_view() == slots_before(*g, *reg, i as int),
            views(out@) == views(old(out)@) + edge_findings_upto(*g, *reg, i as int),
            pending@.map_values(|i: usize| i as int) == pending_upto(*g, *reg, i as int),
        decreases n - i,
    {
        let ghost before = views(out@);
        let ghost pv = pending@;
        let go = check_edge(g, reg, i, &mut slots, out);
        if go {
            pending.push(i);
            proof {
                assert(pending@.map_values(|i: usize| i as int) =~= pv.map_values(|i: usize| i as int).push(i as int));
            }
        }
        proof {
            assert(views(out@) =~= views(old(out)@) + edge_findings_upto(*g, *reg, i + 1));
        }
        i = i + 1;
    }
    pending
}

/// Whether an edge feeds parameter `pid` of the node at `p`.
fn is_fed(g: &Graph, p: GridPos, pid: &str) -> (r: bool)
    ensures
        r == fed(*g, p, pid@),
{
    let n = g.edges.len();
    let mut j: usize = 0;
    while j < n
        invariant
            n == g.edges.value_seq().len(),
            n == g.edges.key_seq().len(),
            j <= n,
            forall|k: int|
                0 <= k < j ==> !((#[trigger] g.edges.value_seq()[k]).to_node == p && g.edges.value_seq()[k].to_param@
                    == pid@),
        decreases n - j,
    {
        let e = g.edges.value_at(j);
        if e.to_node == p && str_eq(e.to_param.as_str(), pid) {
            return true;
        }
        j = j + 1;
    }
    false
}

/// The parameter findings of the `i`-th node.
fn check_node_params<F: Fn(&str, &str, &serde_json::Value) -> bool>(
    f: &F,
    g: &Graph,
    reg: &PieceRegistry,
    i: usize,
    out: &mut Vec<Diagnostic>,
)
    requires
        consistent_check(*f),
        forall|a: &str, b: &str, x: &serde_json::Value| f.requires((a, b, x)),
        i < g.nodes.key_seq().len(),
        g.nodes.key_seq().len() == g.nodes.value_seq().len(),
    ensures
        views(final(out)@) == views(old(out)@) + node_findings(
            *f,
            *g,
            *reg,
            g.nodes.key_seq()[i as int],
            g.nodes.value_seq()[i as int],
        ),
{
    let p = *g.nodes.key_at(i);
    let node = g.nodes.value_at(i);
    let d = match reg.get(node.piece_id.as_str()) {
        None => {
            proof {
                assert(views(old(out)@) + Seq::<DiagnosticView>::empty() =~= views(old(out)@));
            }
            return ;
        },
        Some(d) => d,
    };
    let ghost start = views(out@);
    let ni = node.inline_params.len();
    let mut k: usize = 0;
    while k < ni
        invariant
            consistent_check(*f),
            forall|a: &str, b: &str, x: &serde_json::Value| f.requires((a, b, x)),
            ni == node.inline_params.key_seq().len(),
            ni == node.inline_params.value_seq().len(),
            k <= ni,
            views(out@) == start + inline_findings(*f, *d, p, *node, k as int),
        decreases ni - k,
    {
        let key = node.inline_params.key_at(k);
        let value = node.inline_params.value_at(k);
        match find_param(d, key.0.as_str()) {
            None => {
                push_diag(
                    out,
                    Diagnostic::error(
                        DiagnosticKind::UnknownParam { piece_id: d.id.clone(), param: key.0.clone() },
                        Some(p),
                    ),
                );
            },
            Some(prm) => {
                if !prm.schema.can_inline() {
                    push_diag(out, Diagnostic::error(DiagnosticKind::InlineNotAllowed { param: key.0.clone() }, Some(p)));
                } else if !ask(f, d.id.as_str(), key.0.as_str(), value) {
                    push_diag(
                        out,
                        Diagnostic::error(
                            DiagnosticKind::InlineTypeMismatch {
                                param: key.0.clone(),
                                expected: prm.schema.expected_port_type(),
                                got_value: value.clone(),
                            },
                            Some(p),
                        ),
                    );
                }
            },
        }
        proof {
            assert(views(out@) =~= start + inline_findings(*f, *d, p, *node, k + 1));
        }
        k = k + 1;
    }
    let ghost mid = views(out@);
    let ns = node.input_sides.len();
    let mut k: usize = 0;
    while k < ns
        invariant
            ns == node.input_sides.key_seq().len(),
            k <= ns,
            views(out@) == mid + side_findings(*d, p, *node, k as int),
        decreases ns - k,
    {
        let key = node.input_sides.key_at(k);
        if !crate::graph::def_has_param(d, key.0.as_str()) {
            push_diag(
                out,
                Diagnostic::error(DiagnosticKind::UnknownParam { piece_id: d.id.clone(), param: key.0.clone() }, Some(p)),
            );
        }
        proof {
            assert(views(out@) =~= mid + side_findings(*d, p, *node, k + 1));
        }
        k = k + 1;
    }
    let ghost mid2 = views(out@);
    let np = d.params.len();
    let mut k: usize = 0;
    while k < np
        invariant
            np == d.params@.len(),
            k <= np,
            views(out@) == mid2 + missing_findings(*g, *d, p, *node, k as int),
        decreases np - k,
    {
        let prm = &d.params[k];
        if prm.required && !is_fed(g, p, prm.id.as_str()) && !node.inline_params.contains_key(&Name::new(prm.id.as_str()))
            && !schema_has_default(&prm.schema) {
            push_diag(out, Diagnostic::error(DiagnosticKind::MissingRequiredParam { param: prm.id.clone() }, Some(p)));
        }
        proof {
            assert(views(out@) =~= mid2 + missing_findings(*g, *d, p, *node, k + 1));
        }
        k = k + 1;
    }
    proof {
        assert(views(out@) =~= views(old(out)@) + node_findings(*f, *g, *reg, p, *node));
    }
}

fn schema_has_default(s: &ParamSchema) -> (r: bool)
    ensures
        r == has_default(*s),
{
    match s {
        ParamSchema::Custom { default, .. } => default.is_some(),
        _ => true,
    }
}

fn check_all_node_params<F: Fn(&str, &str, &serde_json::Value) -> bool>(
    f: &F,
    g: &Graph,
    reg: &PieceRegistry,
    out: &mut Vec<Diagnostic>,
)
    requires
        consistent_check(*f),
        forall|a: &str, b: &str, x: &serde_json::Value| f.requires((a, b, x)),
    ensures
        views(final(out)@) == views(old(out)@) + node_findings_upto(*f, *g, *reg, g.nodes.key_seq().len() as int),
{
    let n = g.nodes.len();
    let mut i: usize = 0;
    while i < n
        invariant
            consistent_check(*f),
            forall|a: &str, b: &str, x: &serde_json::Value| f.requires((a, b, x)),
            n == g.nodes.key_seq().len(),
            n == g.nodes.value_seq().len(),
            i <= n,
            views(out@) == views(old(out)@) + node_findings_upto(*f, *g, *reg, i as int),
        decreases n - i,
    {
        check_node_params(f, g, reg, i, out);
        proof {
            assert(views(out@) =~= views(old(out)@) + node_findings_upto(*f, *g, *reg, i + 1));
        }
        i = i + 1;
    }
}

// ---------------------------------------------------------------------------
// Computing types
// ---------------------------------------------------------------------------

fn base_output_types(g: &Graph, reg: &PieceRegistry) -> (r: SortedMap<GridPos, PortType>)
    ensures
        type_views(r.as_map()) == base_types(*g, *reg),
{
    let n = g.nodes.len();
    let mut t: SortedMap<GridPos, PortType> = SortedMap::new();
    let mut i: usize = 0;
    proof {
        assert(type_views(t.as_map()) =~= base_types_upto(*g, *reg, 0));
    }
    while i < n
        invariant
            n == g.nodes.key_seq().len(),
            n == g.nodes.value_seq().len(),
            i <= n,
            type_views(t.as_map()) == base_types_upto(*g, *reg, i as int),
        decreases n - i,
    {
        let node = g.nodes.value_at(i);
        let p = *g.nodes.key_at(i);
        let ghost before = t.as_map();
        match reg.get(node.piece_id.as_str()) {
            Some(d) => match &d.output_type {
                Some(ty) => {
                    t.insert(p, ty.clone());
                    proof {
                        assert(type_views(t.as_map()) =~= type_views(before).insert(p, ty@));
                    }
                },
                None => {},
            },
            None => {},
        }
        i = i + 1;
    }
    t
}

/// Connects a source of type `source` into a port of type `target`.
fn connect(target: &PortType, source: &PortType) -> (r: Result<crate::types::PortTypeConnection, PortTypeConnectionError>)
    ensures
        match spec_connect(target@, source@) {
            Ok((v, b)) => r matches Ok(c) && c.effective_type@ == v && c.bridge_kind == b,
            Err(kinds) => r matches Err(e) && (kinds ==> e == PortTypeConnectionError::ValueMismatch {
                expected: *target,
                got: *source,
            }) && (!kinds ==> e == PortTypeConnectionError::UnsupportedDomain { expected: *target, got: *source }),
        },
{
    target.resolve_connection(source)
}

proof fn lemma_first_incoming(g: Graph, p: GridPos, pid: Seq<char>, j: int)
    ensures
        first_incoming_from(g, p, pid, j) matches Some(k) ==> 0 <= j <= k < g.edges.value_seq().len()
            && g.edges.value_seq()[k].to_node == p && g.edges.value_seq()[k].to_param@ == pid,
    decreases g.edges.value_seq().len() - j,
{
    if 0 <= j < g.edges.value_seq().len() {
        lemma_first_incoming(g, p, pid, j + 1);
    }
}

/// The first edge into parameter `pid` of the node at `p`.
fn first_incoming(g: &Graph, p: GridPos, pid: &str) -> (r: Option<usize>)
    ensures
        match first_incoming_from(*g, p, pid@, 0) {
            Some(j) => r == Some(j as usize),
            None => r is None,
        },
{
    let n = g.edges.len();
    let mut j: usize = 0;
    while j < n
        invariant
            n == g.edges.value_seq().len(),
            n == g.edges.key_seq().len(),
            j <= n,
            first_incoming_from(*g, p, pid@, 0) == first_incoming_from(*g, p, pid@, j as int),
        decreases n - j,
    {
        let e = g.edges.value_at(j);
        if e.to_node == p && str_eq(e.to_param.as_str(), pid) {
            return Some(j);
        }
        j = j + 1;
    }
    None
}

/// The type parameter `pid` of node `n` at `p` takes (see `resolved_input`).
fn resolve_input<F: Fn(&str, &str, &serde_json::Value) -> bool>(
    f: &F,
    g: &Graph,
    p: GridPos,
    n: &Node,
    d: &PieceDef,
    pid: &str,
    s: &ParamSchema,
    t: &SortedMap<GridPos, PortType>,
) -> (r: Option<PortType>)
    requires
        consistent_check(*f),
        forall|a: &str, b: &str, x: &serde_json::Value| f.requires((a, b, x)),
    ensures
        match resolved_input(*f, *g, p, *n, *d, pid@, *s, type_views(t.as_map())) {
            Some(v) => r matches Some(x) && x@ == v,
            None => r is None,
        },
{
    proof {
        lemma_first_incoming(*g, p, pid@, 0);
    }
    match first_incoming(g, p, pid) {
        Some(j) => {
            let _ = g.edges.len();
            let src = g.edges.value_at(j).from;
            match t.get(&src) {
                Some(st) => match connect(&s.expected_port_type(), st) {
                    Ok(c) => Some(c.effective_type),
                    Err(_) => None,
                },
                None => None,
            }
        },
        None => match n.inline_params.get(&Name::new(pid)) {
            Some(v) => if ask(f, d.id.as_str(), pid, v) {
                Some(accepted_port_type(s, v))
            } else {
                None
            },
            None => match s {
                ParamSchema::Custom { default, .. } => match default {
                    Some(dv) => if ask(f, d.id.as_str(), pid, dv) {
                        Some(accepted_port_type(s, dv))
                    } else {
                        None
                    },
                    None => None,
                },
                _ => Some(s.expected_port_type()),
            },
        },
    }
}

/// Sets the type of the node at `p`.
fn set_type(t: &mut SortedMap<GridPos, PortType>, p: GridPos, ty: PortType)
    ensures
        type_views(final(t).as_map()) == type_views(old(t).as_map()).insert(p, ty@),
{
    t.insert(p, ty);
    proof {
        assert(type_views(t.as_map()) =~= type_views(old(t).as_map()).insert(p, ty@));
    }
}

/// Reconciles the delay at the `i`-th node (see `delay_step`).
fn reconcile_delay<F: Fn(&str, &str, &serde_json::Value) -> bool>(
    f: &F,
    g: &Graph,
    reg: &PieceRegistry,
    i: usize,
    t: &mut SortedMap<GridPos, PortType>,
    out: &mut Vec<Diagnostic>,
)
    requires
        consistent_check(*f),
        forall|a: &str, b: &str, x: &serde_json::Value| f.requires((a, b, x)),
        i < g.nodes.key_seq().len(),
        g.nodes.key_seq().len() == g.nodes.value_seq().len(),
    ensures
        type_views(final(t).as_map()) == delay_step(*f, *g, *reg, i as int, type_views(old(t).as_map())).0,
        views(final(out)@) == views(old(out)@) + delay_step(*f, *g, *reg, i as int, type_views(old(t).as_map())).1,
{
    let p = *g.nodes.key_at(i);
    let node = g.nodes.value_at(i);
    proof {
        assert(views(old(out)@) + Seq::<DiagnosticView>::empty() =~= views(old(out)@));
    }
    if !str_eq(node.piece_id.as_str(), DELAY_PIECE_ID) {
        return ;
    }
    let d = match reg.get(node.piece_id.as_str()) {
        None => {
            return ;
        },
        Some(d) => d,
    };
    let dp = match find_param(d, "default") {
        None => {
            return ;
        },
        Some(x) => x,
    };
    let dt = resolve_input(f, g, p, node, d, "default", &dp.schema, t);
    let vp = match find_param(d, "value") {
        None => {
            return ;
        },
        Some(x) => x,
    };
    let ft = resolve_input(f, g, p, node, d, "value", &vp.schema, t);
    match (dt, ft) {
        (Some(a), Some(b)) => match connect(&b, &a) {
            Ok(c) => set_type(t, p, c.effective_type),
            Err(_) => match connect(&a, &b) {
                Ok(c) => set_type(t, p, c.effective_type),
                Err(_) => {
                    push_diag(
                        out,
                        Diagnostic::error(DiagnosticKind::DelayTypeMismatch { default: a, feedback: b }, Some(p)),
                    );
                    set_type(t, p, PortType::any());
                },
            },
        },
        (Some(a), None) => set_type(t, p, a),
        (None, Some(b)) => set_type(t, p, b),
        (None, None) => {},
    }
}

/// The output types after reconciling every delay, with the delay findings.
fn output_types<F: Fn(&str, &str, &serde_json::Value) -> bool>(
    f: &F,
    g: &Graph,
    reg: &PieceRegistry,
    out: &mut Vec<Diagnostic>,
) -> (r: SortedMap<GridPos, PortType>)
    requires
        consistent_check(*f),
        forall|a: &str, b: &str, x: &serde_json::Value| f.requires((a, b, x)),
    ensures
        type_views(r.as_map()) == spec_output_types(*f, *g, *reg),
        views(final(out)@) == views(old(out)@) + delays_upto(*f, *g, *reg, g.nodes.key_seq().len() as int).1,
{
    let mut t = base_output_types(g, reg);
    let n = g.nodes.len();
    let mut i: usize = 0;
    proof {
        assert(views(out@) =~= views(old(out)@) + delays_upto(*f, *g, *reg, 0).1);
    }
    while i < n
        invariant
            consistent_check(*f),
            forall|a: &str, b: &str, x: &serde_json::Value| f.requires((a, b, x)),
            n == g.nodes.key_seq().len(),
            n == g.nodes.value_seq().len(),
            i <= n,
            type_views(t.as_map()) == delays_upto(*f, *g, *reg, i as int).0,
            views(out@) == views(old(out)@) + delays_upto(*f, *g, *reg, i as int).1,
        decreases n - i,
    {
        reconcile_delay(f, g, reg, i, &mut t, out);
        proof {
            assert(views(out@) =~= views(old(out)@) + delays_upto(*f, *g, *reg, i + 1).1);
        }
        i = i + 1;
    }
    t
}

/// A checked edge runs between nodes of registered pieces into a parameter
/// its target piece declares.
proof fn lemma_pending(g: Graph, reg: PieceRegistry, k: int)
    requires
        0 <= k <= g.edges.value_seq().len(),
    ensures
        forall|t: int|
            0 <= t < pending_upto(g, reg, k).len() ==> {
                let j = #[trigger] pending_upto(g, reg, k)[t];
                let e = g.edges.value_seq()[j];
                &&& 0 <= j < k
                &&& g.nodes.as_map().contains_key(e.from)
                &&& g.nodes.as_map().contains_key(e.to_node)
                &&& registered(reg, g.nodes.as_map()[e.to_node].piece_id@)
                &&& first_param(def_of(reg, g.nodes.as_map()[e.to_node]), e.to_param@) is Some
            },
    decreases k,
{
    if k > 0 {
        lemma_pending(g, reg, k - 1);
    }
}

/// Type-checks the `idx`-th edge (see `type_check`).
fn check_edge_type(
    g: &Graph,
    reg: &PieceRegistry,
    t: &SortedMap<GridPos, PortType>,
    idx: usize,
    bridges: &mut SortedMap<EdgeId, DomainBridge>,
    out: &mut Vec<Diagnostic>,
)
    requires
        idx < g.edges.value_seq().len(),
        ({
            let e = g.edges.value_seq()[idx as int];
            &&& g.nodes.as_map().contains_key(e.to_node)
            &&& registered(*reg, g.nodes.as_map()[e.to_node].piece_id@)
            &&& first_param(def_of(*reg, g.nodes.as_map()[e.to_node]), e.to_param@) is Some
        }),
    ensures
        views(final(out)@) == views(old(out)@) + type_check(*g, *reg, type_views(t.as_map()), idx as int).0,
        bridge_views(final(bridges).as_map()) == match type_check(*g, *reg, type_views(t.as_map()), idx as int).1 {
            Some(b) => bridge_views(old(bridges).as_map()).insert(b.edge_id, b),
            None => bridge_views(old(bridges).as_map()),
        },
{
    let _ = g.edges.len();
    let e = g.edges.value_at(idx);
    let to_node = match g.nodes.get(&e.to_node) {
        Some(x) => x,
        None => {
            return ;
        },
    };
    let d = match reg.get(to_node.piece_id.as_str()) {
        Some(x) => x,
        None => {
            return ;
        },
    };
    let prm = match find_param(d, e.to_param.as_str()) {
        Some(x) => x,
        None => {
            return ;
        },
    };
    proof {
        assert(views(old(out)@) + Seq::<DiagnosticView>::empty() =~= views(old(out)@));
    }
    let src = match t.get(&e.from) {
        None => {
            push_diag(out, edge_error(DiagnosticKind::OutputFromTerminal { position: e.from }, e));
            return ;
        },
        Some(x) => x,
    };
    let expected = prm.schema.expected_port_type();
    match connect(&expected, src) {
        Ok(c) => match c.bridge_kind {
            Some(kind) => {
                let b = DomainBridge {
                    edge_id: e.id,
                    source_pos: e.from,
                    target_pos: e.to_node,
                    param: e.to_param.clone(),
                    kind,
                };
                let ghost before = bridges.as_map();
                bridges.insert(e.id, b);
                proof {
                    assert(bridge_views(bridges.as_map()) =~= bridge_views(before).insert(
                        e.id@,
                        BridgeView { edge_id: e.id@, source_pos: e.from, target_pos: e.to_node, param: e.to_param@, kind },
                    ));
                }
            },
            None => {},
        },
        Err(PortTypeConnectionError::ValueMismatch { expected, got }) => {
            push_diag(out, edge_error(DiagnosticKind::TypeMismatch { expected, got, param: e.to_param.clone() }, e));
        },
        Err(PortTypeConnectionError::UnsupportedDomain { expected, got }) => {
            push_diag(
                out,
                edge_error(DiagnosticKind::UnsupportedDomainCrossing { expected, got, param: e.to_param.clone() }, e),
            );
        },
    }
}

fn check_edge_types(
    g: &Graph,
    reg: &PieceRegistry,
    t: &SortedMap<GridPos, PortType>,
    pending: &Vec<usize>,
    out: &mut Vec<Diagnostic>,
) -> (bridges: SortedMap<EdgeId, DomainBridge>)
    requires
        pending@.map_values(|i: usize| i as int) == spec_pending(*g, *reg),
    ensures
        views(final(out)@) == views(old(out)@) + type_checks_upto(
            *g,
            *reg,
            type_views(t.as_map()),
            spec_pending(*g, *reg),
            pending@.len() as int,
        ).0,
        bridge_views(bridges.as_map()) == type_checks_upto(
            *g,
            *reg,
            type_views(t.as_map()),
            spec_pending(*g, *reg),
            pending@.len() as int,
        ).1,
{
    let ghost ps = spec_pending(*g, *reg);
    let ghost tv = type_views(t.as_map());
    let ne = g.edges.len();
    proof {
        lemma_pending(*g, *reg, ne as int);
    }
    let mut bridges: SortedMap<EdgeId, DomainBridge> = SortedMap::new();
    let mut k: usize = 0;
    proof {
        assert(bridge_views(bridges.as_map()) =~= Map::<u128, BridgeView>::empty());
        assert(views(out@) =~= views(old(out)@) + type_checks_upto(*g, *reg, tv, ps, 0).0);
    }
    while k < pending.len()
        invariant
            ps == spec_pending(*g, *reg),
            tv == type_views(t.as_map()),
            ne == g.edges.value_seq().len(),
            pending@.map_values(|i: usize| i as int) == ps,
            forall|q: int|
                0 <= q < ps.len() ==> {
                    let j = #[trigger] ps[q];
                    let e = g.edges.value_seq()[j];
                    &&& 0 <= j < ne
                    &&& g.nodes.as_map().contains_key(e.to_node)
                    &&& registered(*reg, g.nodes.as_map()[e.to_node].piece_id@)
                    &&& first_param(def_of(*reg, g.nodes.as_map()[e.to_node]), e.to_param@) is Some
                },
            k <= pending@.len(),
            views(out@) == views(old(out)@) + type_checks_upto(*g, *reg, tv, ps, k as int).0,
            bridge_views(bridges.as_map()) == type_checks_upto(*g, *reg, tv, ps, k as int).1,
        decreases pending@.len() - k,
    {
        let idx = pending[k];
        proof {
            assert(ps[k as int] == idx as int);
        }
        check_edge_type(g, reg, t, idx, &mut bridges, out);
        proof {
            assert(views(out@) =~= views(old(out)@) + type_checks_upto(*g, *reg, tv, ps, k + 1).0);
        }
        k = k + 1;
    }
    bridges
}

fn terminal_cells(g: &Graph, reg: &PieceRegistry) -> (r: Vec<GridPos>)
    ensures
        r@ == spec_terminals(*g, *reg),
{
    let n = g.nodes.len();
    let mut r: Vec<GridPos> = Vec::new();
    let mut i: usize = 0;
    while i < n
        invariant
            n == g.nodes.key_seq().len(),
            n == g.nodes.value_seq().len(),
            i <= n,
            r@ == terminals_upto(*g, *reg, i as int),
        decreases n - i,
    {
        let node = g.nodes.value_at(i);
        let p = *g.nodes.key_at(i);
        match reg.get(node.piece_id.as_str()) {
            Some(d) => {
                if d.is_output() {
                    r.push(p);
                }
            },
            None => {},
        }
        i = i + 1;
    }
    r
}

fn report_outputs(g: &Graph, reg: &PieceRegistry, terminals: &Vec<GridPos>, out: &mut Vec<Diagnostic>)
    requires
        terminals@ == spec_terminals(*g, *reg),
    ensures
        views(final(out)@) == views(old(out)@) + output_findings(*g, *reg),
{
    if terminals.len() == 0 {
        push_diag(out, Diagnostic::error(DiagnosticKind::NoOutputNode, None));
        return ;
    }
    let reachable = g.reachable_nodes(terminals.as_slice());
    let n = g.nodes.len();
    let mut i: usize = 0;
    proof {
        assert(views(out@) =~= views(old(out)@) + unreachable_upto(*g, terminals@, 0));
    }
    while i < n
        invariant
            n == g.nodes.key_seq().len(),
            i <= n,
            forall|p: GridPos| reachable.set_view().contains(p) <==> feeds_into(*g, p, terminals@),
            views(out@) == views(old(out)@) + unreachable_upto(*g, terminals@, i as int),
        decreases n - i,
    {
        let p = *g.nodes.key_at(i);
        if !reachable.contains(&p) {
            push_diag(out, Diagnostic::warning(DiagnosticKind::UnreachableNode { position: p }, Some(p)));
        }
        proof {
            assert(views(out@) =~= views(old(out)@) + unreachable_upto(*g, terminals@, i + 1));
        }
        i = i + 1;
    }
}

/// Analyses a graph: checks pieces, edges and parameters, orders the nodes
/// for evaluation (feedback into delays ordering nothing), infers each
/// node's output type and reconciles delays, type-checks the edges and
/// records the domain bridges they need, and finds the output nodes and the
/// nodes that feed none. `inline_value_ok` is the host's check of an inline
/// or default value against its parameter's schema, which reads numeric
/// bounds the library does not hold.
pub fn semantic_pass<F: Fn(&str, &str, &serde_json::Value) -> bool>(
    graph: &Graph,
    registry: &PieceRegistry,
    inline_value_ok: &F,
) -> (r: SemanticResult)
    requires
        nodes_interior(*graph),
        consistent_check(*inline_value_ok),
        forall|a: &str, b: &str, x: &serde_json::Value| inline_value_ok.requires((a, b, x)),
    ensures
        views(r.diagnostics@) == spec_semantic_diagnostics(*inline_value_ok, *graph, *registry),
        r.eval_order@ == spec_eval_order(*graph),
        r.terminals@ == spec_terminals(*graph, *registry),
        type_views(r.output_types.as_map()) == spec_output_types(*inline_value_ok, *graph, *registry),
        bridge_views(r.domain_bridges.as_map()) == spec_domain_bridges(*inline_value_ok, *graph, *registry),
        r.delay_edges.set_view() == spec_delay_edges(*graph),
{
    let mut diagnostics: Vec<Diagnostic> = Vec::new();
    proof {
        assert(views(diagnostics@) =~= Seq::<DiagnosticView>::empty());
    }
    report_unknown_pieces(graph, registry, &mut diagnostics);
    let pending = check_edges(graph, registry, &mut diagnostics);
    check_all_node_params(inline_value_ok, graph, registry, &mut diagnostics);
    let topo = topo_sort_with_delay_edges(graph);
    let ghost before_cycles = views(diagnostics@);
    let mut cycles = topo.diagnostics;
    diagnostics.append(&mut cycles);
    proof {
        assert(views(diagnostics@) =~= before_cycles + cycle_diagnostics(*graph));
    }
    let output_types = output_types(inline_value_ok, graph, registry, &mut diagnostics);
    let domain_bridges = check_edge_types(graph, registry, &output_types, &pending, &mut diagnostics);
    let terminals = terminal_cells(graph, registry);
    report_outputs(graph, registry, &terminals, &mut diagnostics);
    proof {
        let spend = spec_pending(*graph, *registry);
        assert(pending@.len() == spend.len());
        assert(views(diagnostics@) =~= spec_semantic_diagnostics(*inline_value_ok, *graph, *registry));
    }
    SemanticResult {
        diagnostics,
        eval_order: topo.eval_order,
        terminals,
        output_types,
        domain_bridges,
        delay_edges: topo.delay_edges,
    }
}

} // verus!
