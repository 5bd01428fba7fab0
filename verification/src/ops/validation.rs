//! Whether an edge may connect two nodes: adjacency, facing sides, free
//! target parameters and compatible types, with repairs for refusals.

use vstd::prelude::*;

use crate::graph::{edge_views, Edge, EdgeView, Graph, Node};
use crate::internal::{effective_input_side, find_param, first_param, spec_effective_input_side, spec_side_from_to_node};
use crate::ops::types::{
    probe_accepted, probe_rejected, suggestion_views, EdgeConnectProbeReason, EdgeTargetParamProbe,
    ProbeView, RepairSuggestion, SuggestionView,
};
use crate::piece::{schema_domain, schema_kind, ParamSchema, PieceDef};
use crate::piece_registry::PieceRegistry;
use crate::text::{append_decimal, append_str, debug_str, decimal, str_debug, str_eq, string_of_chars};
use crate::types::{adjacent_in_direction, spec_adjacent, spec_connects, spec_opposite, ExecutionDomain, GridPos, PortType, TileSide};

verus! {

// Texts of refusals
// ---------------------------------------------------------------------------

/// A cell written as `(col, row)`.
pub open spec fn cell_text(p: GridPos) -> Seq<char> {
    "("@ + decimal(p.col as int) + ", "@ + decimal(p.row as int) + ")"@
}

/// How `{:?}` writes a side.
pub open spec fn side_debug(s: TileSide) -> Seq<char> {
    match s {
        TileSide::TOP => "TOP"@,
        TileSide::BOTTOM => "BOTTOM"@,
        TileSide::RIGHT => "RIGHT"@,
        TileSide::LEFT => "LEFT"@,
    }
}

/// How `{:?}` writes an optional domain.
pub open spec fn domain_debug(d: Option<ExecutionDomain>) -> Seq<char> {
    match d {
        None => "None"@,
        Some(ExecutionDomain::Audio) => "Some(Audio)"@,
        Some(ExecutionDomain::Control) => "Some(Control)"@,
        Some(ExecutionDomain::Event) => "Some(Event)"@,
    }
}

/// How `{:?}` writes a port type of kind `kind` in domain `domain`.
pub open spec fn port_type_debug(kind: Seq<char>, domain: Option<ExecutionDomain>) -> Seq<char> {
    "PortType { kind: "@ + str_debug(kind) + ", domain: "@ + domain_debug(domain) + " }"@
}

pub(crate) fn append_cell(buf: &mut Vec<char>, p: &GridPos)
    ensures
        final(buf)@ == old(buf)@ + cell_text(*p),
{
    let ghost start = buf@;
    append_str(buf, "(");
    append_decimal(buf, p.col as i64);
    append_str(buf, ", ");
    append_decimal(buf, p.row as i64);
    append_str(buf, ")");
    proof {
        assert(buf@ =~= start + cell_text(*p));
    }
}

fn side_debug_str(s: TileSide) -> (r: &'static str)
    ensures
        r@ == side_debug(s),
{
    match s {
        TileSide::TOP => "TOP",
        TileSide::BOTTOM => "BOTTOM",
        TileSide::RIGHT => "RIGHT",
        TileSide::LEFT => "LEFT",
    }
}

fn domain_debug_str(d: Option<ExecutionDomain>) -> (r: &'static str)
    ensures
        r@ == domain_debug(d),
{
    match d {
        None => "None",
        Some(ExecutionDomain::Audio) => "Some(Audio)",
        Some(ExecutionDomain::Control) => "Some(Control)",
        Some(ExecutionDomain::Event) => "Some(Event)",
    }
}

fn append_port_type_debug(buf: &mut Vec<char>, t: &PortType)
    ensures
        final(buf)@ == old(buf)@ + port_type_debug(t.kind_view(), t.domain_view()),
{
    let ghost start = buf@;
    append_str(buf, "PortType { kind: ");
    let quoted = debug_str(t.as_str());
    append_str(buf, quoted.as_str());
    append_str(buf, ", domain: ");
    append_str(buf, domain_debug_str(t.domain()));
    append_str(buf, " }");
    proof {
        assert(buf@ =~= start + port_type_debug(t.kind_view(), t.domain_view()));
    }
}

/// `prefix` followed by a cell.
pub(crate) fn text_with_cell(prefix: &str, p: &GridPos) -> (r: String)
    ensures
        r@ == prefix@ + cell_text(*p),
{
    let mut buf: Vec<char> = Vec::new();
    append_str(&mut buf, prefix);
    append_cell(&mut buf, p);
    proof {
        assert(buf@ =~= prefix@ + cell_text(*p));
    }
    string_of_chars(buf.as_slice())
}

/// `prefix`, then `name`, then a closing quote.
pub(crate) fn quoted_name(prefix: &str, name: &str) -> (r: String)
    ensures
        r@ == prefix@ + name@ + "'"@,
{
    let mut buf: Vec<char> = Vec::new();
    append_str(&mut buf, prefix);
    append_str(&mut buf, name);
    append_str(&mut buf, "'");
    proof {
        assert(buf@ =~= prefix@ + name@ + "'"@);
    }
    string_of_chars(buf.as_slice())
}

// The two ends of an edge
// ---------------------------------------------------------------------------

/// The source node, target node and their piece definitions, or the refusal
/// for the first of them that is missing.
pub open spec fn spec_connect_base(g: Graph, reg: PieceRegistry, from: GridPos, to: GridPos) -> Result<
    (Node, Node, PieceDef, PieceDef),
    ProbeView,
> {
    let nodes = g.nodes.as_map();
    if !nodes.contains_key(from) {
        Err(probe_rejected(EdgeConnectProbeReason::UnknownSourceNode, "missing source node at "@ + cell_text(from), seq![]))
    } else if !nodes.contains_key(to) {
        Err(probe_rejected(EdgeConnectProbeReason::UnknownTargetNode, "missing target node at "@ + cell_text(to), seq![]))
    } else if !reg.defs().contains_key(nodes[from].piece_id@) {
        Err(
            probe_rejected(
                EdgeConnectProbeReason::UnknownSourcePiece,
                "unknown source piece '"@ + nodes[from].piece_id@ + "'"@,
                seq![],
            ),
        )
    } else if !reg.defs().contains_key(nodes[to].piece_id@) {
        Err(
            probe_rejected(
                EdgeConnectProbeReason::UnknownTargetPiece,
                "unknown target piece '"@ + nodes[to].piece_id@ + "'"@,
                seq![],
            ),
        )
    } else {
        Ok((nodes[from], nodes[to], reg.defs()[nodes[from].piece_id@], reg.defs()[nodes[to].piece_id@]))
    }
}

pub(crate) fn resolve_edge_connect_base<'a, 'b>(
    graph: &'a Graph,
    registry: &'b PieceRegistry,
    from: &GridPos,
    to_node: &GridPos,
) -> (r: Result<(&'a Node, &'a Node, &'b PieceDef, &'b PieceDef), EdgeTargetParamProbe>)
    ensures
        match r {
            Ok((a, b, c, d)) => spec_connect_base(*graph, *registry, *from, *to_node) == Ok::<
                (Node, Node, PieceDef, PieceDef),
                ProbeView,
            >((*a, *b, *c, *d)),
            Err(p) => spec_connect_base(*graph, *registry, *from, *to_node) == Err::<
                (Node, Node, PieceDef, PieceDef),
                ProbeView,
            >(p@),
        },
{
    let from_node = match graph.nodes.get(from) {
        Some(n) => n,
        None => {
            let detail = text_with_cell("missing source node at ", from);
            return Err(EdgeTargetParamProbe::reject(EdgeConnectProbeReason::UnknownSourceNode, detail.as_str()));
        },
    };
    let to_node_ref = match graph.nodes.get(to_node) {
        Some(n) => n,
        None => {
            let detail = text_with_cell("missing target node at ", to_node);
            return Err(EdgeTargetParamProbe::reject(EdgeConnectProbeReason::UnknownTargetNode, detail.as_str()));
        },
    };
    let from_def = match registry.get(from_node.piece_id.as_str()) {
        Some(d) => d,
        None => {
            let detail = quoted_name("unknown source piece '", from_node.piece_id.as_str());
            return Err(EdgeTargetParamProbe::reject(EdgeConnectProbeReason::UnknownSourcePiece, detail.as_str()));
        },
    };
    let to_def = match registry.get(to_node_ref.piece_id.as_str()) {
        Some(d) => d,
        None => {
            let detail = quoted_name("unknown target piece '", to_node_ref.piece_id.as_str());
            return Err(EdgeTargetParamProbe::reject(EdgeConnectProbeReason::UnknownTargetPiece, detail.as_str()));
        },
    };
    Ok((from_node, to_node_ref, from_def, to_def))
}

/// The side a node sends output from, for pieces that declare an output
/// type: the node's own choice, else the piece's.
pub open spec fn spec_node_output_side(node: Node, def: PieceDef) -> Option<TileSide> {
    if def.output_type is None {
        None
    } else if node.output_side is Some {
        node.output_side
    } else {
        def.output_side
    }
}

pub(crate) fn node_output_side(node: &Node, piece: &PieceDef) -> (r: Option<TileSide>)
    ensures
        r == spec_node_output_side(*node, *piece),
{
    if piece.output_type.is_none() {
        None
    } else {
        match node.output_side {
            Some(side) => Some(side),
            None => piece.output_side,
        }
    }
}

/// The type the source sends into a parameter on side `target_side`: a
/// refusal when the source's output side does not face it (with the repair
/// of turning the output) or when the source has no output.
pub open spec fn spec_source_type(fnode: Node, fdef: PieceDef, from: GridPos, target_side: TileSide) -> Result<
    PortType,
    ProbeView,
> {
    match spec_node_output_side(fnode, fdef) {
        Some(os) if target_side != spec_opposite(os) => Err(
            probe_rejected(
                EdgeConnectProbeReason::SideMismatch,
                "side mismatch: source "@ + side_debug(os) + " does not face target "@ + side_debug(target_side),
                seq![SuggestionView::SetOutputSide { position: from, side: spec_opposite(target_side) }],
            ),
        ),
        _ => match fdef.output_type {
            None => Err(
                probe_rejected(
                    EdgeConnectProbeReason::OutputFromTerminal,
                    "cannot connect output from terminal piece"@,
                    seq![],
                ),
            ),
            Some(t) => Ok(t),
        },
    }
}

pub(crate) fn source_output_type_for_target_side(
    from_node: &Node,
    from_def: &PieceDef,
    from: &GridPos,
    target_side: TileSide,
) -> (r: Result<PortType, EdgeTargetParamProbe>)
    ensures
        match r {
            Ok(t) => spec_source_type(*from_node, *from_def, *from, target_side) == Ok::<PortType, ProbeView>(t),
            Err(p) => spec_source_type(*from_node, *from_def, *from, target_side) == Err::<PortType, ProbeView>(
                p@,
            ),
        },
{
    match node_output_side(from_node, from_def) {
        Some(output_side) => {
            if !output_side.faces(target_side) {
                let mut buf: Vec<char> = Vec::new();
                append_str(&mut buf, "side mismatch: source ");
                append_str(&mut buf, side_debug_str(output_side));
                append_str(&mut buf, " does not face target ");
                append_str(&mut buf, side_debug_str(target_side));
                let detail = string_of_chars(buf.as_slice());
                let mut suggestions: Vec<RepairSuggestion> = Vec::new();
                suggestions.push(RepairSuggestion::SetOutputSide { position: *from, side: target_side.opposite() });
                proof {
                    assert(detail@ =~= "side mismatch: source "@ + side_debug(output_side) + " does not face target "@
                        + side_debug(target_side));
                    assert(suggestion_views(suggestions@) =~= seq![
                        SuggestionView::SetOutputSide { position: *from, side: spec_opposite(target_side) },
                    ]);
                }
                return Err(
                    EdgeTargetParamProbe::reject_with(EdgeConnectProbeReason::SideMismatch, detail.as_str(), suggestions),
                );
            }
        },
        None => {},
    }
    match &from_def.output_type {
        Some(t) => Ok(t.clone()),
        None => Err(
            EdgeTargetParamProbe::reject(
                EdgeConnectProbeReason::OutputFromTerminal,
                "cannot connect output from terminal piece",
            ),
        ),
    }
}

// Edges into a parameter
// ---------------------------------------------------------------------------

/// `e` feeds parameter `pid` of the node at `to`.
pub open spec fn edge_into(e: Edge, to: GridPos, pid: Seq<char>) -> bool {
    e.to_node == to && e.to_param@ == pid
}

/// The index of the first of `edges` at or after `k` that feeds parameter
/// `pid` at `to`.
pub open spec fn first_edge_into_from(edges: Seq<Edge>, to: GridPos, pid: Seq<char>, k: int) -> Option<int>
    decreases edges.len() - k,
{
    if k < 0 || k >= edges.len() {
        None
    } else if edge_into(edges[k], to, pid) {
        Some(k)
    } else {
        first_edge_into_from(edges, to, pid, k + 1)
    }
}

/// The first edge of `g`, in id order, that feeds parameter `pid` at `to`.
pub open spec fn first_edge_into(g: Graph, to: GridPos, pid: Seq<char>) -> Option<int> {
    first_edge_into_from(g.edges.value_seq(), to, pid, 0)
}

/// The edge view `e` feeds parameter `pid` at `to`.
pub open spec fn view_into(e: EdgeView, to: GridPos, pid: Seq<char>) -> bool {
    e.to_node == to && e.to_param == pid
}

/// Some edge of `edges` feeds parameter `pid` at `to`.
pub open spec fn slot_taken_in(edges: Map<u128, EdgeView>, to: GridPos, pid: Seq<char>) -> bool {
    exists|k: u128| edges.contains_key(k) && #[trigger] view_into(edges[k], to, pid)
}

/// Some edge of `g` feeds parameter `pid` at `to`.
pub open spec fn slot_taken(g: Graph, to: GridPos, pid: Seq<char>) -> bool {
    slot_taken_in(edge_views(g.edges.as_map()), to, pid)
}

proof fn lemma_first_edge_into(edges: Seq<Edge>, to: GridPos, pid: Seq<char>, k: int)
    requires
        0 <= k <= edges.len(),
    ensures
        match first_edge_into_from(edges, to, pid, k) {
            Some(i) => k <= i < edges.len() && edge_into(edges[i], to, pid) && forall|j: int|
                k <= j < i ==> !edge_into(#[trigger] edges[j], to, pid),
            None => forall|j: int| k <= j < edges.len() ==> !edge_into(#[trigger] edges[j], to, pid),
        },
    decreases edges.len() - k,
{
    if k < edges.len() {
        lemma_first_edge_into(edges, to, pid, k + 1);
    }
}

/// The index, in id order, of the first edge feeding parameter `pid` at `to`.
pub(crate) fn find_edge_into(graph: &Graph, to: &GridPos, pid: &str) -> (r: Option<usize>)
    ensures
        match r {
            Some(i) => first_edge_into(*graph, *to, pid@) == Some(i as int) && i < graph.edges.value_seq().len() && i
                < graph.edges.key_seq().len(),
            None => first_edge_into(*graph, *to, pid@) is None,
        },
        (r is Some) == slot_taken(*graph, *to, pid@),
{
    let n = graph.edges.len();
    let ghost edges = graph.edges.value_seq();
    proof {
        lemma_first_edge_into(edges, *to, pid@, 0);
    }
    let mut i: usize = 0;
    while i < n
        invariant
            n == graph.edges.key_seq().len(),
            graph.edges.key_seq().len() == graph.edges.value_seq().len(),
            forall|j: int|
                #![trigger graph.edges.key_seq()[j]]
                0 <= j < graph.edges.key_seq().len() ==> graph.edges.as_map().contains_key(graph.edges.key_seq()[j])
                    && graph.edges.as_map()[graph.edges.key_seq()[j]] == graph.edges.value_seq()[j],
            edges == graph.edges.value_seq(),
            i <= n,
            first_edge_into(*graph, *to, pid@) == first_edge_into_from(edges, *to, pid@, i as int),
            forall|j: int| 0 <= j < i ==> !edge_into(#[trigger] edges[j], *to, pid@),
        decreases n - i,
    {
        let e = graph.edges.value_at(i);
        if e.to_node == *to && str_eq(e.to_param.as_str(), pid) {
            proof {
                assert(edge_into(edges[i as int], *to, pid@));
                let k = graph.edges.key_seq()[i as int];
                assert(graph.edges.as_map().contains_key(k) && graph.edges.as_map()[k] == edges[i as int]);
                assert(view_into(edge_views(graph.edges.as_map())[k], *to, pid@));
            }
            return Some(i);
        }
        proof {
            assert(!edge_into(edges[i as int], *to, pid@));
        }
        i = i + 1;
    }
    proof {
        assert forall|k: u128| edge_views(graph.edges.as_map()).contains_key(k) implies !#[trigger] view_into(
            edge_views(graph.edges.as_map())[k],
            *to,
            pid@,
        ) by {
            let j = choose|j: int| 0 <= j < graph.edges.key_seq().len() && graph.edges.key_seq()[j] == k;
            assert(graph.edges.as_map()[graph.edges.key_seq()[j]] == edges[j]);
            assert(!edge_into(edges[j], *to, pid@));
        }
    }
    None
}

// Checking a named target parameter
// ---------------------------------------------------------------------------

/// The type a schema expects, written by `{:?}`.
pub open spec fn schema_debug(s: ParamSchema) -> Seq<char> {
    port_type_debug(schema_kind(s), schema_domain(s))
}

/// A source of type `t` can feed a parameter of schema `s`.
pub open spec fn schema_accepts(s: ParamSchema, t: PortType) -> bool {
    spec_connects(schema_kind(s), schema_domain(s), t.kind_view(), t.domain_view())
}

/// What `validate_edge_connect` answers for an edge from `from` into
/// parameter `pid` of the node at `to`: `Ok` when the source is the
/// neighbour on the parameter's side, its output faces that side, no edge
/// feeds the parameter yet and the types connect; else the first refusal, in
/// that order, after those for missing nodes and pieces and an unknown
/// parameter.
pub open spec fn spec_validate_edge_connect(
    g: Graph,
    reg: PieceRegistry,
    from: GridPos,
    to: GridPos,
    pid: Seq<char>,
) -> Result<(), ProbeView> {
    match spec_connect_base(g, reg, from, to) {
        Err(p) => Err(p),
        Ok((fnode, tnode, fdef, tdef)) => match first_param(tdef, pid) {
            None => Err(
                probe_rejected(EdgeConnectProbeReason::UnknownTargetParam, "unknown target param '"@ + pid + "'"@, seq![]),
            ),
            Some(j) => {
                let ts = spec_effective_input_side(tnode, tdef, pid).unwrap();
                let expected = spec_adjacent(to, Some(ts));
                if expected != from {
                    Err(
                        probe_rejected(
                            EdgeConnectProbeReason::NotAdjacent,
                            "edge must come from adjacent "@ + side_debug(ts) + " cell "@ + cell_text(expected),
                            seq![SuggestionView::MoveNode { node: from, to: expected }],
                        ),
                    )
                } else {
                    match spec_source_type(fnode, fdef, from, ts) {
                        Err(p) => Err(p),
                        Ok(src) => if slot_taken(g, to, pid) {
                            Err(
                                probe_rejected(
                                    EdgeConnectProbeReason::TargetParamOccupied,
                                    "target param '"@ + pid + "' already connected"@,
                                    seq![
                                        SuggestionView::DisconnectEdge {
                                            edge_id: g.edges.value_seq()[first_edge_into(g, to, pid).unwrap()].id@,
                                        },
                                    ],
                                ),
                            )
                        } else if schema_accepts(tdef.params@[j].schema, src) {
                            Ok(())
                        } else {
                            Err(
                                probe_rejected(
                                    EdgeConnectProbeReason::TypeMismatch,
                                    "type mismatch: expected "@ + schema_debug(tdef.params@[j].schema) + ", got "@
                                        + port_type_debug(src.kind_view(), src.domain_view()),
                                    seq![],
                                ),
                            )
                        },
                    }
                }
            },
        },
    }
}

/// An edge from `from` into parameter `pid` at `to` passes every check of
/// a new connection except the one for a free parameter: both nodes and
/// pieces exist, the parameter exists, the source is its neighbour, the
/// source's output faces it and the types connect.
pub open spec fn link_ok(g: Graph, reg: PieceRegistry, from: GridPos, to: GridPos, pid: Seq<char>) -> bool {
    match spec_connect_base(g, reg, from, to) {
        Err(_) => false,
        Ok((fnode, tnode, fdef, tdef)) => match first_param(tdef, pid) {
            None => false,
            Some(j) => {
                let ts = spec_effective_input_side(tnode, tdef, pid).unwrap();
                &&& spec_adjacent(to, Some(ts)) == from
                &&& match spec_source_type(fnode, fdef, from, ts) {
                    Err(_) => false,
                    Ok(src) => schema_accepts(tdef.params@[j].schema, src),
                }
            },
        },
    }
}

/// Validation passes exactly when the link is sound and the parameter is
/// free.
pub proof fn lemma_validate_ok(g: Graph, reg: PieceRegistry, from: GridPos, to: GridPos, pid: Seq<char>)
    ensures
        (spec_validate_edge_connect(g, reg, from, to, pid) is Ok) == (link_ok(g, reg, from, to, pid) && !slot_taken(
            g,
            to,
            pid,
        )),
{
}

/// A cell that has a neighbour on every side within the `i32` range.
pub open spec fn interior(p: GridPos) -> bool {
    i32::MIN < p.col < i32::MAX && i32::MIN < p.row < i32::MAX
}

/// Validates an explicit edge from `from` into parameter `to_param` of the
/// node at `to_node` (see `spec_validate_edge_connect`).
pub fn validate_edge_connect(
    graph: &Graph,
    registry: &PieceRegistry,
    from: &GridPos,
    to_node: &GridPos,
    to_param: &str,
) -> (r: Result<(), EdgeTargetParamProbe>)
    requires
        graph.nodes.as_map().contains_key(*to_node) ==> interior(*to_node),
    ensures
        match r {
            Ok(()) => spec_validate_edge_connect(*graph, *registry, *from, *to_node, to_param@) is Ok,
            Err(p) => spec_validate_edge_connect(*graph, *registry, *from, *to_node, to_param@) == Err::<(), ProbeView>(
                p@,
            ),
        },
{
    let (from_node, to_node_ref, from_def, to_def) = match resolve_edge_connect_base(graph, registry, from, to_node) {
        Ok(base) => base,
        Err(e) => {
            return Err(e);
        },
    };
    let param_def = match find_param(to_def, to_param) {
        Some(p) => p,
        None => {
            let detail = quoted_name("unknown target param '", to_param);
            return Err(EdgeTargetParamProbe::reject(EdgeConnectProbeReason::UnknownTargetParam, detail.as_str()));
        },
    };
    let target_side = match effective_input_side(to_node_ref, to_def, to_param) {
        Some(s) => s,
        None => param_def.side,
    };
    let expected = adjacent_in_direction(to_node, Some(target_side));
    if expected != *from {
        let mut buf: Vec<char> = Vec::new();
        append_str(&mut buf, "edge must come from adjacent ");
        append_str(&mut buf, side_debug_str(target_side));
        append_str(&mut buf, " cell ");
        append_cell(&mut buf, &expected);
        let detail = string_of_chars(buf.as_slice());
        let mut suggestions: Vec<RepairSuggestion> = Vec::new();
        suggestions.push(RepairSuggestion::MoveNode { node: *from, to: expected });
        proof {
            assert(detail@ =~= "edge must come from adjacent "@ + side_debug(target_side) + " cell "@ + cell_text(
                expected,
            ));
            assert(suggestion_views(suggestions@) =~= seq![SuggestionView::MoveNode { node: *from, to: expected }]);
        }
        return Err(EdgeTargetParamProbe::reject_with(EdgeConnectProbeReason::NotAdjacent, detail.as_str(), suggestions));
    }
    let source_type = match source_output_type_for_target_side(from_node, from_def, from, target_side) {
        Ok(t) => t,
        Err(e) => {
            return Err(e);
        },
    };
    match find_edge_into(graph, to_node, to_param) {
        Some(i) => {
            let existing = graph.edges.value_at(i);
            let detail = {
                let mut buf: Vec<char> = Vec::new();
                append_str(&mut buf, "target param '");
                append_str(&mut buf, to_param);
                append_str(&mut buf, "' already connected");
                proof {
                    assert(buf@ =~= "target param '"@ + to_param@ + "' already connected"@);
                }
                string_of_chars(buf.as_slice())
            };
            let mut suggestions: Vec<RepairSuggestion> = Vec::new();
            suggestions.push(RepairSuggestion::DisconnectEdge { edge_id: existing.id.clone() });
            proof {
                assert(suggestion_views(suggestions@) =~= seq![
                    SuggestionView::DisconnectEdge { edge_id: graph.edges.value_seq()[i as int].id@ },
                ]);
            }
            return Err(
                EdgeTargetParamProbe::reject_with(EdgeConnectProbeReason::TargetParamOccupied, detail.as_str(), suggestions),
            );
        },
        None => {},
    }
    if !param_def.schema.accepts(&source_type) {
        let mut buf: Vec<char> = Vec::new();
        append_str(&mut buf, "type mismatch: expected ");
        let expected_type = param_def.schema.expected_port_type();
        append_port_type_debug(&mut buf, &expected_type);
        append_str(&mut buf, ", got ");
        append_port_type_debug(&mut buf, &source_type);
        let detail = string_of_chars(buf.as_slice());
        proof {
            assert(detail@ =~= "type mismatch: expected "@ + schema_debug(param_def.schema) + ", got "@
                + port_type_debug(source_type.kind_view(), source_type.domain_view()));
        }
        return Err(EdgeTargetParamProbe::reject(EdgeConnectProbeReason::TypeMismatch, detail.as_str()));
    }
    Ok(())
}

// Choosing a target parameter
// ---------------------------------------------------------------------------

/// The side of the node at `to` that faces `from`, when the two cells are
/// neighbours (computed without overflow).
fn side_towards(to_node: &GridPos, from: &GridPos) -> (r: Option<TileSide>)
    ensures
        r == spec_side_from_to_node(*to_node, *from),
{
    let dc: i64 = from.col as i64 - to_node.col as i64;
    let dr: i64 = from.row as i64 - to_node.row as i64;
    if dc == 1 && dr == 0 {
        Some(TileSide::RIGHT)
    } else if dc == -1 && dr == 0 {
        Some(TileSide::LEFT)
    } else if dc == 0 && dr == -1 {
        Some(TileSide::TOP)
    } else if dc == 0 && dr == 1 {
        Some(TileSide::BOTTOM)
    } else {
        None
    }
}

/// Parameter `j` of `def` takes input from side `s` on `node`.
pub open spec fn param_on_side(node: Node, def: PieceDef, j: int, s: TileSide) -> bool {
    spec_effective_input_side(node, def, def.params@[j].id@) == Some(s)
}

/// Parameter `j` takes input from side `s`, no edge feeds it yet, and it
/// accepts type `t`.
pub open spec fn open_candidate(
    edges: Map<u128, EdgeView>,
    to: GridPos,
    node: Node,
    def: PieceDef,
    j: int,
    s: TileSide,
    t: PortType,
) -> bool {
    &&& param_on_side(node, def, j, s)
    &&& !slot_taken_in(edges, to, def.params@[j].id@)
    &&& schema_accepts(def.params@[j].schema, t)
}

/// The first parameter at or after `k` that is an open candidate.
pub open spec fn first_candidate_from(
    edges: Map<u128, EdgeView>,
    to: GridPos,
    node: Node,
    def: PieceDef,
    s: TileSide,
    t: PortType,
    k: int,
) -> Option<int>
    decreases def.params@.len() - k,
{
    if k < 0 || k >= def.params@.len() {
        None
    } else if open_candidate(edges, to, node, def, k, s, t) {
        Some(k)
    } else {
        first_candidate_from(edges, to, node, def, s, t, k + 1)
    }
}

/// Some parameter takes input from side `s`.
pub open spec fn any_on_side(node: Node, def: PieceDef, s: TileSide) -> bool {
    exists|j: int| 0 <= j < def.params@.len() && #[trigger] param_on_side(node, def, j, s)
}

/// Some parameter takes input from side `s` and has no edge yet.
pub open spec fn any_open_on_side(g: Graph, to: GridPos, node: Node, def: PieceDef, s: TileSide) -> bool {
    exists|j: int|
        0 <= j < def.params@.len() && #[trigger] param_on_side(node, def, j, s) && !slot_taken(
            g,
            to,
            def.params@[j].id@,
        )
}

/// The neighbour of `to` on the side parameter `j` takes input from is an
/// empty cell.
pub open spec fn free_neighbour(g: Graph, to: GridPos, node: Node, def: PieceDef, j: int) -> bool {
    let side = spec_effective_input_side(node, def, def.params@[j].id@);
    &&& side is Some
    &&& spec_adjacent(to, side) != to
    &&& !g.nodes.as_map().contains_key(spec_adjacent(to, side))
}

/// The first parameter at or after `k` whose input neighbour is empty.
pub open spec fn first_free_neighbour_from(g: Graph, to: GridPos, node: Node, def: PieceDef, k: int) -> Option<int>
    decreases def.params@.len() - k,
{
    if k < 0 || k >= def.params@.len() {
        None
    } else if free_neighbour(g, to, node, def, k) {
        Some(k)
    } else {
        first_free_neighbour_from(g, to, node, def, k + 1)
    }
}

/// The repair for a source that is not a neighbour: move it to the first
/// empty input neighbour of the target, if there is one.
pub open spec fn move_suggestions(g: Graph, to: GridPos, node: Node, def: PieceDef, from: GridPos) -> Seq<
    SuggestionView,
> {
    match first_free_neighbour_from(g, to, node, def, 0) {
        Some(j) => seq![
            SuggestionView::MoveNode {
                node: from,
                to: spec_adjacent(to, spec_effective_input_side(node, def, def.params@[j].id@)),
            },
        ],
        None => seq![],
    }
}

/// The first parameter at or after `k` that accepts type `t`.
pub open spec fn first_accepting_from(def: PieceDef, t: PortType, k: int) -> Option<int>
    decreases def.params@.len() - k,
{
    if k < 0 || k >= def.params@.len() {
        None
    } else if schema_accepts(def.params@[k].schema, t) {
        Some(k)
    } else {
        first_accepting_from(def, t, k + 1)
    }
}

/// The repair when no parameter takes input from side `s`: turn the first
/// parameter that accepts `t` to that side.
pub open spec fn set_side_suggestions(def: PieceDef, t: PortType, to: GridPos, s: TileSide) -> Seq<SuggestionView> {
    match first_accepting_from(def, t, 0) {
        Some(j) => seq![SuggestionView::SetParamSide { position: to, param_id: def.params@[j].id@, side: s }],
        None => seq![],
    }
}

/// The repairs when every parameter on side `s` is fed: for each such
/// parameter among the first `n`, in order, disconnect the first edge that
/// feeds it.
pub open spec fn disconnect_suggestions(g: Graph, to: GridPos, node: Node, def: PieceDef, s: TileSide, n: int) -> Seq<
    SuggestionView,
>
    decreases n,
{
    if n <= 0 {
        seq![]
    } else {
        let prev = disconnect_suggestions(g, to, node, def, s, n - 1);
        if param_on_side(node, def, n - 1, s) {
            match first_edge_into(g, to, def.params@[n - 1].id@) {
                Some(i) => prev.push(SuggestionView::DisconnectEdge { edge_id: g.edges.value_seq()[i].id@ }),
                None => prev,
            }
        } else {
            prev
        }
    }
}

/// What `pick_target_param_for_edge` answers for an edge from `from` into
/// the node at `to`: after the refusals for missing nodes and pieces, a
/// source that is not a neighbour is refused (with a move repair), then one
/// whose output does not face the target or that has no output; otherwise
/// the first parameter on the facing side that is free and accepts the
/// source type is chosen. Failing that, the refusal says whether no
/// parameter takes that side, all of them are fed, or none accepts the type.
pub open spec fn spec_pick_target_param(g: Graph, reg: PieceRegistry, from: GridPos, to: GridPos) -> ProbeView {
    match spec_connect_base(g, reg, from, to) {
        Err(p) => p,
        Ok((fnode, tnode, fdef, tdef)) => match spec_side_from_to_node(to, from) {
            None => probe_rejected(
                EdgeConnectProbeReason::NotAdjacent,
                "edge must come from an adjacent cell to "@ + cell_text(to),
                move_suggestions(g, to, tnode, tdef, from),
            ),
            Some(ts) => match spec_source_type(fnode, fdef, from, ts) {
                Err(p) => p,
                Ok(src) => match first_candidate_from(edge_views(g.edges.as_map()), to, tnode, tdef, ts, src, 0) {
                    Some(j) => probe_accepted(tdef.params@[j].id@),
                    None => if !any_on_side(tnode, tdef, ts) {
                        probe_rejected(
                            EdgeConnectProbeReason::NoParamOnTargetSide,
                            "target has no input on side "@ + side_debug(ts) + " for source "@ + cell_text(from),
                            set_side_suggestions(tdef, src, to, ts),
                        )
                    } else if !any_open_on_side(g, to, tnode, tdef, ts) {
                        probe_rejected(
                            EdgeConnectProbeReason::TargetParamOccupied,
                            "all target params on side "@ + side_debug(ts) + " are already connected"@,
                            disconnect_suggestions(g, to, tnode, tdef, ts, tdef.params@.len() as int),
                        )
                    } else {
                        probe_rejected(
                            EdgeConnectProbeReason::TypeMismatch,
                            "type mismatch: no open target param on the connecting side accepts the source output type"@,
                            seq![],
                        )
                    },
                },
            },
        },
    }
}

fn move_suggestion_list(graph: &Graph, to_node: &GridPos, node: &Node, def: &PieceDef, from: &GridPos) -> (r: Vec<
    RepairSuggestion,
>)
    requires
        interior(*to_node),
    ensures
        suggestion_views(r@) == move_suggestions(*graph, *to_node, *node, *def, *from),
{
    let mut out: Vec<RepairSuggestion> = Vec::new();
    let mut j: usize = 0;
    while j < def.params.len()
        invariant
            interior(*to_node),
            j <= def.params@.len(),
            out@.len() == 0,
            first_free_neighbour_from(*graph, *to_node, *node, *def, 0) == first_free_neighbour_from(
                *graph,
                *to_node,
                *node,
                *def,
                j as int,
            ),
        decreases def.params@.len() - j,
    {
        let side = effective_input_side(node, def, def.params[j].id.as_str());
        if side.is_some() {
            let adj = adjacent_in_direction(to_node, side);
            if adj != *to_node && !graph.nodes.contains_key(&adj) {
                out.push(RepairSuggestion::MoveNode { node: *from, to: adj });
                proof {
                    assert(free_neighbour(*graph, *to_node, *node, *def, j as int));
                    assert(suggestion_views(out@) =~= move_suggestions(*graph, *to_node, *node, *def, *from));
                }
                return out;
            }
        }
        j = j + 1;
    }
    proof {
        assert(suggestion_views(out@) =~= move_suggestions(*graph, *to_node, *node, *def, *from));
    }
    out
}

fn set_side_suggestion_list(def: &PieceDef, t: &PortType, to_node: &GridPos, s: TileSide) -> (r: Vec<RepairSuggestion>)
    ensures
        suggestion_views(r@) == set_side_suggestions(*def, *t, *to_node, s),
{
    let mut out: Vec<RepairSuggestion> = Vec::new();
    let mut j: usize = 0;
    while j < def.params.len()
        invariant
            j <= def.params@.len(),
            out@.len() == 0,
            first_accepting_from(*def, *t, 0) == first_accepting_from(*def, *t, j as int),
        decreases def.params@.len() - j,
    {
        if def.params[j].schema.accepts(t) {
            out.push(RepairSuggestion::SetParamSide { position: *to_node, param_id: def.params[j].id.clone(), side: s });
            proof {
                assert(suggestion_views(out@) =~= set_side_suggestions(*def, *t, *to_node, s));
            }
            return out;
        }
        j = j + 1;
    }
    proof {
        assert(suggestion_views(out@) =~= set_side_suggestions(*def, *t, *to_node, s));
    }
    out
}

fn disconnect_suggestion_list(graph: &Graph, to_node: &GridPos, node: &Node, def: &PieceDef, s: TileSide) -> (r: Vec<
    RepairSuggestion,
>)
    ensures
        suggestion_views(r@) == disconnect_suggestions(*graph, *to_node, *node, *def, s, def.params@.len() as int),
{
    let mut out: Vec<RepairSuggestion> = Vec::new();
    let mut j: usize = 0;
    while j < def.params.len()
        invariant
            j <= def.params@.len(),
            suggestion_views(out@) == disconnect_suggestions(*graph, *to_node, *node, *def, s, j as int),
        decreases def.params@.len() - j,
    {
        let ghost before = out@;
        let side = effective_input_side(node, def, def.params[j].id.as_str());
        if side == Some(s) {
            match find_edge_into(graph, to_node, def.params[j].id.as_str()) {
                Some(i) => {
                    let e = graph.edges.value_at(i);
                    out.push(RepairSuggestion::DisconnectEdge { edge_id: e.id.clone() });
                    proof {
                        assert(suggestion_views(out@) =~= suggestion_views(before).push(
                            SuggestionView::DisconnectEdge { edge_id: graph.edges.value_seq()[i as int].id@ },
                        ));
                    }
                },
                None => {},
            }
        }
        j = j + 1;
    }
    out
}

/// Picks the parameter an edge from `from` into the node at `to_node`
/// should feed (see `spec_pick_target_param`).
pub fn pick_target_param_for_edge(
    graph: &Graph,
    registry: &PieceRegistry,
    from: &GridPos,
    to_node: &GridPos,
) -> (r: EdgeTargetParamProbe)
    requires
        graph.nodes.as_map().contains_key(*to_node) ==> interior(*to_node),
    ensures
        r@ == spec_pick_target_param(*graph, *registry, *from, *to_node),
{
    let (from_node, to_node_ref, from_def, to_def) = match resolve_edge_connect_base(graph, registry, from, to_node) {
        Ok(base) => base,
        Err(e) => {
            return e;
        },
    };
    let target_side = match side_towards(to_node, from) {
        Some(s) => s,
        None => {
            let suggestions = move_suggestion_list(graph, to_node, to_node_ref, to_def, from);
            let detail = text_with_cell("edge must come from an adjacent cell to ", to_node);
            return EdgeTargetParamProbe::reject_with(EdgeConnectProbeReason::NotAdjacent, detail.as_str(), suggestions);
        },
    };
    let source_type = match source_output_type_for_target_side(from_node, from_def, from, target_side) {
        Ok(t) => t,
        Err(e) => {
            return e;
        },
    };
    let mut saw_side_candidate = false;
    let mut saw_open_side_candidate = false;
    let mut j: usize = 0;
    while j < to_def.params.len()
        invariant
            spec_connect_base(*graph, *registry, *from, *to_node) == Ok::<(Node, Node, PieceDef, PieceDef), ProbeView>(
                (*from_node, *to_node_ref, *from_def, *to_def),
            ),
            spec_side_from_to_node(*to_node, *from) == Some(target_side),
            spec_source_type(*from_node, *from_def, *from, target_side) == Ok::<PortType, ProbeView>(source_type),
            j <= to_def.params@.len(),
            first_candidate_from(edge_views(graph.edges.as_map()), *to_node, *to_node_ref, *to_def, target_side, source_type, 0)
                == first_candidate_from(
                edge_views(graph.edges.as_map()),
                *to_node,
                *to_node_ref,
                *to_def,
                target_side,
                source_type,
                j as int,
            ),
            saw_side_candidate == exists|k: int| 0 <= k < j && #[trigger] param_on_side(*to_node_ref, *to_def, k, target_side),
            saw_open_side_candidate == exists|k: int|
                0 <= k < j && #[trigger] param_on_side(*to_node_ref, *to_def, k, target_side) && !slot_taken(
                    *graph,
                    *to_node,
                    to_def.params@[k].id@,
                ),
        decreases to_def.params@.len() - j,
    {
        let param = &to_def.params[j];
        let side = effective_input_side(to_node_ref, to_def, param.id.as_str());
        if side == Some(target_side) {
            saw_side_candidate = true;
            let taken = find_edge_into(graph, to_node, param.id.as_str()).is_some();
            if !taken {
                saw_open_side_candidate = true;
                if param.schema.accepts(&source_type) {
                    proof {
                        assert(open_candidate(edge_views(graph.edges.as_map()), *to_node, *to_node_ref, *to_def, j as int, target_side, source_type));
                        assert(first_candidate_from(edge_views(graph.edges.as_map()), *to_node, *to_node_ref, *to_def, target_side, source_type, j as int)
                            == Some(j as int));
                    }
                    let chosen = param.id.clone();
                    proof {
                        assert(chosen@ == to_def.params@[j as int].id@);
                    }
                    return EdgeTargetParamProbe::accept(chosen);
                }
            }
        }
        proof {
            assert(!open_candidate(edge_views(graph.edges.as_map()), *to_node, *to_node_ref, *to_def, j as int, target_side, source_type));
            assert(saw_side_candidate == exists|k: int|
                0 <= k < j + 1 && #[trigger] param_on_side(*to_node_ref, *to_def, k, target_side)) by {
                if side == Some(target_side) {
                    assert(param_on_side(*to_node_ref, *to_def, j as int, target_side));
                }
            }
            assert(saw_open_side_candidate == exists|k: int|
                0 <= k < j + 1 && #[trigger] param_on_side(*to_node_ref, *to_def, k, target_side) && !slot_taken(
                    *graph,
                    *to_node,
                    to_def.params@[k].id@,
                )) by {
                if side == Some(target_side) && !slot_taken(*graph, *to_node, to_def.params@[j as int].id@) {
                    assert(param_on_side(*to_node_ref, *to_def, j as int, target_side));
                }
            }
        }
        j = j + 1;
    }
    if !saw_side_candidate {
        let suggestions = set_side_suggestion_list(to_def, &source_type, to_node, target_side);
        let mut buf: Vec<char> = Vec::new();
        append_str(&mut buf, "target has no input on side ");
        append_str(&mut buf, side_debug_str(target_side));
        append_str(&mut buf, " for source ");
        append_cell(&mut buf, from);
        let detail = string_of_chars(buf.as_slice());
        proof {
            assert(detail@ =~= "target has no input on side "@ + side_debug(target_side) + " for source "@ + cell_text(
                *from,
            ));
        }
        return EdgeTargetParamProbe::reject_with(EdgeConnectProbeReason::NoParamOnTargetSide, detail.as_str(), suggestions);
    }
    if !saw_open_side_candidate {
        let suggestions = disconnect_suggestion_list(graph, to_node, to_node_ref, to_def, target_side);
        let mut buf: Vec<char> = Vec::new();
        append_str(&mut buf, "all target params on side ");
        append_str(&mut buf, side_debug_str(target_side));
        append_str(&mut buf, " are already connected");
        let detail = string_of_chars(buf.as_slice());
        proof {
            assert(detail@ =~= "all target params on side "@ + side_debug(target_side) + " are already connected"@);
        }
        return EdgeTargetParamProbe::reject_with(EdgeConnectProbeReason::TargetParamOccupied, detail.as_str(), suggestions);
    }
    EdgeTargetParamProbe::reject(
        EdgeConnectProbeReason::TypeMismatch,
        "type mismatch: no open target param on the connecting side accepts the source output type",
    )
}

/// What `probe_edge_connect` answers: with a named parameter, acceptance of
/// it when `validate_edge_connect` passes and else its refusal; without
/// one, the choice of `pick_target_param_for_edge`.
pub open spec fn spec_probe_edge_connect(
    g: Graph,
    reg: PieceRegistry,
    from: GridPos,
    to: GridPos,
    pid: Option<Seq<char>>,
) -> ProbeView {
    match pid {
        Some(p) => match spec_validate_edge_connect(g, reg, from, to, p) {
            Ok(()) => probe_accepted(p),
            Err(v) => v,
        },
        None => spec_pick_target_param(g, reg, from, to),
    }
}

/// Probes an edge into a named parameter, or picks one.
pub fn probe_edge_connect(
    graph: &Graph,
    registry: &PieceRegistry,
    from: &GridPos,
    to_node: &GridPos,
    to_param: Option<&str>,
) -> (r: EdgeTargetParamProbe)
    requires
        graph.nodes.as_map().contains_key(*to_node) ==> interior(*to_node),
    ensures
        r@ == spec_probe_edge_connect(
            *graph,
            *registry,
            *from,
            *to_node,
            match to_param {
                Some(p) => Some(p@),
                None => None,
            },
        ),
{
    match to_param {
        Some(p) => match validate_edge_connect(graph, registry, from, to_node, p) {
            Ok(()) => EdgeTargetParamProbe::accept(crate::text::owned(p)),
            Err(reject) => reject,
        },
        None => pick_target_param_for_edge(graph, registry, from, to_node),
    }
}

// Laws
// ---------------------------------------------------------------------------

/// No two parameters of `def` share an id.
pub open spec fn param_ids_distinct(def: PieceDef) -> bool {
    forall|a: int, b: int| 0 <= a < b < def.params@.len() ==> #[trigger] def.params@[a].id@ != #[trigger] def.params@[b].id@
}

proof fn lemma_first_param_distinct(def: PieceDef, j: int)
    requires
        param_ids_distinct(def),
        0 <= j < def.params@.len(),
    ensures
        first_param(def, def.params@[j].id@) == Some(j),
{
    lemma_first_param_from(def, def.params@[j].id@, 0, j);
}

proof fn lemma_first_param_from(def: PieceDef, id: Seq<char>, k: int, j: int)
    requires
        param_ids_distinct(def),
        0 <= k <= j < def.params@.len(),
        def.params@[j].id@ == id,
    ensures
        crate::internal::first_param_from(def, id, k) == Some(j),
    decreases j - k,
{
    if k < j {
        assert(def.params@[k].id@ != def.params@[j].id@);
        lemma_first_param_from(def, id, k + 1, j);
    }
}

/// A parameter the picker chooses passes validation as an explicit target,
/// for target pieces whose parameter ids are distinct.
pub proof fn lemma_picked_param_validates(g: Graph, reg: PieceRegistry, from: GridPos, to: GridPos)
    requires
        spec_pick_target_param(g, reg, from, to).to_param is Some,
        reg.defs().contains_key(g.nodes.as_map()[to].piece_id@) ==> param_ids_distinct(
            reg.defs()[g.nodes.as_map()[to].piece_id@],
        ),
    ensures
        spec_validate_edge_connect(g, reg, from, to, spec_pick_target_param(g, reg, from, to).to_param.unwrap()) is Ok,
{
    let (fnode, tnode, fdef, tdef) = spec_connect_base(g, reg, from, to)->Ok_0;
    let ts = spec_side_from_to_node(to, from).unwrap();
    let src = spec_source_type(fnode, fdef, from, ts)->Ok_0;
    let edges = edge_views(g.edges.as_map());
    let j = first_candidate_from(edges, to, tnode, tdef, ts, src, 0).unwrap();
    lemma_first_candidate(edges, to, tnode, tdef, ts, src, 0);
    lemma_first_param_distinct(tdef, j);
}

proof fn lemma_first_candidate(
    edges: Map<u128, EdgeView>,
    to: GridPos,
    node: Node,
    def: PieceDef,
    s: TileSide,
    t: PortType,
    k: int,
)
    requires
        0 <= k,
        first_candidate_from(edges, to, node, def, s, t, k) is Some,
    ensures
        ({
            let j = first_candidate_from(edges, to, node, def, s, t, k).unwrap();
            k <= j < def.params@.len() && open_candidate(edges, to, node, def, j, s, t)
        }),
    decreases def.params@.len() - k,
{
    if k < def.params@.len() && !open_candidate(edges, to, node, def, k, s, t) {
        lemma_first_candidate(edges, to, node, def, s, t, k + 1);
    }
}

} // verus!
