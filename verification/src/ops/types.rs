//! Outcomes of editing a graph: what a batch of operations did, why an
//! edge could not be connected, and the repairs a user could make.

use vstd::prelude::*;

use crate::graph::{Edge, GraphOp};
use crate::text::owned;
use crate::types::{DomainBridgeKind, EdgeId, GridPos, TileSide};

verus! {

/// A one-click repair a user interface can offer.
#[derive(Debug)]
pub enum RepairSuggestion {
    /// Move a node to another cell.
    MoveNode { node: GridPos, to: GridPos },
    /// Turn the source node's output to face the target.
    SetOutputSide { position: GridPos, side: TileSide },
    /// Turn a parameter's input to face the source.
    SetParamSide { position: GridPos, param_id: String, side: TileSide },
    /// Disconnect an edge to free a parameter.
    DisconnectEdge { edge_id: EdgeId },
}

/// A repair suggestion with its texts and ids as plain values.
pub enum SuggestionView {
    MoveNode { node: GridPos, to: GridPos },
    SetOutputSide { position: GridPos, side: TileSide },
    SetParamSide { position: GridPos, param_id: Seq<char>, side: TileSide },
    DisconnectEdge { edge_id: u128 },
}

impl View for RepairSuggestion {
    type V = SuggestionView;

    open spec fn view(&self) -> SuggestionView {
        match *self {
            RepairSuggestion::MoveNode { node, to } => SuggestionView::MoveNode { node, to },
            RepairSuggestion::SetOutputSide { position, side } => SuggestionView::SetOutputSide { position, side },
            RepairSuggestion::SetParamSide { position, param_id, side } => SuggestionView::SetParamSide {
                position,
                param_id: param_id@,
                side,
            },
            RepairSuggestion::DisconnectEdge { edge_id } => SuggestionView::DisconnectEdge { edge_id: edge_id@ },
        }
    }
}

/// The views of a list of suggestions.
pub open spec fn suggestion_views(s: Seq<RepairSuggestion>) -> Seq<SuggestionView> {
    s.map_values(|x: RepairSuggestion| x@)
}

impl RepairSuggestion {
    /// The graph operations that carry out this repair: one operation of
    /// the matching kind with the same fields.
    pub fn to_ops(&self) -> (r: Vec<GraphOp>)
        ensures
            r@.len() == 1,
            match *self {
                RepairSuggestion::MoveNode { node, to } => r@[0] matches GraphOp::NodeMove { from, to: t } && from
                    == node && t == to,
                RepairSuggestion::SetOutputSide { position, side } => r@[0] matches GraphOp::OutputSetSide {
                    position: p,
                    side: s,
                } && p == position && s == side,
                RepairSuggestion::SetParamSide { position, param_id, side } => r@[0] matches GraphOp::ParamSetSide {
                    position: p,
                    param_id: id,
                    side: s,
                } && p == position && id == param_id && s == side,
                RepairSuggestion::DisconnectEdge { edge_id } => r@[0] matches GraphOp::EdgeDisconnect {
                    edge_id: e,
                } && e == edge_id,
            },
    {
        let op = match self {
            RepairSuggestion::MoveNode { node, to } => GraphOp::NodeMove { from: *node, to: *to },
            RepairSuggestion::SetOutputSide { position, side } => GraphOp::OutputSetSide {
                position: *position,
                side: *side,
            },
            RepairSuggestion::SetParamSide { position, param_id, side } => GraphOp::ParamSetSide {
                position: *position,
                param_id: param_id.clone(),
                side: *side,
            },
            RepairSuggestion::DisconnectEdge { edge_id } => GraphOp::EdgeDisconnect { edge_id: edge_id.clone() },
        };
        let mut ops: Vec<GraphOp> = Vec::new();
        ops.push(op);
        ops
    }
}

/// What a batch of graph operations did.
#[derive(Debug)]
pub struct ApplyOpsOutcome {
    /// Edges removed as a side effect.
    pub removed_edges: Vec<Edge>,
    /// The operations actually applied, in canonical form.
    pub applied_ops: Vec<GraphOp>,
    /// Operations that restore the graph as it was.
    pub undo_ops: Vec<GraphOp>,
}

impl Default for ApplyOpsOutcome {
    fn default() -> (r: Self)
        ensures
            r.removed_edges@.len() == 0,
            r.applied_ops@.len() == 0,
            r.undo_ops@.len() == 0,
    {
        ApplyOpsOutcome { removed_edges: Vec::new(), applied_ops: Vec::new(), undo_ops: Vec::new() }
    }
}

/// The reason an edge connection probe refused a connection.
#[derive(Debug, Clone, Copy, PartialEq, Eq, Structural)]
pub enum EdgeConnectProbeReason {
    UnknownSourceNode,
    UnknownTargetNode,
    UnknownSourcePiece,
    UnknownTargetPiece,
    UnknownTargetParam,
    NotAdjacent,
    SideMismatch,
    OutputFromTerminal,
    NoParamOnTargetSide,
    TargetParamOccupied,
    TypeMismatch,
    UnsupportedDomain,
    NoCompatibleParam,
}

/// The answer to a request to connect an edge: the target parameter chosen
/// (and a domain bridge it implies), or why not and how to repair it.
#[derive(Debug)]
pub struct EdgeTargetParamProbe {
    pub to_param: Option<String>,
    pub implicit_bridge: Option<DomainBridgeKind>,
    pub reason: Option<EdgeConnectProbeReason>,
    pub detail: Option<String>,
    pub suggestions: Vec<RepairSuggestion>,
}

/// A probe answer with its texts and ids as plain values.
pub struct ProbeView {
    pub to_param: Option<Seq<char>>,
    pub implicit_bridge: Option<DomainBridgeKind>,
    pub reason: Option<EdgeConnectProbeReason>,
    pub detail: Option<Seq<char>>,
    pub suggestions: Seq<SuggestionView>,
}

/// The text of an optional string.
pub open spec fn opt_text(s: Option<String>) -> Option<Seq<char>> {
    match s {
        Some(t) => Some(t@),
        None => None,
    }
}

impl View for EdgeTargetParamProbe {
    type V = ProbeView;

    open spec fn view(&self) -> ProbeView {
        ProbeView {
            to_param: opt_text(self.to_param),
            implicit_bridge: self.implicit_bridge,
            reason: self.reason,
            detail: opt_text(self.detail),
            suggestions: suggestion_views(self.suggestions@),
        }
    }
}

/// A probe that connects into `param`.
pub open spec fn probe_accepted(param: Seq<char>) -> ProbeView {
    ProbeView { to_param: Some(param), implicit_bridge: None, reason: None, detail: None, suggestions: seq![] }
}

/// A probe refused for `reason`, explained by `detail`, with `suggestions`.
pub open spec fn probe_rejected(
    reason: EdgeConnectProbeReason,
    detail: Seq<char>,
    suggestions: Seq<SuggestionView>,
) -> ProbeView {
    ProbeView { to_param: None, implicit_bridge: None, reason: Some(reason), detail: Some(detail), suggestions }
}

impl EdgeTargetParamProbe {
    /// Connect into `param`.
    pub fn accept(param: String) -> (r: Self)
        ensures
            r.to_param == Some(param),
            r.implicit_bridge is None,
            r.reason is None,
            r.detail is None,
            r.suggestions@.len() == 0,
            r@ == probe_accepted(param@),
    {
        Self::accept_with_bridge(param, None)
    }

    /// Connect into `param` through `implicit_bridge`.
    pub fn accept_with_bridge(param: String, implicit_bridge: Option<DomainBridgeKind>) -> (r: Self)
        ensures
            r.to_param == Some(param),
            r.implicit_bridge == implicit_bridge,
            r.reason is None,
            r.detail is None,
            r.suggestions@.len() == 0,
            r@.suggestions == Seq::<SuggestionView>::empty(),
    {
        let r = EdgeTargetParamProbe {
            to_param: Some(param),
            implicit_bridge,
            reason: None,
            detail: None,
            suggestions: Vec::new(),
        };
        proof {
            assert(suggestion_views(r.suggestions@) =~= Seq::<SuggestionView>::empty());
        }
        r
    }

    /// Refuse for `reason`, explained by `detail`.
    pub fn reject(reason: EdgeConnectProbeReason, detail: &str) -> (r: Self)
        ensures
            r.to_param is None,
            r.implicit_bridge is None,
            r.reason == Some(reason),
            r.detail matches Some(d) && d@ == detail@,
            r.suggestions@.len() == 0,
            r@ == probe_rejected(reason, detail@, seq![]),
    {
        let r = EdgeTargetParamProbe {
            to_param: None,
            implicit_bridge: None,
            reason: Some(reason),
            detail: Some(owned(detail)),
            suggestions: Vec::new(),
        };
        proof {
            assert(suggestion_views(r.suggestions@) =~= seq![]);
        }
        r
    }

    /// Refuse for `reason`, explained by `detail`, offering `suggestions`.
    pub fn reject_with(reason: EdgeConnectProbeReason, detail: &str, suggestions: Vec<RepairSuggestion>) -> (r: Self)
        ensures
            r.to_param is None,
            r.implicit_bridge is None,
            r.reason == Some(reason),
            r.detail matches Some(d) && d@ == detail@,
            r.suggestions == suggestions,
            r@ == probe_rejected(reason, detail@, suggestion_views(suggestions@)),
    {
        EdgeTargetParamProbe {
            to_param: None,
            implicit_bridge: None,
            reason: Some(reason),
            detail: Some(owned(detail)),
            suggestions,
        }
    }
}

} // verus!
