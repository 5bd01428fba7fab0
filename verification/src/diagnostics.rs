//! Findings about a graph: what is wrong, where, on which edge, and how
//! serious it is.

use vstd::prelude::*;

use crate::text::owned;
use crate::types::{EdgeId, ExecutionDomain, GridPos, PortType, TileSide};

verus! {

/// How serious a graph diagnostic is.
#[derive(Debug, Clone, Copy, PartialEq, Eq, Structural)]
pub enum DiagnosticSeverity {
    Error,
    Warning,
    Info,
}

/// What is wrong with a graph.
#[derive(Debug)]
pub enum DiagnosticKind {
    PieceSemantic { piece_id: String, code: String, message: String },
    UnknownPiece { piece_id: String },
    UnknownNode { pos: GridPos },
    UnknownParam { piece_id: String, param: String },
    InvalidOperation { reason: String },
    DuplicateConnection { to_node: GridPos, to_param: String },
    DuplicateInputSide { side: TileSide, params: Vec<String> },
    Cycle { involved: Vec<GridPos> },
    NoOutputNode,
    UnreachableNode { position: GridPos },
    TypeMismatch { expected: PortType, got: PortType, param: String },
    UnsupportedDomainCrossing { expected: PortType, got: PortType, param: String },
    DelayTypeMismatch { default: PortType, feedback: PortType },
    SideMismatch { from_pos: GridPos, to_pos: GridPos, expected_side: TileSide },
    NotAdjacent { from_pos: GridPos, to_pos: GridPos },
    OutputFromTerminal { position: GridPos },
    MissingRequiredParam { param: String },
    InlineNotAllowed { param: String },
    InlineTypeMismatch { param: String, expected: PortType, got_value: serde_json::Value },
}

/// A diagnostic kind with its text as characters and its types by view.
pub enum KindView {
    PieceSemantic { piece_id: Seq<char>, code: Seq<char>, message: Seq<char> },
    UnknownPiece { piece_id: Seq<char> },
    UnknownNode { pos: GridPos },
    UnknownParam { piece_id: Seq<char>, param: Seq<char> },
    InvalidOperation { reason: Seq<char> },
    DuplicateConnection { to_node: GridPos, to_param: Seq<char> },
    DuplicateInputSide { side: TileSide, params: Seq<String> },
    Cycle { involved: Seq<GridPos> },
    NoOutputNode,
    UnreachableNode { position: GridPos },
    TypeMismatch {
        expected: (Seq<char>, Option<ExecutionDomain>),
        got: (Seq<char>, Option<ExecutionDomain>),
        param: Seq<char>,
    },
    UnsupportedDomainCrossing {
        expected: (Seq<char>, Option<ExecutionDomain>),
        got: (Seq<char>, Option<ExecutionDomain>),
        param: Seq<char>,
    },
    DelayTypeMismatch { default: (Seq<char>, Option<ExecutionDomain>), feedback: (Seq<char>, Option<ExecutionDomain>) },
    SideMismatch { from_pos: GridPos, to_pos: GridPos, expected_side: TileSide },
    NotAdjacent { from_pos: GridPos, to_pos: GridPos },
    OutputFromTerminal { position: GridPos },
    MissingRequiredParam { param: Seq<char> },
    InlineNotAllowed { param: Seq<char> },
    InlineTypeMismatch { param: Seq<char>, expected: (Seq<char>, Option<ExecutionDomain>), got_value: serde_json::Value },
}

impl View for DiagnosticKind {
    type V = KindView;

    open spec fn view(&self) -> KindView {
        match self {
            DiagnosticKind::PieceSemantic { piece_id, code, message } => KindView::PieceSemantic {
                piece_id: piece_id@,
                code: code@,
                message: message@,
            },
            DiagnosticKind::UnknownPiece { piece_id } => KindView::UnknownPiece { piece_id: piece_id@ },
            DiagnosticKind::UnknownNode { pos } => KindView::UnknownNode { pos: *pos },
            DiagnosticKind::UnknownParam { piece_id, param } => KindView::UnknownParam {
                piece_id: piece_id@,
                param: param@,
            },
            DiagnosticKind::InvalidOperation { reason } => KindView::InvalidOperation { reason: reason@ },
            DiagnosticKind::DuplicateConnection { to_node, to_param } => KindView::DuplicateConnection {
                to_node: *to_node,
                to_param: to_param@,
            },
            DiagnosticKind::DuplicateInputSide { side, params } => KindView::DuplicateInputSide {
                side: *side,
                params: params@,
            },
            DiagnosticKind::Cycle { involved } => KindView::Cycle { involved: involved@ },
            DiagnosticKind::NoOutputNode => KindView::NoOutputNode,
            DiagnosticKind::UnreachableNode { position } => KindView::UnreachableNode { position: *position },
            DiagnosticKind::TypeMismatch { expected, got, param } => KindView::TypeMismatch {
                expected: expected@,
                got: got@,
                param: param@,
            },
            DiagnosticKind::UnsupportedDomainCrossing { expected, got, param } => KindView::UnsupportedDomainCrossing {
                expected: expected@,
                got: got@,
                param: param@,
            },
            DiagnosticKind::DelayTypeMismatch { default, feedback } => KindView::DelayTypeMismatch {
                default: default@,
                feedback: feedback@,
            },
            DiagnosticKind::SideMismatch { from_pos, to_pos, expected_side } => KindView::SideMismatch {
                from_pos: *from_pos,
                to_pos: *to_pos,
                expected_side: *expected_side,
            },
            DiagnosticKind::NotAdjacent { from_pos, to_pos } => KindView::NotAdjacent {
                from_pos: *from_pos,
                to_pos: *to_pos,
            },
            DiagnosticKind::OutputFromTerminal { position } => KindView::OutputFromTerminal { position: *position },
            DiagnosticKind::MissingRequiredParam { param } => KindView::MissingRequiredParam { param: param@ },
            DiagnosticKind::InlineNotAllowed { param } => KindView::InlineNotAllowed { param: param@ },
            DiagnosticKind::InlineTypeMismatch { param, expected, got_value } => KindView::InlineTypeMismatch {
                param: param@,
                expected: expected@,
                got_value: *got_value,
            },
        }
    }
}

/// One finding about a graph.
#[derive(Debug)]
pub struct Diagnostic {
    pub kind: DiagnosticKind,
    pub site: Option<GridPos>,
    pub edge_id: Option<EdgeId>,
    pub severity: DiagnosticSeverity,
}

/// A diagnostic by the views of its parts.
pub struct DiagnosticView {
    pub kind: KindView,
    pub site: Option<GridPos>,
    pub edge_id: Option<u128>,
    pub severity: DiagnosticSeverity,
}

impl View for Diagnostic {
    type V = DiagnosticView;

    open spec fn view(&self) -> DiagnosticView {
        DiagnosticView {
            kind: self.kind@,
            site: self.site,
            edge_id: match self.edge_id {
                Some(e) => Some(e@),
                None => None,
            },
            severity: self.severity,
        }
    }
}

/// An error finding without an edge.
pub open spec fn error_view(kind: KindView, site: Option<GridPos>) -> DiagnosticView {
    DiagnosticView { kind, site, edge_id: None, severity: DiagnosticSeverity::Error }
}

/// An error finding on edge `edge`.
pub open spec fn edge_error_view(kind: KindView, site: Option<GridPos>, edge: u128) -> DiagnosticView {
    DiagnosticView { kind, site, edge_id: Some(edge), severity: DiagnosticSeverity::Error }
}

impl Diagnostic {
    pub fn error(kind: DiagnosticKind, site: Option<GridPos>) -> (r: Self)
        ensures
            r.kind == kind,
            r.site == site,
            r.edge_id is None,
            r.severity == DiagnosticSeverity::Error,
    {
        Diagnostic { kind, site, edge_id: None, severity: DiagnosticSeverity::Error }
    }

    pub fn warning(kind: DiagnosticKind, site: Option<GridPos>) -> (r: Self)
        ensures
            r.kind == kind,
            r.site == site,
            r.edge_id is None,
            r.severity == DiagnosticSeverity::Warning,
    {
        Diagnostic { kind, site, edge_id: None, severity: DiagnosticSeverity::Warning }
    }

    pub fn info(kind: DiagnosticKind, site: Option<GridPos>) -> (r: Self)
        ensures
            r.kind == kind,
            r.site == site,
            r.edge_id is None,
            r.severity == DiagnosticSeverity::Info,
    {
        Diagnostic { kind, site, edge_id: None, severity: DiagnosticSeverity::Info }
    }

    /// A piece's own finding, at the given severity.
    pub fn piece_semantic(
        severity: DiagnosticSeverity,
        piece_id: &str,
        code: &str,
        message: &str,
        site: Option<GridPos>,
    ) -> (r: Self)
        ensures
            r@ == (DiagnosticView {
                kind: KindView::PieceSemantic { piece_id: piece_id@, code: code@, message: message@ },
                site,
                edge_id: None,
                severity,
            }),
    {
        let kind = DiagnosticKind::PieceSemantic {
            piece_id: owned(piece_id),
            code: owned(code),
            message: owned(message),
        };
        match severity {
            DiagnosticSeverity::Error => Self::error(kind, site),
            DiagnosticSeverity::Warning => Self::warning(kind, site),
            DiagnosticSeverity::Info => Self::info(kind, site),
        }
    }

    pub fn piece_semantic_error(piece_id: &str, code: &str, message: &str, site: Option<GridPos>) -> (r: Self)
        ensures
            r@ == (DiagnosticView {
                kind: KindView::PieceSemantic { piece_id: piece_id@, code: code@, message: message@ },
                site,
                edge_id: None,
                severity: DiagnosticSeverity::Error,
            }),
    {
        Self::piece_semantic(DiagnosticSeverity::Error, piece_id, code, message, site)
    }

    pub fn piece_semantic_warning(piece_id: &str, code: &str, message: &str, site: Option<GridPos>) -> (r: Self)
        ensures
            r@ == (DiagnosticView {
                kind: KindView::PieceSemantic { piece_id: piece_id@, code: code@, message: message@ },
                site,
                edge_id: None,
                severity: DiagnosticSeverity::Warning,
            }),
    {
        Self::piece_semantic(DiagnosticSeverity::Warning, piece_id, code, message, site)
    }

    pub fn piece_semantic_info(piece_id: &str, code: &str, message: &str, site: Option<GridPos>) -> (r: Self)
        ensures
            r@ == (DiagnosticView {
                kind: KindView::PieceSemantic { piece_id: piece_id@, code: code@, message: message@ },
                site,
                edge_id: None,
                severity: DiagnosticSeverity::Info,
            }),
    {
        Self::piece_semantic(DiagnosticSeverity::Info, piece_id, code, message, site)
    }

    /// The same finding, attached to `edge_id`.
    pub fn with_edge(self, edge_id: EdgeId) -> (r: Self)
        ensures
            r.kind == self.kind,
            r.site == self.site,
            r.edge_id == Some(edge_id),
            r.severity == self.severity,
    {
        let mut d = self;
        d.edge_id = Some(edge_id);
        d
    }
}

} // verus!
