//! What validation reports about a program: a category, a kind, a message
//! and where it was found.

use vstd::prelude::*;

use super::flow::Side;
use super::program::{ContainerId, NodeId};
use super::relations::{InputEndpoint, OutputEndpoint};
use crate::text::owned;

verus! {

/// The stage of validation a diagnostic comes from.
#[derive(Debug, Clone, Copy, PartialEq, Eq, Structural)]
pub enum DiagnosticCategory {
    Placement,
    LocalGrammar,
    RootRelation,
    TransformTopology,
    TransformArgument,
    FlowControlTopology,
    StreamShape,
    Cycle,
    Compile,
}

/// What went wrong.
#[derive(Debug, Clone, Copy, PartialEq, Eq, Structural)]
pub enum DiagnosticKind {
    AtomAtRoot,
    MissingContainer,
    TransformInsideContainer,
    OutputInsideContainer,
    DanglingScalar,
    AmbiguousOctaveBinding,
    OperatorWithoutLeftValue,
    OperatorWithoutRightScalar,
    InvalidModifierArgument,
    InvalidRandomChoicePlacement,
    InvalidParallelPlacement,
    InvalidFlowSource,
    InvalidFlowTarget,
    UnknownInputSocket,
    UnknownInputGroup,
    UnknownInputGroupMember,
    UnknownOutputSocket,
    UnknownOutputGroup,
    UnknownOutputGroupMember,
    EndpointShapeMismatch,
    InvalidChainSource,
    InvalidChainTarget,
    TransformMissingMainInput,
    TransformMissingRequiredAuxInput,
    TransformSideAlreadyBound,
    NodeInputArityMismatch,
    RequiredSocketMissing,
    OptionalSocketMultiplyBound,
    PortCountViolation,
    InvalidStreamShape,
    OutputMissingInput,
    OutputCannotProduceStream,
    RootCycle,
    InvalidTransformArgument,
    FlowControlCannotStartComposition,
    CompileFailed,
}

/// Where in the program a diagnostic points.
#[derive(Debug, Clone, PartialEq, Eq)]
pub enum DiagnosticLocation {
    RootNode(NodeId),
    RootRelation { index: usize },
    ContainerStack { container: ContainerId, index: usize },
    TransformSide { node: NodeId, side: Side },
    InputEndpoint { node: NodeId, endpoint: InputEndpoint },
    OutputEndpoint { node: NodeId, endpoint: OutputEndpoint },
}

/// One finding of validation.
#[derive(Debug, Clone, PartialEq, Eq)]
pub struct Diagnostic {
    pub category: DiagnosticCategory,
    pub kind: DiagnosticKind,
    pub message: String,
    pub location: Option<DiagnosticLocation>,
}

impl Diagnostic {
    pub fn new(
        category: DiagnosticCategory,
        kind: DiagnosticKind,
        message: &str,
        location: Option<DiagnosticLocation>,
    ) -> (r: Self)
        ensures
            r.category == category,
            r.kind == kind,
            r.message@ == message@,
            r.location == location,
    {
        Diagnostic { category, kind, message: owned(message), location }
    }
}

} // verus!
