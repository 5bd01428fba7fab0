//! Graph editing: applying operations, checking edge connections, pruning
//! edges that no longer fit, and wiring a node to its neighbours.

pub mod types;
pub mod apply;
pub mod auto_wire;
pub mod pruning;
pub mod validation;
pub mod resize_undo;
pub mod wire_undo;
pub mod batch_undo;

pub use types::{ApplyOpsOutcome, EdgeConnectProbeReason, EdgeTargetParamProbe, RepairSuggestion};
pub use apply::apply_ops_to_graph;
pub use validation::{pick_target_param_for_edge, probe_edge_connect, validate_edge_connect};
