//! The Tessera language model: programs, containers, flow signatures,
//! spatial surfaces and the pattern IR that compilation produces.

pub mod atom;
pub mod container;
pub mod diagnostics;
pub mod flow;
pub mod pattern_ir;
pub mod program;
pub mod rational;
pub mod rational_laws;
pub mod relations;
pub mod spatial_defaults;
pub mod stream_laws;
pub mod surface;

pub use pattern_ir::{CycleDuration, CycleSpan, CycleTime, EventField, EventValue, FieldValue, PatternEvent};
pub use program::{ContainerId, NodeId};
pub use rational::Rational;
