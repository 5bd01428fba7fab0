//! Tessera: a spatial music-pattern language with a verified core.

pub mod collections;
pub mod compiler;
pub mod diagnostics;
pub mod domain;
pub mod graph;
pub mod infrastructure;
pub mod internal;
pub mod json;
pub mod ops;
pub mod piece;
pub mod piece_registry;
pub mod semantic;
pub mod subgraph;
pub mod text;
pub mod types;
