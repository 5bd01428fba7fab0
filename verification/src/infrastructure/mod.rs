//! The authoring facade: short constructors for endpoints, slots and stacks,
//! and builders for programs.

pub mod authored_program_ext;
pub mod builder;
pub mod ports;
pub mod program_ext;
pub mod reports;
pub mod spatial;
pub mod stack;
