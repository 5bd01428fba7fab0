//! Compilation settings for graphs.

use vstd::prelude::*;

verus! {

/// Whether a graph is compiled for preview or for the runtime.
#[derive(Debug, Clone, Copy, PartialEq, Eq, Structural)]
pub enum CompileMode {
    Preview,
    Runtime,
}

} // verus!
