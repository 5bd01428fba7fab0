//! What a preview hands back.

use vstd::prelude::*;

use crate::domain::pattern_ir::PatternStream;

verus! {

/// The flat event stream a preview plays.
#[derive(Debug, Clone, PartialEq, Eq)]
pub struct PreviewReport {
    pub stream: PatternStream,
}

} // verus!
