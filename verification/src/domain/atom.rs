//! Atom tiles that can be stacked inside a container.

use vstd::prelude::*;

use crate::text::owned;

verus! {

/// A note name such as `a` or `c#`.
#[derive(Debug, Clone, PartialEq, Eq)]
pub struct NoteAtom {
    pub value: String,
}

impl NoteAtom {
    pub fn new(value: &str) -> (r: Self)
        ensures
            r.value@ == value@,
    {
        NoteAtom { value: owned(value) }
    }
}

/// A scalar argument tile.
#[derive(Debug, Clone, Copy, PartialEq, Eq, Structural)]
pub struct ScalarAtom {
    pub value: i64,
}

impl ScalarAtom {
    pub fn integer(value: i64) -> (r: Self)
        ensures
            r.value == value,
    {
        ScalarAtom { value }
    }
}

/// An operator tile that modifies its left neighbour.
#[derive(Debug, Clone, Copy, PartialEq, Eq, Structural)]
pub enum AtomOperatorToken {
    Elongate,
}

/// One atom tile of a container stack.
#[derive(Debug, Clone, PartialEq, Eq)]
pub enum AtomTile {
    Note(NoteAtom),
    Scalar(ScalarAtom),
    Rest,
    Operator(AtomOperatorToken),
}

} // verus!
