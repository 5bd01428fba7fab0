//! Containers: named stacks of tiles that the root surface places.

use vstd::prelude::*;

use super::atom::AtomTile;
pub use super::program::ContainerId;

verus! {

/// How a container plays its stack.
#[derive(Debug, Clone, Copy, PartialEq, Eq, Structural)]
pub enum ContainerKind {
    Sequence,
    Alternate,
    Layer,
}

/// One tile of a container stack.
#[derive(Debug, Clone, PartialEq, Eq)]
pub enum ContainerSurfaceTile {
    Atom(AtomTile),
    NestedContainer(ContainerId),
    Transform,
    Output,
}

/// A container: its kind and its stack of tiles.
#[derive(Debug, Clone, PartialEq, Eq)]
pub struct Container {
    pub kind: ContainerKind,
    pub stack: Vec<ContainerSurfaceTile>,
}

} // verus!
