//! Short names for the tiles of a container stack.

use vstd::prelude::*;

use crate::domain::atom::{AtomOperatorToken, AtomTile, NoteAtom, ScalarAtom};
use crate::domain::container::ContainerSurfaceTile;
use crate::domain::program::ContainerId;

verus! {

/// The tile is the note `value`.
pub open spec fn is_note(t: ContainerSurfaceTile, value: Seq<char>) -> bool {
    t matches ContainerSurfaceTile::Atom(AtomTile::Note(n)) && n.value@ == value
}

/// A note tile.
pub fn note(value: &str) -> (r: ContainerSurfaceTile)
    ensures
        is_note(r, value@),
{
    ContainerSurfaceTile::Atom(AtomTile::Note(NoteAtom::new(value)))
}

/// One note tile per value, in order.
pub fn notes<const N: usize>(values: [&str; N]) -> (r: Vec<ContainerSurfaceTile>)
    ensures
        r@.len() == N,
        forall|i: int| 0 <= i < N ==> is_note(#[trigger] r@[i], values@[i]@),
{
    let mut out: Vec<ContainerSurfaceTile> = Vec::new();
    let mut i: usize = 0;
    while i < N
        invariant
            i <= N,
            values@.len() == N,
            out@.len() == i,
            forall|j: int| 0 <= j < i ==> is_note(#[trigger] out@[j], values@[j]@),
        decreases N - i,
    {
        out.push(note(values[i]));
        i = i + 1;
    }
    out
}

/// A scalar tile.
pub fn scalar(value: i64) -> (r: ContainerSurfaceTile)
    ensures
        r == ContainerSurfaceTile::Atom(AtomTile::Scalar(ScalarAtom { value })),
{
    ContainerSurfaceTile::Atom(AtomTile::Scalar(ScalarAtom::integer(value)))
}

/// A rest tile.
pub fn rest() -> (r: ContainerSurfaceTile)
    ensures
        r == ContainerSurfaceTile::Atom(AtomTile::Rest),
{
    ContainerSurfaceTile::Atom(AtomTile::Rest)
}

/// An operator tile.
pub fn op(token: AtomOperatorToken) -> (r: ContainerSurfaceTile)
    ensures
        r == ContainerSurfaceTile::Atom(AtomTile::Operator(token)),
{
    ContainerSurfaceTile::Atom(AtomTile::Operator(token))
}

/// A tile that nests the container `id`.
pub fn nested(id: &str) -> (r: ContainerSurfaceTile)
    ensures
        r matches ContainerSurfaceTile::NestedContainer(c) && c@ == id@,
{
    ContainerSurfaceTile::NestedContainer(ContainerId::new(id))
}

/// The tiles as a stack, bottom first.
pub fn stack(items: Vec<ContainerSurfaceTile>) -> (r: Vec<ContainerSurfaceTile>)
    ensures
        r@ == items@,
{
    items
}

/// Builds a stack one tile at a time.
#[derive(Debug, Clone)]
pub struct StackBuilder {
    items: Vec<ContainerSurfaceTile>,
}

impl View for StackBuilder {
    type V = Seq<ContainerSurfaceTile>;

    closed spec fn view(&self) -> Seq<ContainerSurfaceTile> {
        self.items@
    }
}

impl Default for StackBuilder {
    fn default() -> (r: Self)
        ensures
            r@ == Seq::<ContainerSurfaceTile>::empty(),
    {
        StackBuilder { items: Vec::new() }
    }
}

impl StackBuilder {
    /// An empty stack.
    pub fn new() -> (r: Self)
        ensures
            r@ == Seq::<ContainerSurfaceTile>::empty(),
    {
        StackBuilder::default()
    }

    /// The stack with `item` on top.
    pub fn push(self, item: ContainerSurfaceTile) -> (r: Self)
        ensures
            r@ == self@.push(item),
    {
        let mut b = self;
        b.items.push(item);
        b
    }

    /// The tiles pushed so far, bottom first.
    pub fn build(self) -> (r: Vec<ContainerSurfaceTile>)
        ensures
            r@ == self@,
    {
        self.items
    }
}

} // verus!
