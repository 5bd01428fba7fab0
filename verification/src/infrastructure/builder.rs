//! A by-value builder for graph-style programs.

use vstd::prelude::*;

use super::program_ext::{is_container_node, is_default_output, is_output_feed, updated_at, TesseraProgramExt};
use crate::domain::container::{Container, ContainerKind, ContainerSurfaceTile};
use crate::domain::program::TesseraProgram;

verus! {

/// Collects sequences, outputs and connections into a program.
#[derive(Debug, Clone)]
pub struct TesseraProgramBuilder {
    program: TesseraProgram,
}

impl TesseraProgramBuilder {
    /// The program built so far.
    pub closed spec fn program_so_far(self) -> TesseraProgram {
        self.program
    }

    /// A builder of the empty program.
    pub fn new() -> (r: Self)
        ensures
            r.program_so_far().root_nodes.as_map().is_empty(),
            r.program_so_far().containers.as_map().is_empty(),
            r.program_so_far().relations@.len() == 0,
    {
        TesseraProgramBuilder { program: TesseraProgram::default() }
    }

    /// The program.
    pub fn build(self) -> (r: TesseraProgram)
        ensures
            r == self.program_so_far(),
    {
        self.program
    }

    /// The builder with the sequence container `id` placed by a root node of the same name.
    pub fn add_sequence(self, id: &str, stack: Vec<ContainerSurfaceTile>) -> (r: Self)
        ensures
            r.program_so_far().containers.as_map() == self.program_so_far().containers.as_map().insert(
                id@,
                Container { kind: ContainerKind::Sequence, stack },
            ),
            updated_at(r.program_so_far().root_nodes.as_map(), self.program_so_far().root_nodes.as_map(), id@),
            is_container_node(r.program_so_far().root_nodes.as_map()[id@], id@),
            r.program_so_far().relations == self.program_so_far().relations,
    {
        let mut b = self;
        b.program.add_sequence(id, stack);
        b
    }

    /// The builder with the output node `id`.
    pub fn add_output(self, id: &str) -> (r: Self)
        ensures
            r.program_so_far().containers == self.program_so_far().containers,
            updated_at(r.program_so_far().root_nodes.as_map(), self.program_so_far().root_nodes.as_map(), id@),
            is_default_output(r.program_so_far().root_nodes.as_map()[id@]),
            r.program_so_far().relations == self.program_so_far().relations,
    {
        let mut b = self;
        b.program.add_output(id);
        b
    }

    /// The builder with `from` feeding the output `to`.
    pub fn connect(self, from: &str, to: &str) -> (r: Self)
        ensures
            r.program_so_far().containers == self.program_so_far().containers,
            r.program_so_far().root_nodes == self.program_so_far().root_nodes,
            r.program_so_far().relations@.len() == self.program_so_far().relations@.len() + 1,
            r.program_so_far().relations@.take(self.program_so_far().relations@.len() as int)
                == self.program_so_far().relations@,
            is_output_feed(r.program_so_far().relations@.last(), from@, to@),
    {
        let mut b = self;
        b.program.connect(from, to);
        b
    }
}

} // verus!
