//! Building a program as a graph: sequences, outputs and the relations
//! between them.

use vstd::prelude::*;

use crate::domain::container::{Container, ContainerKind, ContainerSurfaceTile};
use crate::domain::flow::{output_signature_is, OutputNode, PortGroupId, PortMemberId, RootSurfaceNodeKind};
use crate::domain::program::{ContainerId, NodeId, TesseraProgram};
use crate::domain::relations::{EndpointView, InputEndpoint, RootRelation, StreamSource, StreamTarget};

verus! {

/// `new` is `old` with the key `k` added or replaced and every other entry kept.
pub open spec fn updated_at<K, V>(new: Map<K, V>, old: Map<K, V>, k: K) -> bool {
    &&& new.dom() == old.dom().insert(k)
    &&& forall|j: K| #[trigger] old.contains_key(j) && j != k ==> new[j] == old[j]
}

/// The node is the container `id`.
pub open spec fn is_container_node(n: RootSurfaceNodeKind, id: Seq<char>) -> bool {
    n matches RootSurfaceNodeKind::Container { container } && container@ == id
}

/// The node is an output with no label and the output signature.
pub open spec fn is_default_output(n: RootSurfaceNodeKind) -> bool {
    n matches RootSurfaceNodeKind::Output(o) && o.label is None && output_signature_is(o.signature)
}

/// The relation feeds the `out` socket of `from` into the `inputs/main` member of the output `to`.
pub open spec fn is_output_feed(r: RootRelation, from: Seq<char>, to: Seq<char>) -> bool {
    r matches RootRelation::FlowsTo { from: src, to: StreamTarget::OutputInput { node, endpoint } }
        && src.node@ == from && src.endpoint@ == EndpointView::Socket("out"@)
        && node@ == to && endpoint@ == EndpointView::GroupMember("inputs"@, "main"@)
}

/// Graph-style construction of a program.
pub trait TesseraProgramExt: Sized {
    fn empty() -> Self;

    fn add_sequence(&mut self, id: &str, stack: Vec<ContainerSurfaceTile>) -> &mut Self;

    fn add_output(&mut self, id: &str) -> &mut Self;

    fn connect(&mut self, from: &str, to: &str) -> &mut Self;
}

impl TesseraProgramExt for TesseraProgram {
    fn empty() -> (r: Self)
        ensures
            r.root_nodes.as_map().is_empty(),
            r.containers.as_map().is_empty(),
            r.relations@.len() == 0,
    {
        TesseraProgram::default()
    }

    /// Adds the sequence container `id` with `stack` and a root node of the same name that places it.
    fn add_sequence(&mut self, id: &str, stack: Vec<ContainerSurfaceTile>) -> (r: &mut Self)
        ensures
            r.containers.as_map() == old(self).containers.as_map().insert(
                id@,
                Container { kind: ContainerKind::Sequence, stack },
            ),
            updated_at(r.root_nodes.as_map(), old(self).root_nodes.as_map(), id@),
            is_container_node(r.root_nodes.as_map()[id@], id@),
            r.relations == old(self).relations,
            *final(self) == *final(r),
    {
        let container_id = ContainerId::new(id);
        self.containers.insert(container_id.clone(), Container { kind: ContainerKind::Sequence, stack });
        self.root_nodes.insert(NodeId::new(id), RootSurfaceNodeKind::Container { container: container_id });
        self
    }

    /// Adds the output node `id`.
    fn add_output(&mut self, id: &str) -> (r: &mut Self)
        ensures
            r.containers == old(self).containers,
            updated_at(r.root_nodes.as_map(), old(self).root_nodes.as_map(), id@),
            is_default_output(r.root_nodes.as_map()[id@]),
            r.relations == old(self).relations,
            *final(self) == *final(r),
    {
        self.root_nodes.insert(NodeId::new(id), RootSurfaceNodeKind::Output(OutputNode::default()));
        self
    }

    /// Feeds the `out` socket of `from` into the main input of the output `to`.
    fn connect(&mut self, from: &str, to: &str) -> (r: &mut Self)
        ensures
            r.containers == old(self).containers,
            r.root_nodes == old(self).root_nodes,
            r.relations@.len() == old(self).relations@.len() + 1,
            r.relations@.take(old(self).relations@.len() as int) == old(self).relations@,
            is_output_feed(r.relations@.last(), from@, to@),
            *final(self) == *final(r),
    {
        self.relations.push(
            RootRelation::FlowsTo {
                from: StreamSource::node(NodeId::new(from)),
                to: StreamTarget::OutputInput {
                    node: NodeId::new(to),
                    endpoint: InputEndpoint::GroupMember {
                        group: PortGroupId::new("inputs"),
                        member: PortMemberId::new("main"),
                    },
                },
            },
        );
        self
    }
}

} // verus!
