//! Authoring a program on the board: placing containers and nodes, turning
//! them, and binding the sides their endpoints face.

use vstd::prelude::*;

use super::program_ext::{is_container_node, is_default_output, updated_at};
use crate::domain::container::{Container, ContainerKind, ContainerSurfaceTile};
use crate::domain::flow::{
    flow_members_is, flow_signature_is, member_ids, single_group, spec_default_policy,
    transform_signature_is, FlowControlKind, FlowControlNode, OutputNode, PortGroupId,
    PortMemberId, RootSurfaceNodeKind, TransformKind, TransformNode,
};
use crate::domain::program::{ContainerId, NodeId};
use crate::domain::relations::{InputEndpoint, OutputEndpoint, RootRelation};
use crate::domain::spatial_defaults::{
    apply_flow_member_default_bindings, default_inputs, default_outputs, default_spatial_bindings,
    lemma_member_defaults_idempotent,
};
use crate::domain::surface::{
    spec_rotate_ccw, spec_rotate_cw, AuthoredTesseraProgram, BoardSlot, NodeSpatialBindings,
    RootPlacement, RootSurface, SpatialSide, TileFootprint,
};

verus! {

/// `new` is `old` with the node `id` placed one cell large at `slot`, facing
/// its default sides; relations are kept.
pub open spec fn placed_at(new: RootSurface, old: RootSurface, id: Seq<char>, slot: BoardSlot) -> bool {
    &&& updated_at(new.nodes.as_map(), old.nodes.as_map(), id)
    &&& new.placements.as_map() == old.placements.as_map().insert(
        id,
        RootPlacement { slot, footprint: TileFootprint { width: 1, height: 1 } },
    )
    &&& updated_at(new.bindings.as_map(), old.bindings.as_map(), id)
    &&& new.bindings.as_map()[id].inputs.as_map() == default_inputs(new.nodes.as_map()[id])
    &&& new.bindings.as_map()[id].outputs.as_map() == default_outputs(new.nodes.as_map()[id])
    &&& new.explicit_relations == old.explicit_relations
}

/// The node is a transform of `kind` with the kind's signature.
pub open spec fn is_transform_node(n: RootSurfaceNodeKind, kind: TransformKind) -> bool {
    n matches RootSurfaceNodeKind::Transform(t) && t.kind == kind && transform_signature_is(t.signature, kind)
}

/// The node is a flow-control node of `kind` with the kind's signature and policy.
pub open spec fn is_flow_node(n: RootSurfaceNodeKind, kind: FlowControlKind) -> bool {
    n matches RootSurfaceNodeKind::FlowControl(f) && f.kind == kind && flow_signature_is(f.signature, kind)
        && f.policy == spec_default_policy(kind)
}

/// The names of `members`, in order.
pub open spec fn names(members: Seq<&str>) -> Seq<Seq<char>> {
    members.map_values(|s: &str| s@)
}

/// The node's declared members: the kind's defaults.
pub open spec fn has_default_members(n: RootSurfaceNodeKind, kind: FlowControlKind) -> bool {
    n matches RootSurfaceNodeKind::FlowControl(f) && flow_members_is(f.members, kind)
}

/// The node's only input group is `group`, listing `members`; it has no output group.
pub open spec fn has_input_members(n: RootSurfaceNodeKind, group: Seq<char>, members: Seq<Seq<char>>) -> bool {
    n matches RootSurfaceNodeKind::FlowControl(f) && single_group(f.members.inputs.as_map(), group, members)
        && f.members.outputs.as_map().dom().is_empty()
}

/// The node's only output group is `group`, listing `members`; it has no input group.
pub open spec fn has_output_members(n: RootSurfaceNodeKind, group: Seq<char>, members: Seq<Seq<char>>) -> bool {
    n matches RootSurfaceNodeKind::FlowControl(f) && single_group(f.members.outputs.as_map(), group, members)
        && f.members.inputs.as_map().dom().is_empty()
}

/// The bindings of `node` before a change: its own, or none.
pub open spec fn bindings_before(old: Map<Seq<char>, NodeSpatialBindings>, node: Seq<char>) -> (
    Map<crate::domain::relations::EndpointView, SpatialSide>,
    Map<crate::domain::relations::EndpointView, SpatialSide>,
) {
    if old.contains_key(node) {
        (old[node].inputs.as_map(), old[node].outputs.as_map())
    } else {
        (Map::empty(), Map::empty())
    }
}

/// Placing and arranging nodes on the board.
pub trait AuthoredTesseraProgramExt: Sized {
    fn place_container(
        &mut self,
        id: &str,
        slot: BoardSlot,
        kind: ContainerKind,
        stack: Vec<ContainerSurfaceTile>,
    ) -> &mut Self;

    fn place_sequence(&mut self, id: &str, slot: BoardSlot, stack: Vec<ContainerSurfaceTile>) -> &mut Self;

    fn place_alternate(&mut self, id: &str, slot: BoardSlot, stack: Vec<ContainerSurfaceTile>) -> &mut Self;

    fn place_layer_container(
        &mut self,
        id: &str,
        slot: BoardSlot,
        stack: Vec<ContainerSurfaceTile>,
    ) -> &mut Self;

    fn place_transform(&mut self, id: &str, slot: BoardSlot, kind: TransformKind) -> &mut Self;

    fn place_output(&mut self, id: &str, slot: BoardSlot) -> &mut Self;

    fn place_flow_control(&mut self, id: &str, slot: BoardSlot, kind: FlowControlKind) -> &mut Self;

    fn place_layer(&mut self, id: &str, slot: BoardSlot, members: &[&str]) -> &mut Self;

    fn place_split(&mut self, id: &str, slot: BoardSlot, members: &[&str]) -> &mut Self;

    fn place_route(&mut self, id: &str, slot: BoardSlot, members: &[&str]) -> &mut Self;

    fn bind_input_side(&mut self, node: &str, endpoint: InputEndpoint, side: SpatialSide) -> &mut Self;

    fn bind_output_side(&mut self, node: &str, endpoint: OutputEndpoint, side: SpatialSide) -> &mut Self;

    fn add_explicit_relation(&mut self, relation: RootRelation) -> &mut Self;

    fn rotate_node_cw(&mut self, node: &str) -> &mut Self;

    fn rotate_node_ccw(&mut self, node: &str) -> &mut Self;
}

/// Puts `node` on the board at `slot`, one cell large, with its default sides.
fn insert_placed_node(program: &mut AuthoredTesseraProgram, node_id: NodeId, slot: BoardSlot, node: RootSurfaceNodeKind)
    ensures
        placed_at(final(program).root_surface, old(program).root_surface, node_id@, slot),
        final(program).root_surface.nodes.as_map()[node_id@] == node,
        final(program).containers == old(program).containers,
{
    let mut bindings = default_spatial_bindings(&node);
    if let RootSurfaceNodeKind::FlowControl(flow) = &node {
        proof {
            lemma_member_defaults_idempotent(
                crate::domain::spatial_defaults::flow_inputs(flow.kind),
                crate::domain::spatial_defaults::member_endpoints(flow.members.inputs.as_map()),
                SpatialSide::West,
            );
            lemma_member_defaults_idempotent(
                crate::domain::spatial_defaults::flow_outputs(flow.kind),
                crate::domain::spatial_defaults::member_endpoints(flow.members.outputs.as_map()),
                SpatialSide::East,
            );
        }
        apply_flow_member_default_bindings(flow, &mut bindings);
    }
    let ghost b = bindings;
    let ghost n = node;
    program.root_surface.nodes.insert(node_id.clone(), node);
    program.root_surface.placements.insert(
        node_id.clone(),
        RootPlacement { slot, footprint: TileFootprint::unit() },
    );
    program.root_surface.bindings.insert(node_id, bindings);
    proof {
        let new = program.root_surface;
        assert(new.nodes.as_map()[node_id@] == n);
        assert(new.bindings.as_map()[node_id@] == b);
    }
}

/// The member ids of `members`, in order.
fn member_list(members: &[&str]) -> (r: Vec<PortMemberId>)
    ensures
        member_ids(r) == names(members@),
{
    let mut out: Vec<PortMemberId> = Vec::new();
    let mut i: usize = 0;
    while i < members.len()
        invariant
            i <= members@.len(),
            member_ids(out) == names(members@).take(i as int),
        decreases members@.len() - i,
    {
        out.push(PortMemberId::new(members[i]));
        proof {
            assert(names(members@).take(i + 1) =~= names(members@).take(i as int).push(members@[i as int]@));
            assert(member_ids(out) =~= member_ids(out).take(i as int).push(out@[i as int]@));
        }
        i = i + 1;
    }
    proof {
        assert(names(members@).take(members@.len() as int) =~= names(members@));
    }
    out
}

impl AuthoredTesseraProgramExt for AuthoredTesseraProgram {
    /// Adds the container `id` and places a node of the same name for it at `slot`.
    fn place_container(
        &mut self,
        id: &str,
        slot: BoardSlot,
        kind: ContainerKind,
        stack: Vec<ContainerSurfaceTile>,
    ) -> (r: &mut Self)
        ensures
            r.containers.as_map() == old(self).containers.as_map().insert(id@, Container { kind, stack }),
            placed_at(r.root_surface, old(self).root_surface, id@, slot),
            is_container_node(r.root_surface.nodes.as_map()[id@], id@),
            *final(self) == *final(r),
    {
        let container_id = ContainerId::new(id);
        let node_id = NodeId::new(id);
        self.containers.insert(container_id.clone(), Container { kind, stack });
        let node = RootSurfaceNodeKind::Container { container: container_id };
        insert_placed_node(self, node_id, slot, node);
        self
    }

    /// Places a sequence container.
    fn place_sequence(&mut self, id: &str, slot: BoardSlot, stack: Vec<ContainerSurfaceTile>) -> (r: &mut Self)
        ensures
            r.containers.as_map() == old(self).containers.as_map().insert(
                id@,
                Container { kind: ContainerKind::Sequence, stack },
            ),
            placed_at(r.root_surface, old(self).root_surface, id@, slot),
            is_container_node(r.root_surface.nodes.as_map()[id@], id@),
            *final(self) == *final(r),
    {
        self.place_container(id, slot, ContainerKind::Sequence, stack)
    }

    /// Places an alternate container.
    fn place_alternate(&mut self, id: &str, slot: BoardSlot, stack: Vec<ContainerSurfaceTile>) -> (r: &mut Self)
        ensures
            r.containers.as_map() == old(self).containers.as_map().insert(
                id@,
                Container { kind: ContainerKind::Alternate, stack },
            ),
            placed_at(r.root_surface, old(self).root_surface, id@, slot),
            is_container_node(r.root_surface.nodes.as_map()[id@], id@),
            *final(self) == *final(r),
    {
        self.place_container(id, slot, ContainerKind::Alternate, stack)
    }

    /// Places a layer container.
    fn place_layer_container(
        &mut self,
        id: &str,
        slot: BoardSlot,
        stack: Vec<ContainerSurfaceTile>,
    ) -> (r: &mut Self)
        ensures
            r.containers.as_map() == old(self).containers.as_map().insert(
                id@,
                Container { kind: ContainerKind::Layer, stack },
            ),
            placed_at(r.root_surface, old(self).root_surface, id@, slot),
            is_container_node(r.root_surface.nodes.as_map()[id@], id@),
            *final(self) == *final(r),
    {
        self.place_container(id, slot, ContainerKind::Layer, stack)
    }

    /// Places a transform node of `kind`.
    fn place_transform(&mut self, id: &str, slot: BoardSlot, kind: TransformKind) -> (r: &mut Self)
        ensures
            r.containers == old(self).containers,
            placed_at(r.root_surface, old(self).root_surface, id@, slot),
            is_transform_node(r.root_surface.nodes.as_map()[id@], kind),
            *final(self) == *final(r),
    {
        let node = RootSurfaceNodeKind::Transform(TransformNode::new(kind));
        insert_placed_node(self, NodeId::new(id), slot, node);
        self
    }

    /// Places an output node.
    fn place_output(&mut self, id: &str, slot: BoardSlot) -> (r: &mut Self)
        ensures
            r.containers == old(self).containers,
            placed_at(r.root_surface, old(self).root_surface, id@, slot),
            is_default_output(r.root_surface.nodes.as_map()[id@]),
            *final(self) == *final(r),
    {
        let node = RootSurfaceNodeKind::Output(OutputNode::default());
        insert_placed_node(self, NodeId::new(id), slot, node);
        self
    }

    /// Places a flow-control node of `kind` with the kind's default members.
    fn place_flow_control(&mut self, id: &str, slot: BoardSlot, kind: FlowControlKind) -> (r: &mut Self)
        ensures
            r.containers == old(self).containers,
            placed_at(r.root_surface, old(self).root_surface, id@, slot),
            is_flow_node(r.root_surface.nodes.as_map()[id@], kind),
            has_default_members(r.root_surface.nodes.as_map()[id@], kind),
            *final(self) == *final(r),
    {
        let node = RootSurfaceNodeKind::FlowControl(FlowControlNode::new(kind));
        insert_placed_node(self, NodeId::new(id), slot, node);
        self
    }

    /// Places a layer whose `streams` group lists `members`.
    fn place_layer(&mut self, id: &str, slot: BoardSlot, members: &[&str]) -> (r: &mut Self)
        ensures
            r.containers == old(self).containers,
            placed_at(r.root_surface, old(self).root_surface, id@, slot),
            is_flow_node(r.root_surface.nodes.as_map()[id@], FlowControlKind::Layer),
            has_input_members(r.root_surface.nodes.as_map()[id@], "streams"@, names(members@)),
            *final(self) == *final(r),
    {
        let mut node = FlowControlNode::new(FlowControlKind::Layer);
        node.members.inputs.insert(PortGroupId::new("streams"), member_list(members));
        proof {
            assert(node.members.inputs.as_map().dom() =~= set!["streams"@]);
        }
        insert_placed_node(self, NodeId::new(id), slot, RootSurfaceNodeKind::FlowControl(node));
        self
    }

    /// Places a split whose `branches` group lists `members`.
    fn place_split(&mut self, id: &str, slot: BoardSlot, members: &[&str]) -> (r: &mut Self)
        ensures
            r.containers == old(self).containers,
            placed_at(r.root_surface, old(self).root_surface, id@, slot),
            is_flow_node(r.root_surface.nodes.as_map()[id@], FlowControlKind::Split),
            has_output_members(r.root_surface.nodes.as_map()[id@], "branches"@, names(members@)),
            *final(self) == *final(r),
    {
        let mut node = FlowControlNode::new(FlowControlKind::Split);
        node.members.outputs.insert(PortGroupId::new("branches"), member_list(members));
        proof {
            assert(node.members.outputs.as_map().dom() =~= set!["branches"@]);
        }
        insert_placed_node(self, NodeId::new(id), slot, RootSurfaceNodeKind::FlowControl(node));
        self
    }

    /// Places a route whose `routes` group lists `members`.
    fn place_route(&mut self, id: &str, slot: BoardSlot, members: &[&str]) -> (r: &mut Self)
        ensures
            r.containers == old(self).containers,
            placed_at(r.root_surface, old(self).root_surface, id@, slot),
            is_flow_node(r.root_surface.nodes.as_map()[id@], FlowControlKind::Route),
            has_output_members(r.root_surface.nodes.as_map()[id@], "routes"@, names(members@)),
            *final(self) == *final(r),
    {
        let mut node = FlowControlNode::new(FlowControlKind::Route);
        node.members.outputs.insert(PortGroupId::new("routes"), member_list(members));
        proof {
            assert(node.members.outputs.as_map().dom() =~= set!["routes"@]);
        }
        insert_placed_node(self, NodeId::new(id), slot, RootSurfaceNodeKind::FlowControl(node));
        self
    }

    /// Makes `endpoint` of `node` face `side`, starting from no bindings when
    /// the node has none yet.
    fn bind_input_side(&mut self, node: &str, endpoint: InputEndpoint, side: SpatialSide) -> (r: &mut Self)
        ensures
            r.containers == old(self).containers,
            r.root_surface.nodes == old(self).root_surface.nodes,
            r.root_surface.placements == old(self).root_surface.placements,
            r.root_surface.explicit_relations == old(self).root_surface.explicit_relations,
            updated_at(r.root_surface.bindings.as_map(), old(self).root_surface.bindings.as_map(), node@),
            r.root_surface.bindings.as_map()[node@].inputs.as_map() == bindings_before(
                old(self).root_surface.bindings.as_map(),
                node@,
            ).0.insert(endpoint@, side),
            r.root_surface.bindings.as_map()[node@].outputs.as_map() == bindings_before(
                old(self).root_surface.bindings.as_map(),
                node@,
            ).1,
            *final(self) == *final(r),
    {
        let node_id = NodeId::new(node);
        let ghost om = self.root_surface.bindings.as_map();
        let mut b = match self.root_surface.bindings.remove(&node_id) {
            Some(b) => b,
            None => NodeSpatialBindings::default(),
        };
        b.inputs.insert(endpoint, side);
        let ghost nb = b;
        self.root_surface.bindings.insert(node_id, b);
        proof {
            assert(self.root_surface.bindings.as_map()[node@] == nb);
                        assert(self.root_surface.bindings.as_map().dom() =~= om.dom().insert(node@));
        }
        self
    }

    /// Makes `endpoint` of `node` face `side`, starting from no bindings when
    /// the node has none yet.
    fn bind_output_side(&mut self, node: &str, endpoint: OutputEndpoint, side: SpatialSide) -> (r: &mut Self)
        ensures
            r.containers == old(self).containers,
            r.root_surface.nodes == old(self).root_surface.nodes,
            r.root_surface.placements == old(self).root_surface.placements,
            r.root_surface.explicit_relations == old(self).root_surface.explicit_relations,
            updated_at(r.root_surface.bindings.as_map(), old(self).root_surface.bindings.as_map(), node@),
            r.root_surface.bindings.as_map()[node@].inputs.as_map() == bindings_before(
                old(self).root_surface.bindings.as_map(),
                node@,
            ).0,
            r.root_surface.bindings.as_map()[node@].outputs.as_map() == bindings_before(
                old(self).root_surface.bindings.as_map(),
                node@,
            ).1.insert(endpoint@, side),
            *final(self) == *final(r),
    {
        let node_id = NodeId::new(node);
        let ghost om = self.root_surface.bindings.as_map();
        let mut b = match self.root_surface.bindings.remove(&node_id) {
            Some(b) => b,
            None => NodeSpatialBindings::default(),
        };
        b.outputs.insert(endpoint, side);
        let ghost nb = b;
        self.root_surface.bindings.insert(node_id, b);
        proof {
            assert(self.root_surface.bindings.as_map()[node@] == nb);
                        assert(self.root_surface.bindings.as_map().dom() =~= om.dom().insert(node@));
        }
        self
    }

    /// Appends an explicit relation.
    fn add_explicit_relation(&mut self, relation: RootRelation) -> (r: &mut Self)
        ensures
            r.containers == old(self).containers,
            r.root_surface.nodes == old(self).root_surface.nodes,
            r.root_surface.placements == old(self).root_surface.placements,
            r.root_surface.bindings == old(self).root_surface.bindings,
            r.root_surface.explicit_relations@ == old(self).root_surface.explicit_relations@.push(relation),
            *final(self) == *final(r),
    {
        self.root_surface.explicit_relations.push(relation);
        self
    }

    /// Turns every side of `node` a quarter clockwise; a node without
    /// bindings is left alone.
    fn rotate_node_cw(&mut self, node: &str) -> (r: &mut Self)
        ensures
            r.containers == old(self).containers,
            r.root_surface.nodes == old(self).root_surface.nodes,
            r.root_surface.placements == old(self).root_surface.placements,
            r.root_surface.explicit_relations == old(self).root_surface.explicit_relations,
            old(self).root_surface.bindings.as_map().contains_key(node@) ==> {
                &&& updated_at(r.root_surface.bindings.as_map(), old(self).root_surface.bindings.as_map(), node@)
                &&& r.root_surface.bindings.as_map()[node@].inputs.as_map()
                    == old(self).root_surface.bindings.as_map()[node@].inputs.as_map().map_values(
                    |s: SpatialSide| spec_rotate_cw(s),
                )
                &&& r.root_surface.bindings.as_map()[node@].outputs.as_map()
                    == old(self).root_surface.bindings.as_map()[node@].outputs.as_map().map_values(
                    |s: SpatialSide| spec_rotate_cw(s),
                )
            },
            !old(self).root_surface.bindings.as_map().contains_key(node@) ==> r.root_surface.bindings
                == old(self).root_surface.bindings,
            *final(self) == *final(r),
    {
        let node_id = NodeId::new(node);
        let ghost om = self.root_surface.bindings.as_map();
        if self.root_surface.bindings.contains_key(&node_id) {
            match self.root_surface.bindings.remove(&node_id) {
                Some(b) => {
                    let mut b = b;
                    b.rotate_cw();
                    let ghost nb = b;
                    self.root_surface.bindings.insert(node_id, b);
                    proof {
                        assert(self.root_surface.bindings.as_map()[node@] == nb);
                        assert(self.root_surface.bindings.as_map().dom() =~= om.dom().insert(node@));
                    }
                },
                None => {},
            }
        }
        self
    }

    /// Turns every side of `node` a quarter counter-clockwise; a node without
    /// bindings is left alone.
    fn rotate_node_ccw(&mut self, node: &str) -> (r: &mut Self)
        ensures
            r.containers == old(self).containers,
            r.root_surface.nodes == old(self).root_surface.nodes,
            r.root_surface.placements == old(self).root_surface.placements,
            r.root_surface.explicit_relations == old(self).root_surface.explicit_relations,
            old(self).root_surface.bindings.as_map().contains_key(node@) ==> {
                &&& updated_at(r.root_surface.bindings.as_map(), old(self).root_surface.bindings.as_map(), node@)
                &&& r.root_surface.bindings.as_map()[node@].inputs.as_map()
                    == old(self).root_surface.bindings.as_map()[node@].inputs.as_map().map_values(
                    |s: SpatialSide| spec_rotate_ccw(s),
                )
                &&& r.root_surface.bindings.as_map()[node@].outputs.as_map()
                    == old(self).root_surface.bindings.as_map()[node@].outputs.as_map().map_values(
                    |s: SpatialSide| spec_rotate_ccw(s),
                )
            },
            !old(self).root_surface.bindings.as_map().contains_key(node@) ==> r.root_surface.bindings
                == old(self).root_surface.bindings,
            *final(self) == *final(r),
    {
        let node_id = NodeId::new(node);
        let ghost om = self.root_surface.bindings.as_map();
        if self.root_surface.bindings.contains_key(&node_id) {
            match self.root_surface.bindings.remove(&node_id) {
                Some(b) => {
                    let mut b = b;
                    b.rotate_ccw();
                    let ghost nb = b;
                    self.root_surface.bindings.insert(node_id, b);
                    proof {
                        assert(self.root_surface.bindings.as_map()[node@] == nb);
                        assert(self.root_surface.bindings.as_map().dom() =~= om.dom().insert(node@));
                    }
                },
                None => {},
            }
        }
        self
    }
}

} // verus!
