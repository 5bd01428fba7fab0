use tessera::collections::SortedMap;
use tessera::domain::atom::{AtomOperatorToken, AtomTile};
use tessera::domain::container::{ContainerKind, ContainerSurfaceTile};
use tessera::domain::flow::{
    FlowControlKind, FlowControlNode, InputPort, OutputNode, OutputPort, PortGroupId, PortMemberId,
    RootSurfaceNodeKind, TransformKind, TransformNode,
};
use tessera::domain::program::{ContainerId, NodeId, TesseraProgram};
use tessera::domain::relations::{InputEndpoint, OutputEndpoint, RootRelation, StreamTarget};
use tessera::domain::spatial_defaults::{apply_flow_member_default_bindings, default_spatial_bindings};
use tessera::domain::surface::{AuthoredTesseraProgram, BoardSlot, NodeSpatialBindings, RootPlacement, SpatialSide};
use tessera::infrastructure::authored_program_ext::AuthoredTesseraProgramExt;
use tessera::infrastructure::builder::TesseraProgramBuilder;
use tessera::infrastructure::ports::{
    amount_input, branches_member, control_input, factor_input, input, input_member, inputs_member, main_input,
    mask_input, out_output, output, output_member, routes_member, streams_member,
};
use tessera::infrastructure::program_ext::TesseraProgramExt;
use tessera::infrastructure::spatial::{footprint, placement, placement_with_footprint, slot, unit_footprint};
use tessera::infrastructure::stack::{nested, note, notes, op, rest, scalar, stack, StackBuilder};

fn socket_in(name: &str) -> InputEndpoint {
    InputEndpoint::Socket(InputPort::new(name))
}

fn socket_out(name: &str) -> OutputEndpoint {
    OutputEndpoint::Socket(OutputPort::new(name))
}

fn member_in(group: &str, member: &str) -> InputEndpoint {
    InputEndpoint::GroupMember { group: PortGroupId::new(group), member: PortMemberId::new(member) }
}

fn member_out(group: &str, member: &str) -> OutputEndpoint {
    OutputEndpoint::GroupMember { group: PortGroupId::new(group), member: PortMemberId::new(member) }
}

#[test]
fn transform_defaults_face_main_west_argument_north_output_east() {
    let b = default_spatial_bindings(&RootSurfaceNodeKind::Transform(TransformNode::new(TransformKind::Slow)));
    assert_eq!(b.inputs.get(&socket_in("main")), Some(&SpatialSide::West));
    assert_eq!(b.inputs.get(&socket_in("factor")), Some(&SpatialSide::North));
    assert_eq!(b.inputs.len(), 2);
    assert_eq!(b.outputs.get(&socket_out("out")), Some(&SpatialSide::East));

    let rev = default_spatial_bindings(&RootSurfaceNodeKind::Transform(TransformNode::new(TransformKind::Rev)));
    assert_eq!(rev.inputs.len(), 1);
    let gain = default_spatial_bindings(&RootSurfaceNodeKind::Transform(TransformNode::new(TransformKind::Gain)));
    assert_eq!(gain.inputs.get(&socket_in("amount")), Some(&SpatialSide::North));
}

#[test]
fn container_and_output_defaults() {
    let c = default_spatial_bindings(&RootSurfaceNodeKind::Container { container: ContainerId::new("c") });
    assert_eq!(c.inputs.len(), 0);
    assert_eq!(c.outputs.get(&socket_out("out")), Some(&SpatialSide::East));
    let o = default_spatial_bindings(&RootSurfaceNodeKind::Output(OutputNode::default()));
    assert_eq!(o.inputs.get(&member_in("inputs", "main")), Some(&SpatialSide::West));
    assert_eq!(o.outputs.len(), 0);
}

#[test]
fn flow_control_defaults_include_group_members() {
    let layer = default_spatial_bindings(&RootSurfaceNodeKind::FlowControl(FlowControlNode::new(FlowControlKind::Layer)));
    assert_eq!(layer.inputs.get(&member_in("streams", "a")), Some(&SpatialSide::West));
    assert_eq!(layer.inputs.get(&member_in("streams", "b")), Some(&SpatialSide::West));
    assert_eq!(layer.outputs.get(&socket_out("out")), Some(&SpatialSide::East));

    let split = default_spatial_bindings(&RootSurfaceNodeKind::FlowControl(FlowControlNode::new(FlowControlKind::Split)));
    assert_eq!(split.inputs.get(&socket_in("main")), Some(&SpatialSide::West));
    assert_eq!(split.outputs.get(&member_out("branches", "even")), Some(&SpatialSide::East));
    assert_eq!(split.outputs.get(&member_out("branches", "odd")), Some(&SpatialSide::East));
    assert!(split.outputs.get(&socket_out("out")).is_none());

    let mask = default_spatial_bindings(&RootSurfaceNodeKind::FlowControl(FlowControlNode::new(FlowControlKind::Mask)));
    assert_eq!(mask.inputs.get(&socket_in("mask")), Some(&SpatialSide::North));
}

#[test]
fn member_defaults_keep_existing_sides_and_apply_once() {
    let node = FlowControlNode::new(FlowControlKind::Merge);
    let mut b = NodeSpatialBindings::default();
    b.inputs.insert(member_in("streams", "a"), SpatialSide::North);
    apply_flow_member_default_bindings(&node, &mut b);
    assert_eq!(b.inputs.get(&member_in("streams", "a")), Some(&SpatialSide::North));
    assert_eq!(b.inputs.get(&member_in("streams", "b")), Some(&SpatialSide::West));
    let before = b.inputs.len();
    apply_flow_member_default_bindings(&node, &mut b);
    assert_eq!(b.inputs.len(), before);
}

#[test]
fn rotating_a_node_and_back_restores_its_sides() {
    let mut b = default_spatial_bindings(&RootSurfaceNodeKind::Transform(TransformNode::new(TransformKind::Fast)));
    b.rotate_cw();
    assert_eq!(b.inputs.get(&socket_in("main")), Some(&SpatialSide::North));
    assert_eq!(b.inputs.get(&socket_in("factor")), Some(&SpatialSide::East));
    assert_eq!(b.outputs.get(&socket_out("out")), Some(&SpatialSide::South));
    b.rotate_ccw();
    assert_eq!(b.inputs.get(&socket_in("main")), Some(&SpatialSide::West));
    assert_eq!(b.inputs.get(&socket_in("factor")), Some(&SpatialSide::North));
    b.mirror_horizontal();
    assert_eq!(b.outputs.get(&socket_out("out")), Some(&SpatialSide::West));
    b.mirror_horizontal();
    b.mirror_vertical();
    assert_eq!(b.inputs.get(&socket_in("factor")), Some(&SpatialSide::South));
}

#[test]
fn spatial_side_geometry() {
    assert_eq!(SpatialSide::North.opposite(), SpatialSide::South);
    assert_eq!(SpatialSide::East.rotate_cw(), SpatialSide::South);
    assert_eq!(SpatialSide::East.rotate_ccw(), SpatialSide::North);
    assert_eq!(SpatialSide::Off.rotate_cw(), SpatialSide::Off);
    assert!(!SpatialSide::Off.is_enabled());
    assert_eq!(SpatialSide::West.offset(), Some((-1, 0)));
    assert_eq!(SpatialSide::Off.offset(), None);
    assert_eq!(BoardSlot::new(2, 3).offset(-1, 4), BoardSlot::new(1, 7));
}

#[test]
fn authoring_places_nodes_with_default_sides() {
    let mut program = AuthoredTesseraProgram::empty();
    program
        .place_sequence("phrase", slot(0, 0), stack(vec![note("a"), op(AtomOperatorToken::Elongate), scalar(3)]))
        .place_transform("slow", slot(1, 0), TransformKind::Slow)
        .place_output("out", slot(2, 0));
    assert_eq!(program.containers.len(), 1);
    assert_eq!(program.containers.get(&ContainerId::new("phrase")).unwrap().kind, ContainerKind::Sequence);
    assert_eq!(program.root_surface.nodes.len(), 3);
    assert_eq!(program.root_surface.placements.get(&NodeId::new("slow")), Some(&RootPlacement::unit(1, 0)));
    let slow = program.root_surface.bindings.get(&NodeId::new("slow")).unwrap();
    assert_eq!(slow.inputs.get(&socket_in("factor")), Some(&SpatialSide::North));

    program.rotate_node_cw("slow");
    let slow = program.root_surface.bindings.get(&NodeId::new("slow")).unwrap();
    assert_eq!(slow.inputs.get(&socket_in("factor")), Some(&SpatialSide::East));
    program.rotate_node_ccw("slow").rotate_node_cw("missing");
    let slow = program.root_surface.bindings.get(&NodeId::new("slow")).unwrap();
    assert_eq!(slow.inputs.get(&socket_in("factor")), Some(&SpatialSide::North));
    assert!(program.root_surface.bindings.get(&NodeId::new("missing")).is_none());
}

#[test]
fn authoring_flow_nodes_with_members_and_side_bindings() {
    let mut program = AuthoredTesseraProgram::empty();
    program.place_layer("mix", slot(0, 0), &["x", "y", "z"]);
    program.place_split("fork", slot(1, 0), &["l", "r"]);
    program.place_route("router", slot(2, 0), &["p"]);
    program.place_flow_control("sw", slot(3, 0), FlowControlKind::Switch);
    let mix = program.root_surface.bindings.get(&NodeId::new("mix")).unwrap();
    assert_eq!(mix.inputs.get(&member_in("streams", "z")), Some(&SpatialSide::West));
    assert!(mix.inputs.get(&member_in("streams", "a")).is_none());
    let fork = program.root_surface.bindings.get(&NodeId::new("fork")).unwrap();
    assert_eq!(fork.outputs.get(&member_out("branches", "r")), Some(&SpatialSide::East));

    program.bind_input_side("fresh", main_input(), SpatialSide::South);
    program.bind_output_side("fork", branches_member("l"), SpatialSide::North);
    let fresh = program.root_surface.bindings.get(&NodeId::new("fresh")).unwrap();
    assert_eq!(fresh.inputs.len(), 1);
    assert_eq!(fresh.inputs.get(&socket_in("main")), Some(&SpatialSide::South));
    let fork = program.root_surface.bindings.get(&NodeId::new("fork")).unwrap();
    assert_eq!(fork.outputs.get(&member_out("branches", "l")), Some(&SpatialSide::North));
    assert_eq!(fork.outputs.get(&member_out("branches", "r")), Some(&SpatialSide::East));

    program.add_explicit_relation(RootRelation::ChainedTo {
        from: tessera::domain::relations::StreamSource::node(NodeId::new("mix")),
        to: NodeId::new("fork"),
    });
    assert_eq!(program.root_surface.explicit_relations.len(), 1);
}

#[test]
fn graph_programs_build_by_steps() {
    let mut program = TesseraProgram::empty();
    program.add_sequence("phrase", notes(["a", "b"])).add_output("out").connect("phrase", "out");
    assert_eq!(program.root_nodes.len(), 2);
    assert_eq!(program.containers.get(&ContainerId::new("phrase")).unwrap().stack.len(), 2);
    assert_eq!(program.relations.len(), 1);
    match &program.relations[0] {
        RootRelation::FlowsTo { from, to: StreamTarget::OutputInput { node, endpoint } } => {
            assert_eq!(from.node, NodeId::new("phrase"));
            assert_eq!(node, &NodeId::new("out"));
            assert_eq!(endpoint, &inputs_member("main"));
        },
        other => panic!("unexpected relation {:?}", other),
    }

    let built = TesseraProgramBuilder::new().add_sequence("s", vec![rest()]).add_output("o").connect("s", "o").build();
    assert_eq!(built.root_nodes.len(), 2);
    assert_eq!(built.relations.len(), 1);
}

#[test]
fn port_and_stack_shorthands() {
    assert_eq!(input("x"), socket_in("x"));
    assert_eq!(output("y"), socket_out("y"));
    assert_eq!(input_member("g", "m"), member_in("g", "m"));
    assert_eq!(output_member("g", "m"), member_out("g", "m"));
    assert_eq!(factor_input(), socket_in("factor"));
    assert_eq!(amount_input(), socket_in("amount"));
    assert_eq!(mask_input(), socket_in("mask"));
    assert_eq!(control_input(), socket_in("control"));
    assert_eq!(out_output(), socket_out("out"));
    assert_eq!(streams_member("a"), member_in("streams", "a"));
    assert_eq!(routes_member("left"), member_out("routes", "left"));

    let tiles = StackBuilder::new().push(note("c")).push(nested("inner")).build();
    assert_eq!(tiles.len(), 2);
    assert_eq!(tiles[1], ContainerSurfaceTile::NestedContainer(ContainerId::new("inner")));
    assert_eq!(rest(), ContainerSurfaceTile::Atom(AtomTile::Rest));
    assert_eq!(footprint(2, 3).width, 2);
    assert_eq!(unit_footprint().height, 1);
    assert_eq!(placement(4, 5).slot, BoardSlot::new(4, 5));
    assert_eq!(placement_with_footprint(1, 1, 2, 2).footprint, footprint(2, 2));
}

#[test]
fn sorted_map_keeps_key_order() {
    let mut m: SortedMap<NodeId, i32> = SortedMap::new();
    m.insert(NodeId::new("b"), 2);
    m.insert(NodeId::new("a"), 1);
    m.insert(NodeId::new("b"), 3);
    assert_eq!(m.len(), 2);
    assert_eq!(m.key_at(0), &NodeId::new("a"));
    assert_eq!(m.value_at(1), &3);
    assert_eq!(m.remove(&NodeId::new("a")), Some(1));
    assert!(!m.contains_key(&NodeId::new("a")));
}
