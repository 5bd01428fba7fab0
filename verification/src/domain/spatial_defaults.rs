//! The sides a freshly placed node's endpoints face before anyone turns it.

use vstd::prelude::*;

use super::flow::{
    member_ids, FlowControlKind, FlowControlNode, InputPort, OutputPort, PortGroupId,
    PortMemberId, RootSurfaceNodeKind, TransformKind,
};
use super::relations::{EndpointView, InputEndpoint, OutputEndpoint};
use super::surface::{NodeSpatialBindings, SpatialSide};
use crate::collections::{OrderedKey, SortedMap};

verus! {

/// The endpoint of a named socket.
pub open spec fn socket(name: Seq<char>) -> EndpointView {
    EndpointView::Socket(name)
}

/// Every group member declared in `groups`, as an endpoint.
pub open spec fn member_endpoints(groups: Map<Seq<char>, Vec<PortMemberId>>) -> Set<EndpointView> {
    Set::new(
        |e: EndpointView|
            match e {
                EndpointView::GroupMember(g, m) => groups.contains_key(g) && member_ids(
                    groups[g],
                ).contains(m),
                EndpointView::Socket(_) => false,
            },
    )
}

/// `m` with every endpoint of `extra` that it does not bind yet facing `side`.
pub open spec fn with_defaults(
    m: Map<EndpointView, SpatialSide>,
    extra: Set<EndpointView>,
    side: SpatialSide,
) -> Map<EndpointView, SpatialSide> {
    Map::new(
        |e: EndpointView| m.contains_key(e) || extra.contains(e),
        |e: EndpointView|
            if m.contains_key(e) {
                m[e]
            } else {
                side
            },
    )
}

/// Input sides of a transform of `kind`: main west, its argument north.
pub open spec fn transform_inputs(kind: TransformKind) -> Map<EndpointView, SpatialSide> {
    let base = Map::empty().insert(socket("main"@), SpatialSide::West);
    match kind {
        TransformKind::Slow | TransformKind::Fast => base.insert(socket("factor"@), SpatialSide::North),
        TransformKind::Rev => base,
        _ => base.insert(socket("amount"@), SpatialSide::North),
    }
}

/// The single `out` socket facing east.
pub open spec fn out_east() -> Map<EndpointView, SpatialSide> {
    Map::empty().insert(socket("out"@), SpatialSide::East)
}

/// Input sides of a flow-control node of `kind`, before its group members.
pub open spec fn flow_inputs(kind: FlowControlKind) -> Map<EndpointView, SpatialSide> {
    let none = Map::<EndpointView, SpatialSide>::empty();
    match kind {
        FlowControlKind::Layer | FlowControlKind::Merge => none,
        FlowControlKind::Mix => none.insert(socket("amount"@), SpatialSide::North),
        FlowControlKind::Split => none.insert(socket("main"@), SpatialSide::West),
        FlowControlKind::Mask => none.insert(socket("main"@), SpatialSide::West).insert(
            socket("mask"@),
            SpatialSide::North,
        ),
        FlowControlKind::Switch | FlowControlKind::Choice => none.insert(
            socket("control"@),
            SpatialSide::North,
        ),
        FlowControlKind::Route => none.insert(socket("main"@), SpatialSide::West).insert(
            socket("control"@),
            SpatialSide::North,
        ),
    }
}

/// Output sides of a flow-control node of `kind`, before its group members:
/// `out` east, except for the kinds that only send through groups.
pub open spec fn flow_outputs(kind: FlowControlKind) -> Map<EndpointView, SpatialSide> {
    match kind {
        FlowControlKind::Split | FlowControlKind::Route => Map::empty(),
        _ => out_east(),
    }
}

/// The input sides a node starts with.
pub open spec fn default_inputs(node: RootSurfaceNodeKind) -> Map<EndpointView, SpatialSide> {
    match node {
        RootSurfaceNodeKind::Container { .. } => Map::empty(),
        RootSurfaceNodeKind::Transform(t) => transform_inputs(t.kind),
        RootSurfaceNodeKind::Output(_) => Map::empty().insert(
            EndpointView::GroupMember("inputs"@, "main"@),
            SpatialSide::West,
        ),
        RootSurfaceNodeKind::FlowControl(f) => with_defaults(
            flow_inputs(f.kind),
            member_endpoints(f.members.inputs.as_map()),
            SpatialSide::West,
        ),
    }
}

/// The output sides a node starts with.
pub open spec fn default_outputs(node: RootSurfaceNodeKind) -> Map<EndpointView, SpatialSide> {
    match node {
        RootSurfaceNodeKind::Container { .. } => out_east(),
        RootSurfaceNodeKind::Transform(_) => out_east(),
        RootSurfaceNodeKind::Output(_) => Map::empty(),
        RootSurfaceNodeKind::FlowControl(f) => with_defaults(
            flow_outputs(f.kind),
            member_endpoints(f.members.outputs.as_map()),
            SpatialSide::East,
        ),
    }
}

fn in_socket(name: &str) -> (r: InputEndpoint)
    ensures
        r@ == socket(name@),
{
    InputEndpoint::Socket(InputPort::new(name))
}

fn out_socket(name: &str) -> (r: OutputEndpoint)
    ensures
        r@ == socket(name@),
{
    OutputEndpoint::Socket(OutputPort::new(name))
}

fn container_bindings() -> (r: NodeSpatialBindings)
    ensures
        r.inputs.as_map() == Map::<EndpointView, SpatialSide>::empty(),
        r.outputs.as_map() == out_east(),
{
    let mut b = NodeSpatialBindings::default();
    b.outputs.insert(out_socket("out"), SpatialSide::East);
    proof {
        assert(b.inputs.as_map() =~= Map::<EndpointView, SpatialSide>::empty());
        assert(b.outputs.as_map() =~= out_east());
    }
    b
}

fn output_bindings() -> (r: NodeSpatialBindings)
    ensures
        r.inputs.as_map() == Map::<EndpointView, SpatialSide>::empty().insert(
            EndpointView::GroupMember("inputs"@, "main"@),
            SpatialSide::West,
        ),
        r.outputs.as_map() == Map::<EndpointView, SpatialSide>::empty(),
{
    let mut b = NodeSpatialBindings::default();
    b.inputs.insert(
        InputEndpoint::GroupMember { group: PortGroupId::new("inputs"), member: PortMemberId::new("main") },
        SpatialSide::West,
    );
    proof {
        assert(b.outputs.as_map() =~= Map::<EndpointView, SpatialSide>::empty());
        assert(b.inputs.as_map() =~= Map::<EndpointView, SpatialSide>::empty().insert(
            EndpointView::GroupMember("inputs"@, "main"@),
            SpatialSide::West,
        ));
    }
    b
}

fn transform_bindings(kind: TransformKind) -> (r: NodeSpatialBindings)
    ensures
        r.inputs.as_map() == transform_inputs(kind),
        r.outputs.as_map() == out_east(),
{
    let mut b = NodeSpatialBindings::default();
    b.inputs.insert(in_socket("main"), SpatialSide::West);
    b.outputs.insert(out_socket("out"), SpatialSide::East);
    match kind {
        TransformKind::Slow | TransformKind::Fast => {
            b.inputs.insert(in_socket("factor"), SpatialSide::North);
        },
        TransformKind::Gain | TransformKind::Attack | TransformKind::Transpose | TransformKind::Degrade => {
            b.inputs.insert(in_socket("amount"), SpatialSide::North);
        },
        TransformKind::Rev => {},
    }
    proof {
        assert(b.inputs.as_map() =~= transform_inputs(kind));
        assert(b.outputs.as_map() =~= out_east());
    }
    b
}

fn flow_control_bindings(kind: FlowControlKind) -> (r: NodeSpatialBindings)
    ensures
        r.inputs.as_map() == flow_inputs(kind),
        r.outputs.as_map() == flow_outputs(kind),
{
    let mut b = NodeSpatialBindings::default();
    match kind {
        FlowControlKind::Layer | FlowControlKind::Merge => {
            b.outputs.insert(out_socket("out"), SpatialSide::East);
        },
        FlowControlKind::Mix => {
            b.inputs.insert(in_socket("amount"), SpatialSide::North);
            b.outputs.insert(out_socket("out"), SpatialSide::East);
        },
        FlowControlKind::Split => {
            b.inputs.insert(in_socket("main"), SpatialSide::West);
        },
        FlowControlKind::Mask => {
            b.inputs.insert(in_socket("main"), SpatialSide::West);
            b.inputs.insert(in_socket("mask"), SpatialSide::North);
            b.outputs.insert(out_socket("out"), SpatialSide::East);
        },
        FlowControlKind::Switch => {
            b.inputs.insert(in_socket("control"), SpatialSide::North);
            b.outputs.insert(out_socket("out"), SpatialSide::East);
        },
        FlowControlKind::Route => {
            b.inputs.insert(in_socket("main"), SpatialSide::West);
            b.inputs.insert(in_socket("control"), SpatialSide::North);
        },
        FlowControlKind::Choice => {
            b.inputs.insert(in_socket("control"), SpatialSide::North);
            b.outputs.insert(out_socket("out"), SpatialSide::East);
        },
    }
    proof {
        assert(b.inputs.as_map() =~= flow_inputs(kind));
        assert(b.outputs.as_map() =~= flow_outputs(kind));
    }
    b
}

/// Adding one more default endpoint to what is already filled in.
proof fn lemma_with_defaults_insert(
    m: Map<EndpointView, SpatialSide>,
    s: Set<EndpointView>,
    e: EndpointView,
    side: SpatialSide,
)
    ensures
        (if with_defaults(m, s, side).contains_key(e) {
            with_defaults(m, s, side)
        } else {
            with_defaults(m, s, side).insert(e, side)
        }) == with_defaults(m, s.insert(e), side),
{
    let w = with_defaults(m, s, side);
    if w.contains_key(e) {
        assert(w =~= with_defaults(m, s.insert(e), side));
    } else {
        assert(w.insert(e, side) =~= with_defaults(m, s.insert(e), side));
    }
}

/// Binds every declared input group member that has no side yet to `side`.
fn fill_input_members(
    map: &mut SortedMap<InputEndpoint, SpatialSide>,
    groups: &SortedMap<PortGroupId, Vec<PortMemberId>>,
    side: SpatialSide,
)
    ensures
        final(map).as_map() == with_defaults(old(map).as_map(), member_endpoints(groups.as_map()), side),
{
    let ghost om = map.as_map();
    let ghost mut s: Set<EndpointView> = Set::empty();
    proof {
        assert(om =~= with_defaults(om, s, side));
    }
    let n = groups.len();
    let mut i: usize = 0;
    while i < n
        invariant
            n == groups.key_seq().len(),
            n == groups.value_seq().len(),
            forall|k: int|
                #![trigger groups.key_seq()[k]]
                0 <= k < n ==> groups.as_map().contains_key(groups.key_seq()[k])
                    && groups.as_map()[groups.key_seq()[k]] == groups.value_seq()[k],
            i <= n,
            map.as_map() == with_defaults(om, s, side),
            forall|e: EndpointView| #[trigger] s.contains(e) ==> member_endpoints(groups.as_map()).contains(e),
            forall|a: int, b: int|
                #![trigger member_ids(groups.value_seq()[a])[b]]
                0 <= a < i && 0 <= b < member_ids(groups.value_seq()[a]).len() ==> s.contains(
                    EndpointView::GroupMember(groups.key_seq()[a], member_ids(groups.value_seq()[a])[b]),
                ),
        decreases n - i,
    {
        let group = groups.key_at(i);
        let members = groups.value_at(i);
        let ghost g = groups.key_seq()[i as int];
        let m = members.len();
        let mut j: usize = 0;
        while j < m
            invariant
                n == groups.key_seq().len(),
                n == groups.value_seq().len(),
                forall|k: int|
                    #![trigger groups.key_seq()[k]]
                    0 <= k < n ==> groups.as_map().contains_key(groups.key_seq()[k])
                        && groups.as_map()[groups.key_seq()[k]] == groups.value_seq()[k],
                i < n,
                group@ == g,
                g == groups.key_seq()[i as int],
                *members == groups.value_seq()[i as int],
                m == members@.len(),
                j <= m,
                map.as_map() == with_defaults(om, s, side),
                forall|e: EndpointView| #[trigger] s.contains(e) ==> member_endpoints(groups.as_map()).contains(e),
                forall|a: int, b: int|
                    #![trigger member_ids(groups.value_seq()[a])[b]]
                    0 <= a < i && 0 <= b < member_ids(groups.value_seq()[a]).len() ==> s.contains(
                        EndpointView::GroupMember(groups.key_seq()[a], member_ids(groups.value_seq()[a])[b]),
                    ),
                forall|b: int|
                    #![trigger member_ids(groups.value_seq()[i as int])[b]]
                    0 <= b < j ==> s.contains(
                        EndpointView::GroupMember(g, member_ids(groups.value_seq()[i as int])[b]),
                    ),
            decreases m - j,
        {
            let e = InputEndpoint::GroupMember { group: group.clone_key(), member: members[j].clone() };
            proof {
                let ids = member_ids(groups.value_seq()[i as int]);
                assert(ids[j as int] == members@[j as int]@);
                assert(ids.contains(members@[j as int]@));
                assert(member_endpoints(groups.as_map()).contains(e@));
                lemma_with_defaults_insert(om, s, e@, side);
            }
            map.insert_if_absent(e, side);
            proof {
                s = s.insert(e@);
            }
            j = j + 1;
        }
        i = i + 1;
    }
    let _ = groups.len();
    proof {
        assert forall|e: EndpointView| member_endpoints(groups.as_map()).contains(e) implies #[trigger] s.contains(e) by {
            if let EndpointView::GroupMember(g, mm) = e {
                let a = choose|a: int| 0 <= a < groups.key_seq().len() && groups.key_seq()[a] == g;
                let ids = member_ids(groups.value_seq()[a]);
                let b = choose|b: int| 0 <= b < ids.len() && ids[b] == mm;
                assert(s.contains(EndpointView::GroupMember(groups.key_seq()[a], ids[b])));
            }
        }
        assert(s =~= member_endpoints(groups.as_map()));
    }
}

/// Binds every declared output group member that has no side yet to `side`.
fn fill_output_members(
    map: &mut SortedMap<OutputEndpoint, SpatialSide>,
    groups: &SortedMap<PortGroupId, Vec<PortMemberId>>,
    side: SpatialSide,
)
    ensures
        final(map).as_map() == with_defaults(old(map).as_map(), member_endpoints(groups.as_map()), side),
{
    let ghost om = map.as_map();
    let ghost mut s: Set<EndpointView> = Set::empty();
    proof {
        assert(om =~= with_defaults(om, s, side));
    }
    let n = groups.len();
    let mut i: usize = 0;
    while i < n
        invariant
            n == groups.key_seq().len(),
            n == groups.value_seq().len(),
            forall|k: int|
                #![trigger groups.key_seq()[k]]
                0 <= k < n ==> groups.as_map().contains_key(groups.key_seq()[k])
                    && groups.as_map()[groups.key_seq()[k]] == groups.value_seq()[k],
            i <= n,
            map.as_map() == with_defaults(om, s, side),
            forall|e: EndpointView| #[trigger] s.contains(e) ==> member_endpoints(groups.as_map()).contains(e),
            forall|a: int, b: int|
                #![trigger member_ids(groups.value_seq()[a])[b]]
                0 <= a < i && 0 <= b < member_ids(groups.value_seq()[a]).len() ==> s.contains(
                    EndpointView::GroupMember(groups.key_seq()[a], member_ids(groups.value_seq()[a])[b]),
                ),
        decreases n - i,
    {
        let group = groups.key_at(i);
        let members = groups.value_at(i);
        let ghost g = groups.key_seq()[i as int];
        let m = members.len();
        let mut j: usize = 0;
        while j < m
            invariant
                n == groups.key_seq().len(),
                n == groups.value_seq().len(),
                forall|k: int|
                    #![trigger groups.key_seq()[k]]
                    0 <= k < n ==> groups.as_map().contains_key(groups.key_seq()[k])
                        && groups.as_map()[groups.key_seq()[k]] == groups.value_seq()[k],
                i < n,
                group@ == g,
                g == groups.key_seq()[i as int],
                *members == groups.value_seq()[i as int],
                m == members@.len(),
                j <= m,
                map.as_map() == with_defaults(om, s, side),
                forall|e: EndpointView| #[trigger] s.contains(e) ==> member_endpoints(groups.as_map()).contains(e),
                forall|a: int, b: int|
                    #![trigger member_ids(groups.value_seq()[a])[b]]
                    0 <= a < i && 0 <= b < member_ids(groups.value_seq()[a]).len() ==> s.contains(
                        EndpointView::GroupMember(groups.key_seq()[a], member_ids(groups.value_seq()[a])[b]),
                    ),
                forall|b: int|
                    #![trigger member_ids(groups.value_seq()[i as int])[b]]
                    0 <= b < j ==> s.contains(
                        EndpointView::GroupMember(g, member_ids(groups.value_seq()[i as int])[b]),
                    ),
            decreases m - j,
        {
            let e = OutputEndpoint::GroupMember { group: group.clone_key(), member: members[j].clone() };
            proof {
                let ids = member_ids(groups.value_seq()[i as int]);
                assert(ids[j as int] == members@[j as int]@);
                assert(ids.contains(members@[j as int]@));
                assert(member_endpoints(groups.as_map()).contains(e@));
                lemma_with_defaults_insert(om, s, e@, side);
            }
            map.insert_if_absent(e, side);
            proof {
                s = s.insert(e@);
            }
            j = j + 1;
        }
        i = i + 1;
    }
    let _ = groups.len();
    proof {
        assert forall|e: EndpointView| member_endpoints(groups.as_map()).contains(e) implies #[trigger] s.contains(e) by {
            if let EndpointView::GroupMember(g, mm) = e {
                let a = choose|a: int| 0 <= a < groups.key_seq().len() && groups.key_seq()[a] == g;
                let ids = member_ids(groups.value_seq()[a]);
                let b = choose|b: int| 0 <= b < ids.len() && ids[b] == mm;
                assert(s.contains(EndpointView::GroupMember(groups.key_seq()[a], ids[b])));
            }
        }
        assert(s =~= member_endpoints(groups.as_map()));
    }
}

/// Gives every declared group member of `node` that has no side yet its
/// default: inputs west, outputs east. Sides already bound stay.
pub fn apply_flow_member_default_bindings(node: &FlowControlNode, bindings: &mut NodeSpatialBindings)
    ensures
        final(bindings).inputs.as_map() == with_defaults(
            old(bindings).inputs.as_map(),
            member_endpoints(node.members.inputs.as_map()),
            SpatialSide::West,
        ),
        final(bindings).outputs.as_map() == with_defaults(
            old(bindings).outputs.as_map(),
            member_endpoints(node.members.outputs.as_map()),
            SpatialSide::East,
        ),
{
    fill_input_members(&mut bindings.inputs, &node.members.inputs, SpatialSide::West);
    fill_output_members(&mut bindings.outputs, &node.members.outputs, SpatialSide::East);
}

/// The sides a node of this kind starts with.
pub fn default_spatial_bindings(node: &RootSurfaceNodeKind) -> (r: NodeSpatialBindings)
    ensures
        r.inputs.as_map() == default_inputs(*node),
        r.outputs.as_map() == default_outputs(*node),
{
    match node {
        RootSurfaceNodeKind::Container { .. } => container_bindings(),
        RootSurfaceNodeKind::Transform(t) => transform_bindings(t.kind),
        RootSurfaceNodeKind::Output(_) => output_bindings(),
        RootSurfaceNodeKind::FlowControl(f) => {
            let mut b = flow_control_bindings(f.kind);
            apply_flow_member_default_bindings(f, &mut b);
            b
        },
    }
}

/// Filling in member defaults a second time changes nothing: the members
/// bound by the first pass keep the side it gave them.
pub proof fn lemma_member_defaults_idempotent(
    m: Map<EndpointView, SpatialSide>,
    extra: Set<EndpointView>,
    side: SpatialSide,
)
    ensures
        with_defaults(with_defaults(m, extra, side), extra, side) == with_defaults(m, extra, side),
{
    assert(with_defaults(with_defaults(m, extra, side), extra, side) =~= with_defaults(m, extra, side));
}

} // verus!
