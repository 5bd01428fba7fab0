//! Endpoints of root relations and the relations between root nodes.

use vstd::prelude::*;

use super::flow::{InputPort, OutputPort, PortGroupId, PortMemberId};
use super::program::NodeId;
use crate::collections::OrderedKey;
use crate::text::{
    compare_str, lemma_seq_lt_irreflexive, lemma_seq_lt_total, lemma_seq_lt_transitive, owned,
    seq_lt,
};

verus! {

/// An input of a node: a named socket or a member of a port group.
#[derive(Debug, Clone, PartialEq, Eq, PartialOrd, Ord, Hash)]
pub enum InputEndpoint {
    Socket(InputPort),
    GroupMember { group: PortGroupId, member: PortMemberId },
}

/// An output of a node: a named socket or a member of a port group.
#[derive(Debug, Clone, PartialEq, Eq, PartialOrd, Ord, Hash)]
pub enum OutputEndpoint {
    Socket(OutputPort),
    GroupMember { group: PortGroupId, member: PortMemberId },
}

/// An endpoint by the names it is made of.
pub enum EndpointView {
    Socket(Seq<char>),
    GroupMember(Seq<char>, Seq<char>),
}

impl View for InputEndpoint {
    type V = EndpointView;

    open spec fn view(&self) -> EndpointView {
        match self {
            InputEndpoint::Socket(p) => EndpointView::Socket(p@),
            InputEndpoint::GroupMember { group, member } => EndpointView::GroupMember(
                group@,
                member@,
            ),
        }
    }
}

impl View for OutputEndpoint {
    type V = EndpointView;

    open spec fn view(&self) -> EndpointView {
        match self {
            OutputEndpoint::Socket(p) => EndpointView::Socket(p@),
            OutputEndpoint::GroupMember { group, member } => EndpointView::GroupMember(
                group@,
                member@,
            ),
        }
    }
}

/// Endpoint order: sockets before group members; sockets by name; members by
/// group, then member name (the order `derive(Ord)` gives).
pub open spec fn endpoint_lt(a: EndpointView, b: EndpointView) -> bool {
    match (a, b) {
        (EndpointView::Socket(x), EndpointView::Socket(y)) => seq_lt(x, y),
        (EndpointView::Socket(_), EndpointView::GroupMember(_, _)) => true,
        (EndpointView::GroupMember(_, _), EndpointView::Socket(_)) => false,
        (EndpointView::GroupMember(g1, m1), EndpointView::GroupMember(g2, m2)) => seq_lt(g1, g2)
            || (g1 == g2 && seq_lt(m1, m2)),
    }
}

proof fn lemma_endpoint_lt_irreflexive(a: EndpointView)
    ensures
        !endpoint_lt(a, a),
{
    match a {
        EndpointView::Socket(x) => lemma_seq_lt_irreflexive(x),
        EndpointView::GroupMember(g, m) => {
            lemma_seq_lt_irreflexive(g);
            lemma_seq_lt_irreflexive(m);
        },
    }
}

proof fn lemma_endpoint_lt_transitive(a: EndpointView, b: EndpointView, c: EndpointView)
    requires
        endpoint_lt(a, b),
        endpoint_lt(b, c),
    ensures
        endpoint_lt(a, c),
{
    match (a, b, c) {
        (EndpointView::Socket(x), EndpointView::Socket(y), EndpointView::Socket(z)) => {
            lemma_seq_lt_transitive(x, y, z);
        },
        (
            EndpointView::GroupMember(g1, m1),
            EndpointView::GroupMember(g2, m2),
            EndpointView::GroupMember(g3, m3),
        ) => {
            if seq_lt(g1, g2) && seq_lt(g2, g3) {
                lemma_seq_lt_transitive(g1, g2, g3);
            }
            if g1 == g2 && g2 == g3 {
                lemma_seq_lt_irreflexive(g1);
                lemma_seq_lt_transitive(m1, m2, m3);
            }
        },
        _ => {},
    }
}

proof fn lemma_endpoint_lt_total(a: EndpointView, b: EndpointView)
    ensures
        a == b || endpoint_lt(a, b) || endpoint_lt(b, a),
{
    match (a, b) {
        (EndpointView::Socket(x), EndpointView::Socket(y)) => lemma_seq_lt_total(x, y),
        (EndpointView::GroupMember(g1, m1), EndpointView::GroupMember(g2, m2)) => {
            lemma_seq_lt_total(g1, g2);
            lemma_seq_lt_total(m1, m2);
        },
        _ => {},
    }
}

/// Three-way comparison of two endpoints given by their names.
fn compare_endpoint_names(
    a_socket: Option<&str>,
    a_group: &str,
    a_member: &str,
    b_socket: Option<&str>,
    b_group: &str,
    b_member: &str,
) -> (r: i8)
    ensures
        ({
            let va = match a_socket {
                Some(s) => EndpointView::Socket(s@),
                None => EndpointView::GroupMember(a_group@, a_member@),
            };
            let vb = match b_socket {
                Some(s) => EndpointView::Socket(s@),
                None => EndpointView::GroupMember(b_group@, b_member@),
            };
            &&& (r == 0) == (va == vb)
            &&& (r < 0) == endpoint_lt(va, vb)
            &&& (r > 0) == endpoint_lt(vb, va)
        }),
{
    match (a_socket, b_socket) {
        (Some(x), Some(y)) => compare_str(x, y),
        (Some(_), None) => -1,
        (None, Some(_)) => 1,
        (None, None) => {
            let c = compare_str(a_group, b_group);
            if c != 0 {
                proof {
                    lemma_seq_lt_irreflexive(a_group@);
                }
                c
            } else {
                compare_str(a_member, b_member)
            }
        },
    }
}

impl OrderedKey for InputEndpoint {
    open spec fn key_lt(a: EndpointView, b: EndpointView) -> bool {
        endpoint_lt(a, b)
    }

    proof fn lemma_key_lt_irreflexive(a: EndpointView) {
        lemma_endpoint_lt_irreflexive(a);
    }

    proof fn lemma_key_lt_transitive(a: EndpointView, b: EndpointView, c: EndpointView) {
        lemma_endpoint_lt_transitive(a, b, c);
    }

    proof fn lemma_key_lt_total(a: EndpointView, b: EndpointView) {
        lemma_endpoint_lt_total(a, b);
    }

    fn compare_key(&self, other: &Self) -> (r: i8) {
        let (a_socket, a_group, a_member) = match self {
            InputEndpoint::Socket(p) => (Some(p.0.as_str()), "", ""),
            InputEndpoint::GroupMember { group, member } => (
                None,
                group.0.as_str(),
                member.0.as_str(),
            ),
        };
        let (b_socket, b_group, b_member) = match other {
            InputEndpoint::Socket(p) => (Some(p.0.as_str()), "", ""),
            InputEndpoint::GroupMember { group, member } => (
                None,
                group.0.as_str(),
                member.0.as_str(),
            ),
        };
        compare_endpoint_names(a_socket, a_group, a_member, b_socket, b_group, b_member)
    }

    fn clone_key(&self) -> (r: Self) {
        match self {
            InputEndpoint::Socket(p) => InputEndpoint::Socket(p.clone()),
            InputEndpoint::GroupMember { group, member } => InputEndpoint::GroupMember {
                group: group.clone(),
                member: member.clone(),
            },
        }
    }
}

impl OrderedKey for OutputEndpoint {
    open spec fn key_lt(a: EndpointView, b: EndpointView) -> bool {
        endpoint_lt(a, b)
    }

    proof fn lemma_key_lt_irreflexive(a: EndpointView) {
        lemma_endpoint_lt_irreflexive(a);
    }

    proof fn lemma_key_lt_transitive(a: EndpointView, b: EndpointView, c: EndpointView) {
        lemma_endpoint_lt_transitive(a, b, c);
    }

    proof fn lemma_key_lt_total(a: EndpointView, b: EndpointView) {
        lemma_endpoint_lt_total(a, b);
    }

    fn compare_key(&self, other: &Self) -> (r: i8) {
        let (a_socket, a_group, a_member) = match self {
            OutputEndpoint::Socket(p) => (Some(p.0.as_str()), "", ""),
            OutputEndpoint::GroupMember { group, member } => (
                None,
                group.0.as_str(),
                member.0.as_str(),
            ),
        };
        let (b_socket, b_group, b_member) = match other {
            OutputEndpoint::Socket(p) => (Some(p.0.as_str()), "", ""),
            OutputEndpoint::GroupMember { group, member } => (
                None,
                group.0.as_str(),
                member.0.as_str(),
            ),
        };
        compare_endpoint_names(a_socket, a_group, a_member, b_socket, b_group, b_member)
    }

    fn clone_key(&self) -> (r: Self) {
        match self {
            OutputEndpoint::Socket(p) => OutputEndpoint::Socket(p.clone()),
            OutputEndpoint::GroupMember { group, member } => OutputEndpoint::GroupMember {
                group: group.clone(),
                member: member.clone(),
            },
        }
    }
}

/// Where a stream comes from: an output endpoint of a node.
#[derive(Debug, Clone, PartialEq, Eq, PartialOrd, Ord, Hash)]
pub struct StreamSource {
    pub node: NodeId,
    pub endpoint: OutputEndpoint,
}

impl StreamSource {
    /// The output socket `port` of `node`.
    pub fn socket(node: NodeId, port: &str) -> (r: Self)
        ensures
            r.node == node,
            r.endpoint@ == EndpointView::Socket(port@),
    {
        StreamSource { node, endpoint: OutputEndpoint::Socket(OutputPort(owned(port))) }
    }

    /// The `out` socket of `node`.
    pub fn node(node: NodeId) -> (r: Self)
        ensures
            r.node == node,
            r.endpoint@ == EndpointView::Socket("out"@),
    {
        Self::socket(node, "out")
    }
}

/// Where a stream goes: an input endpoint of an output, transform or flow-control node.
#[derive(Debug, Clone, PartialEq, Eq)]
pub enum StreamTarget {
    OutputInput { node: NodeId, endpoint: InputEndpoint },
    TransformInput { node: NodeId, endpoint: InputEndpoint },
    FlowControlInput { node: NodeId, endpoint: InputEndpoint },
}

/// A relation between root nodes.
#[derive(Debug, Clone, PartialEq, Eq)]
pub enum RootRelation {
    ChainedTo { from: StreamSource, to: NodeId },
    FlowsTo { from: StreamSource, to: StreamTarget },
}

} // verus!
