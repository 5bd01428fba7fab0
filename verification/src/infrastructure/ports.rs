//! Short names for the endpoints that programs are wired with.

use vstd::prelude::*;

use crate::domain::flow::{InputPort, OutputPort, PortGroupId, PortMemberId};
use crate::domain::relations::{EndpointView, InputEndpoint, OutputEndpoint};

verus! {

/// The input socket `port`.
pub fn input(port: &str) -> (r: InputEndpoint)
    ensures
        r@ == EndpointView::Socket(port@),
{
    InputEndpoint::Socket(InputPort::new(port))
}

/// The output socket `port`.
pub fn output(port: &str) -> (r: OutputEndpoint)
    ensures
        r@ == EndpointView::Socket(port@),
{
    OutputEndpoint::Socket(OutputPort::new(port))
}

/// Member `member` of the input group `group`.
pub fn input_member(group: &str, member: &str) -> (r: InputEndpoint)
    ensures
        r@ == EndpointView::GroupMember(group@, member@),
{
    InputEndpoint::GroupMember { group: PortGroupId::new(group), member: PortMemberId::new(member) }
}

/// Member `member` of the output group `group`.
pub fn output_member(group: &str, member: &str) -> (r: OutputEndpoint)
    ensures
        r@ == EndpointView::GroupMember(group@, member@),
{
    OutputEndpoint::GroupMember { group: PortGroupId::new(group), member: PortMemberId::new(member) }
}

/// The `main` input socket.
pub fn main_input() -> (r: InputEndpoint)
    ensures
        r@ == EndpointView::Socket("main"@),
{
    input("main")
}

/// The `factor` input socket.
pub fn factor_input() -> (r: InputEndpoint)
    ensures
        r@ == EndpointView::Socket("factor"@),
{
    input("factor")
}

/// The `amount` input socket.
pub fn amount_input() -> (r: InputEndpoint)
    ensures
        r@ == EndpointView::Socket("amount"@),
{
    input("amount")
}

/// The `mask` input socket.
pub fn mask_input() -> (r: InputEndpoint)
    ensures
        r@ == EndpointView::Socket("mask"@),
{
    input("mask")
}

/// The `control` input socket.
pub fn control_input() -> (r: InputEndpoint)
    ensures
        r@ == EndpointView::Socket("control"@),
{
    input("control")
}

/// The `out` output socket.
pub fn out_output() -> (r: OutputEndpoint)
    ensures
        r@ == EndpointView::Socket("out"@),
{
    output("out")
}

/// Member `member` of the `inputs` group.
pub fn inputs_member(member: &str) -> (r: InputEndpoint)
    ensures
        r@ == EndpointView::GroupMember("inputs"@, member@),
{
    input_member("inputs", member)
}

/// Member `member` of the `streams` group.
pub fn streams_member(member: &str) -> (r: InputEndpoint)
    ensures
        r@ == EndpointView::GroupMember("streams"@, member@),
{
    input_member("streams", member)
}

/// Member `member` of the `branches` group.
pub fn branches_member(member: &str) -> (r: OutputEndpoint)
    ensures
        r@ == EndpointView::GroupMember("branches"@, member@),
{
    output_member("branches", member)
}

/// Member `member` of the `routes` group.
pub fn routes_member(member: &str) -> (r: OutputEndpoint)
    ensures
        r@ == EndpointView::GroupMember("routes"@, member@),
{
    output_member("routes", member)
}

} // verus!
