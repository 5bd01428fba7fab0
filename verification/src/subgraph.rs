//! Subgraphs: the boundary pieces that mark a subgraph's inputs and output,
//! and the analysis that reads a subgraph's signature off its graph.

use vstd::prelude::*;

use crate::diagnostics::{edge_error_view, error_view, Diagnostic, DiagnosticKind, DiagnosticView, KindView};
use crate::graph::{push_diag, views, Graph, Node};
use crate::internal::{find_param, first_param};
use crate::json::{json_as_bool, json_as_str, json_flag, json_text};
use crate::piece::{
    schema_domain, schema_kind, ParamDef, ParamInlineMode, ParamSchema, ParamTextSemantics, ParamValueKind, PieceDef,
};
use crate::piece_registry::PieceRegistry;
use crate::text::{owned, str_eq, Name};
use crate::types::{spec_connects, ExecutionDomain, GridPos, PieceCategory, PieceSemanticKind, PortRole, PortType, TileSide};

verus! {

/// The piece standing for a subgraph's first input.
pub const SUBGRAPH_INPUT_1_ID: &'static str = "tessera.subgraph_input_1";

/// The piece standing for a subgraph's second input.
pub const SUBGRAPH_INPUT_2_ID: &'static str = "tessera.subgraph_input_2";

/// The piece standing for a subgraph's third input.
pub const SUBGRAPH_INPUT_3_ID: &'static str = "tessera.subgraph_input_3";

/// The piece standing for a subgraph's output.
pub const SUBGRAPH_OUTPUT_ID: &'static str = "tessera.subgraph_output";

/// A stored definition of a reusable subgraph.
#[derive(Debug)]
pub struct SubgraphDef {
    pub id: String,
    pub name: String,
    pub graph: Graph,
}

/// One declared input of a subgraph, by the views of its parts.
pub struct SubgraphInputView {
    pub slot: u8,
    pub pos: GridPos,
    pub label: Seq<char>,
    pub port_type: (Seq<char>, Option<ExecutionDomain>),
    pub required: bool,
    pub is_receiver: bool,
    pub default_value: Option<serde_json::Value>,
}

/// One declared input of a subgraph.
#[derive(Debug, PartialEq, Eq)]
pub struct SubgraphInput {
    /// The input slot the boundary piece exposes (1 to 3).
    pub slot: u8,
    /// Where the boundary piece stands.
    pub pos: GridPos,
    /// The label shown to callers.
    pub label: String,
    /// The port type the boundary declares.
    pub port_type: PortType,
    /// Whether callers must supply a value.
    pub required: bool,
    /// Whether this input is the receiver.
    pub is_receiver: bool,
    /// A default value handed to the host.
    pub default_value: Option<serde_json::Value>,
}

impl View for SubgraphInput {
    type V = SubgraphInputView;

    open spec fn view(&self) -> SubgraphInputView {
        SubgraphInputView {
            slot: self.slot,
            pos: self.pos,
            label: self.label@,
            port_type: self.port_type@,
            required: self.required,
            is_receiver: self.is_receiver,
            default_value: self.default_value,
        }
    }
}

impl Clone for SubgraphInput {
    fn clone(&self) -> (r: Self)
        ensures
            r@ == self@,
    {
        SubgraphInput {
            slot: self.slot,
            pos: self.pos,
            label: self.label.clone(),
            port_type: self.port_type.clone(),
            required: self.required,
            is_receiver: self.is_receiver,
            default_value: match &self.default_value {
                Some(v) => Some(v.clone()),
                None => None,
            },
        }
    }
}

/// A subgraph's signature by the views of its parts.
pub struct SubgraphSignatureView {
    pub inputs: Seq<SubgraphInputView>,
    pub output_pos: GridPos,
}

/// What a subgraph offers its callers: its inputs in slot order and where
/// its output stands.
#[derive(Debug, PartialEq, Eq)]
pub struct SubgraphSignature {
    pub inputs: Vec<SubgraphInput>,
    pub output_pos: GridPos,
}

/// The views of a sequence of inputs.
pub open spec fn input_views(s: Seq<SubgraphInput>) -> Seq<SubgraphInputView> {
    s.map_values(|x: SubgraphInput| x@)
}

impl View for SubgraphSignature {
    type V = SubgraphSignatureView;

    open spec fn view(&self) -> SubgraphSignatureView {
        SubgraphSignatureView { inputs: input_views(self.inputs@), output_pos: self.output_pos }
    }
}

// ---------------------------------------------------------------------------
// Reading a boundary node
// ---------------------------------------------------------------------------

/// The piece id marks a subgraph input.
pub open spec fn is_input_id(id: Seq<char>) -> bool {
    id == SUBGRAPH_INPUT_1_ID@ || id == SUBGRAPH_INPUT_2_ID@ || id == SUBGRAPH_INPUT_3_ID@
}

/// The slot an input piece id names: the number after its last underscore.
pub open spec fn spec_slot(id: Seq<char>) -> u8 {
    if id == SUBGRAPH_INPUT_1_ID@ {
        1
    } else if id == SUBGRAPH_INPUT_2_ID@ {
        2
    } else if id == SUBGRAPH_INPUT_3_ID@ {
        3
    } else {
        1
    }
}

/// The label of an input without one of its own: `input` and its slot.
pub open spec fn default_label(slot: u8) -> Seq<char> {
    if slot == 2 {
        "input 2"@
    } else if slot == 3 {
        "input 3"@
    } else {
        "input 1"@
    }
}

/// The text of the inline value `key` of `n`, where it is a JSON string.
pub open spec fn param_text(n: Node, key: Seq<char>) -> Option<Seq<char>> {
    if n.inline_params.as_map().contains_key(key) {
        json_text(n.inline_params.as_map()[key])
    } else {
        None
    }
}

/// The flag of the inline value `key` of `n`, where it is a JSON boolean.
pub open spec fn param_flag(n: Node, key: Seq<char>) -> Option<bool> {
    if n.inline_params.as_map().contains_key(key) {
        json_flag(n.inline_params.as_map()[key])
    } else {
        None
    }
}

/// The domain a boundary declares: `audio`, `event`, none for
/// `unspecified`, and the control domain otherwise.
pub open spec fn spec_boundary_domain(n: Node) -> Option<ExecutionDomain> {
    match param_text(n, "domain"@) {
        Some(t) => if t == "audio"@ {
            Some(ExecutionDomain::Audio)
        } else if t == "event"@ {
            Some(ExecutionDomain::Event)
        } else if t == "unspecified"@ {
            None
        } else {
            Some(ExecutionDomain::Control)
        },
        None => Some(ExecutionDomain::Control),
    }
}

/// The port type a boundary declares: its `port_type` text (`any` without
/// one) in its declared domain.
pub open spec fn spec_boundary_port_type(n: Node) -> (Seq<char>, Option<ExecutionDomain>) {
    (
        match param_text(n, "port_type"@) {
            Some(t) => t,
            None => "any"@,
        },
        spec_boundary_domain(n),
    )
}

/// The input that the input piece `n` at `p` declares.
pub open spec fn spec_input(p: GridPos, n: Node) -> SubgraphInputView {
    let slot = spec_slot(n.piece_id@);
    SubgraphInputView {
        slot,
        pos: p,
        label: match param_text(n, "label"@) {
            Some(t) => t,
            None => default_label(slot),
        },
        port_type: spec_boundary_port_type(n),
        required: match param_flag(n, "required"@) {
            Some(b) => b,
            None => true,
        },
        is_receiver: match param_flag(n, "is_receiver"@) {
            Some(b) => b,
            None => false,
        },
        default_value: if n.inline_params.as_map().contains_key("default_value"@) {
            Some(n.inline_params.as_map()["default_value"@])
        } else {
            None
        },
    }
}

/// The inputs declared by the first `k` nodes, in cell order.
pub open spec fn spec_inputs_upto(g: Graph, k: int) -> Seq<SubgraphInputView>
    decreases k,
{
    if k <= 0 {
        Seq::empty()
    } else {
        let prev = spec_inputs_upto(g, k - 1);
        let n = g.nodes.value_seq()[k - 1];
        if is_input_id(n.piece_id@) {
            prev.push(spec_input(g.nodes.key_seq()[k - 1], n))
        } else {
            prev
        }
    }
}

/// The cells of output pieces among the first `k` nodes, in cell order.
pub open spec fn spec_outputs_upto(g: Graph, k: int) -> Seq<GridPos>
    decreases k,
{
    if k <= 0 {
        Seq::empty()
    } else {
        let prev = spec_outputs_upto(g, k - 1);
        let n = g.nodes.value_seq()[k - 1];
        if is_input_id(n.piece_id@) {
            prev
        } else if n.piece_id@ == SUBGRAPH_OUTPUT_ID@ {
            prev.push(g.nodes.key_seq()[k - 1])
        } else {
            prev
        }
    }
}

/// The inputs the graph declares, in cell order.
pub open spec fn spec_inputs(g: Graph) -> Seq<SubgraphInputView> {
    spec_inputs_upto(g, g.nodes.key_seq().len() as int)
}

/// The cells of the graph's output pieces, in cell order.
pub open spec fn spec_outputs(g: Graph) -> Seq<GridPos> {
    spec_outputs_upto(g, g.nodes.key_seq().len() as int)
}

// ---------------------------------------------------------------------------
// The checks
// ---------------------------------------------------------------------------

/// An invalid-operation error.
pub open spec fn invalid(reason: Seq<char>, site: Option<GridPos>) -> DiagnosticView {
    error_view(KindView::InvalidOperation { reason }, site)
}

/// At most three inputs: the fourth one is reported.
pub open spec fn too_many_errors(ins: Seq<SubgraphInputView>) -> Seq<DiagnosticView> {
    if ins.len() > 3 {
        seq![invalid("subgraph may declare at most 3 inputs"@, Some(ins[3].pos))]
    } else {
        Seq::empty()
    }
}

/// The message for a slot declared twice.
pub open spec fn duplicate_slot_message(slot: u8) -> Seq<char> {
    if slot == 2 {
        "duplicate subgraph input slot 2"@
    } else if slot == 3 {
        "duplicate subgraph input slot 3"@
    } else {
        "duplicate subgraph input slot 1"@
    }
}

/// An earlier input has the slot of input `i`.
pub open spec fn slot_seen(ins: Seq<SubgraphInputView>, i: int) -> bool {
    exists|j: int| 0 <= j < i && #[trigger] ins[j].slot == ins[i].slot
}

/// One error for each of the first `k` inputs whose slot an earlier input has.
pub open spec fn duplicate_errors(ins: Seq<SubgraphInputView>, k: int) -> Seq<DiagnosticView>
    decreases k,
{
    if k <= 0 {
        Seq::empty()
    } else {
        let prev = duplicate_errors(ins, k - 1);
        if slot_seen(ins, k - 1) {
            prev.push(invalid(duplicate_slot_message(ins[k - 1].slot), Some(ins[k - 1].pos)))
        } else {
            prev
        }
    }
}

/// Exactly one output: without one the error has no cell, with more the
/// second is reported.
pub open spec fn output_errors(outs: Seq<GridPos>) -> Seq<DiagnosticView> {
    if outs.len() == 0 {
        seq![invalid("subgraph requires exactly one output"@, None)]
    } else if outs.len() > 1 {
        seq![invalid("subgraph requires exactly one output"@, Some(outs[1]))]
    } else {
        Seq::empty()
    }
}

/// The cells of the receivers among the first `k` inputs.
pub open spec fn receivers_upto(ins: Seq<SubgraphInputView>, k: int) -> Seq<GridPos>
    decreases k,
{
    if k <= 0 {
        Seq::empty()
    } else {
        let prev = receivers_upto(ins, k - 1);
        if ins[k - 1].is_receiver {
            prev.push(ins[k - 1].pos)
        } else {
            prev
        }
    }
}

/// At most one receiver: the first receiver is reported.
pub open spec fn receiver_errors(ins: Seq<SubgraphInputView>) -> Seq<DiagnosticView> {
    let rs = receivers_upto(ins, ins.len() as int);
    if rs.len() > 1 {
        seq![invalid("subgraph may declare at most one receiver input"@, Some(rs[0]))]
    } else {
        Seq::empty()
    }
}

/// The error for an edge leaving input `inp` whose target parameter does
/// not accept the input's type; edges to a missing node, an unknown piece or
/// an unknown parameter are left alone.
pub open spec fn edge_type_error(g: Graph, reg: PieceRegistry, inp: SubgraphInputView, e: crate::graph::Edge) -> Option<
    DiagnosticView,
> {
    if !g.nodes.as_map().contains_key(e.to_node) {
        None
    } else {
        let n = g.nodes.as_map()[e.to_node];
        if !reg.defs().contains_key(n.piece_id@) {
            None
        } else {
            let d = reg.defs()[n.piece_id@];
            match first_param(d, e.to_param@) {
                None => None,
                Some(j) => {
                    let s = d.params@[j].schema;
                    if spec_connects(schema_kind(s), schema_domain(s), inp.port_type.0, inp.port_type.1) {
                        None
                    } else {
                        Some(
                            edge_error_view(
                                KindView::TypeMismatch {
                                    expected: (schema_kind(s), schema_domain(s)),
                                    got: inp.port_type,
                                    param: e.to_param@,
                                },
                                Some(e.to_node),
                                e.id@,
                            ),
                        )
                    }
                },
            }
        }
    }
}

/// The type errors of the first `m` edges (in id order) that leave `inp`.
pub open spec fn edge_errors_upto(g: Graph, reg: PieceRegistry, inp: SubgraphInputView, m: int) -> Seq<
    DiagnosticView,
>
    decreases m,
{
    if m <= 0 {
        Seq::empty()
    } else {
        let prev = edge_errors_upto(g, reg, inp, m - 1);
        let e = g.edges.value_seq()[m - 1];
        if e.from == inp.pos {
            match edge_type_error(g, reg, inp, e) {
                Some(d) => prev.push(d),
                None => prev,
            }
        } else {
            prev
        }
    }
}

/// The type errors of the edges leaving the first `k` inputs, input by input.
pub open spec fn type_errors_upto(g: Graph, reg: PieceRegistry, ins: Seq<SubgraphInputView>, k: int) -> Seq<
    DiagnosticView,
>
    decreases k,
{
    if k <= 0 {
        Seq::empty()
    } else {
        type_errors_upto(g, reg, ins, k - 1) + edge_errors_upto(
            g,
            reg,
            ins[k - 1],
            g.edges.value_seq().len() as int,
        )
    }
}

/// Everything wrong with a subgraph's boundary, in the order it is reported:
/// too many inputs, slots declared twice, the output count, receivers, and
/// edges from inputs into parameters that do not accept them.
pub open spec fn spec_subgraph_errors(g: Graph, reg: PieceRegistry) -> Seq<DiagnosticView> {
    let ins = spec_inputs(g);
    too_many_errors(ins) + duplicate_errors(ins, ins.len() as int) + output_errors(spec_outputs(g)) + receiver_errors(ins)
        + type_errors_upto(g, reg, ins, ins.len() as int)
}

/// The subgraph's boundary has nothing wrong.
pub open spec fn subgraph_ok(g: Graph, reg: PieceRegistry) -> bool {
    spec_subgraph_errors(g, reg).len() == 0
}

/// The first `k` inputs with slot `slot`, in their order.
pub open spec fn with_slot_upto(ins: Seq<SubgraphInputView>, slot: u8, k: int) -> Seq<SubgraphInputView>
    decreases k,
{
    if k <= 0 {
        Seq::empty()
    } else {
        let prev = with_slot_upto(ins, slot, k - 1);
        if ins[k - 1].slot == slot {
            prev.push(ins[k - 1])
        } else {
            prev
        }
    }
}

/// The inputs ordered by slot, inputs of one slot keeping their order (a
/// stable sort, since every slot is 1, 2 or 3).
pub open spec fn by_slot(ins: Seq<SubgraphInputView>) -> Seq<SubgraphInputView> {
    let n = ins.len() as int;
    with_slot_upto(ins, 1, n) + with_slot_upto(ins, 2, n) + with_slot_upto(ins, 3, n)
}

/// The signature of a subgraph whose boundary has nothing wrong.
pub open spec fn spec_subgraph_signature(g: Graph) -> SubgraphSignatureView {
    SubgraphSignatureView { inputs: by_slot(spec_inputs(g)), output_pos: spec_outputs(g)[0] }
}

// ---------------------------------------------------------------------------
// The analysis
// ---------------------------------------------------------------------------

/// The text of the inline value `key` of `n`, where it is a JSON string.
fn inline_text(n: &Node, key: &str) -> (r: Option<String>)
    ensures
        match r {
            Some(t) => param_text(*n, key@) == Some(t@),
            None => param_text(*n, key@) is None,
        },
{
    match n.inline_params.get(&Name::new(key)) {
        Some(v) => json_as_str(v),
        None => None,
    }
}

/// The flag of the inline value `key` of `n`, where it is a JSON boolean.
fn inline_flag(n: &Node, key: &str) -> (r: Option<bool>)
    ensures
        r == param_flag(*n, key@),
{
    match n.inline_params.get(&Name::new(key)) {
        Some(v) => json_as_bool(v),
        None => None,
    }
}

/// The slot an input piece id names.
fn slot_of(id: &str) -> (r: u8)
    ensures
        r == spec_slot(id@),
{
    if str_eq(id, SUBGRAPH_INPUT_1_ID) {
        1
    } else if str_eq(id, SUBGRAPH_INPUT_2_ID) {
        2
    } else if str_eq(id, SUBGRAPH_INPUT_3_ID) {
        3
    } else {
        1
    }
}

/// The port type the boundary node `n` declares.
fn boundary_port_type(n: &Node) -> (r: PortType)
    ensures
        r@ == spec_boundary_port_type(*n),
{
    let kind = match inline_text(n, "port_type") {
        Some(t) => t,
        None => owned("any"),
    };
    let base = PortType::new(kind.as_str());
    match inline_text(n, "domain") {
        Some(t) => {
            if str_eq(t.as_str(), "audio") {
                base.with_domain(ExecutionDomain::Audio)
            } else if str_eq(t.as_str(), "event") {
                base.with_domain(ExecutionDomain::Event)
            } else if str_eq(t.as_str(), "unspecified") {
                base.with_unspecified_domain()
            } else {
                base.with_domain(ExecutionDomain::Control)
            }
        },
        None => base.with_domain(ExecutionDomain::Control),
    }
}

/// The input that the input piece `n` at `p` declares.
fn input_of(p: GridPos, n: &Node) -> (r: SubgraphInput)
    ensures
        r@ == spec_input(p, *n),
{
    let slot = slot_of(n.piece_id.as_str());
    let label = match inline_text(n, "label") {
        Some(t) => t,
        None => if slot == 2 {
            owned("input 2")
        } else if slot == 3 {
            owned("input 3")
        } else {
            owned("input 1")
        },
    };
    let port_type = boundary_port_type(n);
    let required = match inline_flag(n, "required") {
        Some(b) => b,
        None => true,
    };
    let is_receiver = match inline_flag(n, "is_receiver") {
        Some(b) => b,
        None => false,
    };
    let default_value = match n.inline_params.get(&Name::new("default_value")) {
        Some(v) => Some(v.clone()),
        None => None,
    };
    SubgraphInput { slot, pos: p, label, port_type, required, is_receiver, default_value }
}

/// The graph's inputs and the cells of its output pieces, in cell order.
fn collect_boundary(g: &Graph) -> (r: (Vec<SubgraphInput>, Vec<GridPos>))
    ensures
        input_views(r.0@) == spec_inputs(*g),
        r.1@ == spec_outputs(*g),
{
    let n = g.nodes.len();
    let mut inputs: Vec<SubgraphInput> = Vec::new();
    let mut outputs: Vec<GridPos> = Vec::new();
    let mut i: usize = 0;
    while i < n
        invariant
            n == g.nodes.key_seq().len(),
            n == g.nodes.value_seq().len(),
            i <= n,
            input_views(inputs@) == spec_inputs_upto(*g, i as int),
            outputs@ == spec_outputs_upto(*g, i as int),
        decreases n - i,
    {
        let p = *g.nodes.key_at(i);
        let node = g.nodes.value_at(i);
        let id = node.piece_id.as_str();
        if str_eq(id, SUBGRAPH_INPUT_1_ID) || str_eq(id, SUBGRAPH_INPUT_2_ID) || str_eq(id, SUBGRAPH_INPUT_3_ID) {
            let inp = input_of(p, node);
            inputs.push(inp);
            proof {
                assert(input_views(inputs@) =~= spec_inputs_upto(*g, i as int).push(inp@));
            }
        } else if str_eq(id, SUBGRAPH_OUTPUT_ID) {
            outputs.push(p);
        }
        i = i + 1;
    }
    (inputs, outputs)
}

/// Reports each input whose slot an earlier input has.
fn report_duplicate_slots(ins: &Vec<SubgraphInput>, out: &mut Vec<Diagnostic>)
    requires
        forall|k: int| 0 <= k < ins@.len() ==> 1 <= #[trigger] ins@[k].slot <= 3,
    ensures
        views(final(out)@) == views(old(out)@) + duplicate_errors(input_views(ins@), ins@.len() as int),
{
    let ghost iv = input_views(ins@);
    let mut seen1 = false;
    let mut seen2 = false;
    let mut seen3 = false;
    let mut i: usize = 0;
    while i < ins.len()
        invariant
            iv == input_views(ins@),
            i <= ins@.len(),
            forall|k: int| 0 <= k < ins@.len() ==> 1 <= #[trigger] ins@[k].slot <= 3,
            seen1 == (exists|j: int| 0 <= j < i && #[trigger] iv[j].slot == 1),
            seen2 == (exists|j: int| 0 <= j < i && #[trigger] iv[j].slot == 2),
            seen3 == (exists|j: int| 0 <= j < i && #[trigger] iv[j].slot == 3),
            views(out@) == views(old(out)@) + duplicate_errors(iv, i as int),
        decreases ins@.len() - i,
    {
        let slot = ins[i].slot;
        let pos = ins[i].pos;
        let seen = if slot == 1 {
            seen1
        } else if slot == 2 {
            seen2
        } else {
            seen3
        };
        proof {
            assert(iv[i as int].slot == slot);
            if seen {
                let j = choose|j: int| 0 <= j < i && #[trigger] iv[j].slot == slot;
                assert(slot_seen(iv, i as int));
            } else {
                assert forall|j: int| 0 <= j < i implies #[trigger] iv[j].slot != iv[i as int].slot by {
                    if iv[j].slot == slot {
                        assert(1 <= iv[j].slot <= 3);
                    }
                }
                assert(!slot_seen(iv, i as int));
            }
        }
        if seen {
            let reason = if slot == 2 {
                owned("duplicate subgraph input slot 2")
            } else if slot == 3 {
                owned("duplicate subgraph input slot 3")
            } else {
                owned("duplicate subgraph input slot 1")
            };
            push_diag(out, Diagnostic::error(DiagnosticKind::InvalidOperation { reason }, Some(pos)));
        }
        if slot == 1 {
            seen1 = true;
        } else if slot == 2 {
            seen2 = true;
        } else {
            seen3 = true;
        }
        proof {
            let ii = i as int;
            assert(seen1 == (exists|j: int| 0 <= j < ii + 1 && #[trigger] iv[j].slot == 1)) by {
                if iv[ii].slot == 1 {
                    assert(iv[ii].slot == 1);
                }
            }
            assert(seen2 == (exists|j: int| 0 <= j < ii + 1 && #[trigger] iv[j].slot == 2)) by {
                if iv[ii].slot == 2 {
                    assert(iv[ii].slot == 2);
                }
            }
            assert(seen3 == (exists|j: int| 0 <= j < ii + 1 && #[trigger] iv[j].slot == 3)) by {
                if iv[ii].slot == 3 {
                    assert(iv[ii].slot == 3);
                }
            }
        }
        i = i + 1;
    }
}

/// The cells of the receivers among the inputs, in their order.
fn receiver_cells(ins: &Vec<SubgraphInput>) -> (r: Vec<GridPos>)
    ensures
        r@ == receivers_upto(input_views(ins@), ins@.len() as int),
{
    let ghost iv = input_views(ins@);
    let mut r: Vec<GridPos> = Vec::new();
    let mut i: usize = 0;
    while i < ins.len()
        invariant
            iv == input_views(ins@),
            i <= ins@.len(),
            r@ == receivers_upto(iv, i as int),
        decreases ins@.len() - i,
    {
        if ins[i].is_receiver {
            r.push(ins[i].pos);
        }
        i = i + 1;
    }
    r
}

/// Reports the edges leaving `inp` whose target parameter does not accept
/// the input's type.
fn report_edge_types(g: &Graph, reg: &PieceRegistry, inp: &SubgraphInput, out: &mut Vec<Diagnostic>)
    ensures
        views(final(out)@) == views(old(out)@) + edge_errors_upto(
            *g,
            *reg,
            inp@,
            g.edges.value_seq().len() as int,
        ),
{
    let m = g.edges.len();
    let mut k: usize = 0;
    while k < m
        invariant
            m == g.edges.key_seq().len(),
            m == g.edges.value_seq().len(),
            k <= m,
            views(out@) == views(old(out)@) + edge_errors_upto(*g, *reg, inp@, k as int),
        decreases m - k,
    {
        let e = g.edges.value_at(k);
        let ghost before = views(out@);
        if e.from == inp.pos {
            match g.nodes.get(&e.to_node) {
                Some(target) => match reg.get(target.piece_id.as_str()) {
                    Some(def) => match find_param(def, e.to_param.as_str()) {
                        Some(param) => {
                            if !param.schema.accepts(&inp.port_type) {
                                let d = Diagnostic::error(
                                    DiagnosticKind::TypeMismatch {
                                        expected: param.schema.expected_port_type(),
                                        got: inp.port_type.clone(),
                                        param: e.to_param.clone(),
                                    },
                                    Some(e.to_node),
                                ).with_edge(e.id);
                                push_diag(out, d);
                            }
                        },
                        None => {},
                    },
                    None => {},
                },
                None => {},
            }
        }
        proof {
            let kk = k as int;
            assert(edge_errors_upto(*g, *reg, inp@, kk + 1) == {
                let prev = edge_errors_upto(*g, *reg, inp@, kk);
                let ee = g.edges.value_seq()[kk];
                if ee.from == inp@.pos {
                    match edge_type_error(*g, *reg, inp@, ee) {
                        Some(d) => prev.push(d),
                        None => prev,
                    }
                } else {
                    prev
                }
            });
            assert(views(out@) =~= views(old(out)@) + edge_errors_upto(*g, *reg, inp@, kk + 1));
        }
        k = k + 1;
    }
}

/// Reports the type errors of the edges leaving each input, input by input.
fn report_types(g: &Graph, reg: &PieceRegistry, ins: &Vec<SubgraphInput>, out: &mut Vec<Diagnostic>)
    ensures
        views(final(out)@) == views(old(out)@) + type_errors_upto(*g, *reg, input_views(ins@), ins@.len() as int),
{
    let ghost iv = input_views(ins@);
    let mut i: usize = 0;
    while i < ins.len()
        invariant
            iv == input_views(ins@),
            i <= ins@.len(),
            views(out@) == views(old(out)@) + type_errors_upto(*g, *reg, iv, i as int),
        decreases ins@.len() - i,
    {
        let ghost before = views(out@);
        report_edge_types(g, reg, &ins[i], out);
        proof {
            assert(iv[i as int] == ins@[i as int]@);
            assert(views(out@) =~= views(old(out)@) + type_errors_upto(*g, *reg, iv, i + 1));
        }
        i = i + 1;
    }
}

/// The inputs ordered by slot, those of one slot keeping their order.
fn sort_by_slot(ins: &Vec<SubgraphInput>) -> (r: Vec<SubgraphInput>)
    ensures
        input_views(r@) == by_slot(input_views(ins@)),
{
    let ghost iv = input_views(ins@);
    let ghost n = ins@.len() as int;
    let mut r: Vec<SubgraphInput> = Vec::new();
    let mut slot: u8 = 1;
    while slot <= 3
        invariant
            iv == input_views(ins@),
            n == ins@.len(),
            1 <= slot <= 4,
            input_views(r@) == (if slot == 1 {
                Seq::empty()
            } else if slot == 2 {
                with_slot_upto(iv, 1, n)
            } else if slot == 3 {
                with_slot_upto(iv, 1, n) + with_slot_upto(iv, 2, n)
            } else {
                by_slot(iv)
            }),
        decreases 4 - slot,
    {
        let ghost start = input_views(r@);
        let mut i: usize = 0;
        while i < ins.len()
            invariant
                iv == input_views(ins@),
                n == ins@.len(),
                1 <= slot <= 3,
                i <= ins@.len(),
                input_views(r@) == start + with_slot_upto(iv, slot, i as int),
            decreases ins@.len() - i,
        {
            if ins[i].slot == slot {
                let x = ins[i].clone();
                let ghost old_r = r@;
                r.push(x);
                proof {
                    assert(x@ == iv[i as int]);
                    assert(input_views(r@) =~= input_views(old_r).push(x@));
                    assert(input_views(r@) =~= start + with_slot_upto(iv, slot, i as int).push(x@));
                }
            }
            i = i + 1;
        }
        slot = slot + 1;
    }
    r
}

/// Every input the first `k` nodes declare has slot 1, 2 or 3.
proof fn lemma_input_slots(g: Graph, k: int)
    ensures
        forall|i: int| 0 <= i < spec_inputs_upto(g, k).len() ==> 1 <= #[trigger] spec_inputs_upto(g, k)[i].slot <= 3,
    decreases k,
{
    if k > 0 {
        lemma_input_slots(g, k - 1);
    }
}

/// Analyses a subgraph: its signature, with the inputs in slot order, when
/// its boundary has nothing wrong, else every error found.
pub fn analyze_subgraph(graph: &Graph, registry: &PieceRegistry) -> (r: Result<SubgraphSignature, Vec<Diagnostic>>)
    ensures
        match r {
            Ok(sig) => subgraph_ok(*graph, *registry) && sig@ == spec_subgraph_signature(*graph),
            Err(ds) => !subgraph_ok(*graph, *registry) && views(ds@) == spec_subgraph_errors(*graph, *registry),
        },
{
    let (inputs, outputs) = collect_boundary(graph);
    let ghost iv = input_views(inputs@);
    let ghost ins = spec_inputs(*graph);
    let mut diagnostics: Vec<Diagnostic> = Vec::new();
    proof {
        lemma_input_slots(*graph, graph.nodes.key_seq().len() as int);
        let len = graph.nodes.key_seq().len() as int;
        assert forall|k: int| 0 <= k < inputs@.len() implies 1 <= #[trigger] inputs@[k].slot <= 3 by {
            assert(iv[k] == inputs@[k]@);
            assert(iv[k] == spec_inputs_upto(*graph, len)[k]);
            assert(0 <= k < spec_inputs_upto(*graph, len).len());
            assert(1 <= spec_inputs_upto(*graph, len)[k].slot <= 3);
        }
        assert(views(diagnostics@) =~= Seq::<DiagnosticView>::empty());
    }
    if inputs.len() > 3 {
        let site = inputs[3].pos;
        push_diag(
            &mut diagnostics,
            Diagnostic::error(
                DiagnosticKind::InvalidOperation { reason: owned("subgraph may declare at most 3 inputs") },
                Some(site),
            ),
        );
    }
    proof {
        assert(views(diagnostics@) =~= too_many_errors(ins));
    }
    report_duplicate_slots(&inputs, &mut diagnostics);
    if outputs.len() == 0 {
        push_diag(
            &mut diagnostics,
            Diagnostic::error(
                DiagnosticKind::InvalidOperation { reason: owned("subgraph requires exactly one output") },
                None,
            ),
        );
    } else if outputs.len() > 1 {
        let site = outputs[1];
        push_diag(
            &mut diagnostics,
            Diagnostic::error(
                DiagnosticKind::InvalidOperation { reason: owned("subgraph requires exactly one output") },
                Some(site),
            ),
        );
    }
    proof {
        assert(views(diagnostics@) =~= too_many_errors(ins) + duplicate_errors(ins, ins.len() as int) + output_errors(
            spec_outputs(*graph),
        ));
    }
    let receivers = receiver_cells(&inputs);
    if receivers.len() > 1 {
        let site = receivers[0];
        push_diag(
            &mut diagnostics,
            Diagnostic::error(
                DiagnosticKind::InvalidOperation { reason: owned("subgraph may declare at most one receiver input") },
                Some(site),
            ),
        );
    }
    proof {
        assert(views(diagnostics@) =~= too_many_errors(ins) + duplicate_errors(ins, ins.len() as int) + output_errors(
            spec_outputs(*graph),
        ) + receiver_errors(ins));
    }
    report_types(graph, registry, &inputs, &mut diagnostics);
    proof {
        assert(views(diagnostics@) =~= spec_subgraph_errors(*graph, *registry));
    }
    if diagnostics.len() > 0 {
        return Err(diagnostics);
    }
    let sorted = sort_by_slot(&inputs);
    proof {
        assert(output_errors(spec_outputs(*graph)).len() == 0);
    }
    let output_pos = outputs[0];
    Ok(SubgraphSignature { inputs: sorted, output_pos })
}

// ---------------------------------------------------------------------------
// Boundary pieces
// ---------------------------------------------------------------------------

/// A parameter with these id and label that sits at the bottom, is neither
/// required nor variadic, reads its text plainly and plays a value.
pub open spec fn bottom_param(p: ParamDef, id: Seq<char>, label: Seq<char>) -> bool {
    &&& p.id@ == id
    &&& p.label@ == label
    &&& p.side == TileSide::BOTTOM
    &&& p.text_semantics@ == "plain"@
    &&& p.variadic_group is None
    &&& !p.required
    &&& p.role == PortRole::Value
}

/// The piece id of input slot `slot` (slot 1 for a slot out of range).
pub open spec fn input_piece_id(slot: u8) -> Seq<char> {
    if slot == 2 {
        SUBGRAPH_INPUT_2_ID@
    } else if slot == 3 {
        SUBGRAPH_INPUT_3_ID@
    } else {
        SUBGRAPH_INPUT_1_ID@
    }
}

/// The definition of the boundary piece of input slot `slot`: a trick named
/// `arg` and the slot, with inline parameters for the label, port type,
/// domain, whether it is required or the receiver, and a default value, and
/// an output of any type on the right.
pub open spec fn input_piece_def(d: PieceDef, slot: u8) -> bool {
    let ps = d.params@;
    &&& d.id@ == input_piece_id(slot)
    &&& d.label@ == "arg"@ + crate::text::decimal(slot as int)
    &&& d.category == PieceCategory::Trick
    &&& d.semantic_kind == PieceSemanticKind::Trick
    &&& d.namespace@ == "core"@
    &&& ps.len() == 6
    &&& bottom_param(ps[0], "label"@, "label"@)
    &&& ps[0].schema matches ParamSchema::Text { default, can_inline } && default@ == "input "@ + crate::text::decimal(
        slot as int,
    ) && can_inline
    &&& bottom_param(ps[1], "port_type"@, "type"@)
    &&& ps[1].schema matches ParamSchema::Text { default, can_inline } && default@ == "any"@ && can_inline
    &&& bottom_param(ps[2], "domain"@, "domain"@)
    &&& ps[2].schema matches ParamSchema::Enum { options, default, can_inline } && options@.map_values(
        |o: String| o@,
    ) == seq!["control"@, "audio"@, "event"@, "unspecified"@] && default@ == "control"@ && can_inline
    &&& bottom_param(ps[3], "required"@, "required"@)
    &&& ps[3].schema == (ParamSchema::Bool { default: true, can_inline: true })
    &&& bottom_param(ps[4], "is_receiver"@, "receiver"@)
    &&& ps[4].schema == (ParamSchema::Bool { default: false, can_inline: true })
    &&& bottom_param(ps[5], "default_value"@, "default"@)
    &&& ps[5].schema matches ParamSchema::Custom { port_type, value_kind, default, can_inline, inline_mode } && default is None && port_type@ == (
        "any"@,
        None::<ExecutionDomain>,
    ) && value_kind == ParamValueKind::Json && can_inline && inline_mode == ParamInlineMode::Literal
    &&& d.output_type matches Some(t) && t@ == ("any"@, None::<ExecutionDomain>)
    &&& d.output_side == Some(TileSide::RIGHT)
    &&& d.output_role == PortRole::Value
    &&& d.description matches Some(t) && t@
        == "Subgraph boundary input. Configure its metadata via inline params."@
    &&& d.tags@.map_values(|t: String| t@) == seq!["subgraph"@, "boundary"@]
}

/// The boundary piece for one of a subgraph's inputs.
pub struct SubgraphInputPiece {
    def: PieceDef,
    slot: u8,
}

/// A parameter at the bottom with the given id, label and schema.
fn bottom(id: &str, label: &str, schema: ParamSchema) -> (r: ParamDef)
    ensures
        bottom_param(r, id@, label@),
        r.schema == schema,
{
    ParamDef {
        id: owned(id),
        label: owned(label),
        side: TileSide::BOTTOM,
        schema,
        text_semantics: ParamTextSemantics::plain(),
        variadic_group: None,
        required: false,
        role: PortRole::Value,
    }
}

/// An ASCII letter or digit, `_` or `$`: a character an identifier keeps.
pub open spec fn ident_keeps(c: char) -> bool {
    ('a' <= c <= 'z') || ('A' <= c <= 'Z') || ('0' <= c <= '9') || c == '_' || c == '$'
}

/// Sanitising the first `k` characters of `t`: a kept character stays (a
/// digit at the very start gets `_` before it); a space, `-` or `.` becomes
/// `_` unless the text so far ends with one; anything else is dropped.
pub open spec fn sanitized_upto(t: Seq<char>, k: int) -> Seq<char>
    decreases k,
{
    if k <= 0 {
        Seq::empty()
    } else {
        let prev = sanitized_upto(t, k - 1);
        let c = t[k - 1];
        if ident_keeps(c) {
            (if k - 1 == 0 && crate::text::is_digit(c) {
                prev.push('_')
            } else {
                prev
            }).push(c)
        } else if (c == ' ' || c == '-' || c == '.') && !(prev.len() > 0 && prev.last() == '_') {
            prev.push('_')
        } else {
            prev
        }
    }
}

/// A label as an identifier: trimmed, sanitised character by character, and
/// without leading or trailing `_`.
pub open spec fn spec_sanitize(label: Seq<char>) -> Seq<char> {
    let t = crate::text::trim_seq(label);
    crate::text::strip_seq(sanitized_upto(t, t.len() as int), '_')
}

/// The name an input parameter gets: its sanitised label, or `arg` and the
/// slot when nothing of the label is left.
pub open spec fn spec_param_name(label: Seq<char>, slot: u8) -> Seq<char> {
    let s = spec_sanitize(label);
    if s.len() == 0 {
        "arg"@ + crate::text::decimal(slot as int)
    } else {
        s
    }
}

fn keeps_char(c: char) -> (r: bool)
    ensures
        r == ident_keeps(c),
{
    ('a' <= c && c <= 'z') || ('A' <= c && c <= 'Z') || ('0' <= c && c <= '9') || c == '_' || c == '$'
}

fn sanitize_identifier(value: &str) -> (r: String)
    ensures
        r@ == spec_sanitize(value@),
{
    let chars = crate::text::chars_of(value);
    let t = crate::text::trim_chars(&chars);
    let mut out: Vec<char> = Vec::new();
    let mut i: usize = 0;
    while i < t.len()
        invariant
            i <= t@.len(),
            out@ == sanitized_upto(t@, i as int),
        decreases t@.len() - i,
    {
        let c = t[i];
        if keeps_char(c) {
            if i == 0 && '0' <= c && c <= '9' {
                out.push('_');
            }
            out.push(c);
        } else if (c == ' ' || c == '-' || c == '.') && !(out.len() > 0 && out[out.len() - 1] == '_') {
            out.push('_');
        }
        i = i + 1;
    }
    let stripped = crate::text::strip_chars(&out, '_');
    crate::text::string_of_chars(stripped.as_slice())
}

impl SubgraphInput {
    /// The label sanitised into an identifier, or `arg` and the slot when
    /// nothing of it is left.
    pub fn param_name(&self) -> (r: String)
        ensures
            r@ == spec_param_name(self.label@, self.slot),
    {
        let sanitized = sanitize_identifier(self.label.as_str());
        if sanitized.as_str().unicode_len() == 0 {
            with_number("arg", self.slot)
        } else {
            sanitized
        }
    }
}

/// `prefix` followed by `v` in decimal.
fn with_number(prefix: &str, v: u8) -> (r: String)
    ensures
        r@ == prefix@ + crate::text::decimal(v as int),
{
    let mut buf: Vec<char> = Vec::new();
    crate::text::append_str(&mut buf, prefix);
    crate::text::append_decimal(&mut buf, v as i64);
    proof {
        assert(buf@ =~= prefix@ + crate::text::decimal(v as int));
    }
    crate::text::string_of_chars(buf.as_slice())
}

/// The tags of the boundary pieces.
fn boundary_tags() -> (r: Vec<String>)
    ensures
        r@.map_values(|t: String| t@) == seq!["subgraph"@, "boundary"@],
{
    let mut r: Vec<String> = Vec::new();
    r.push(owned("subgraph"));
    r.push(owned("boundary"));
    proof {
        assert(r@.map_values(|t: String| t@) =~= seq!["subgraph"@, "boundary"@]);
    }
    r
}

/// The domains a boundary can declare.
fn domain_options() -> (r: Vec<String>)
    ensures
        r@.map_values(|o: String| o@) == seq!["control"@, "audio"@, "event"@, "unspecified"@],
{
    let mut r: Vec<String> = Vec::new();
    r.push(owned("control"));
    r.push(owned("audio"));
    r.push(owned("event"));
    r.push(owned("unspecified"));
    proof {
        assert(r@.map_values(|o: String| o@) =~= seq!["control"@, "audio"@, "event"@, "unspecified"@]);
    }
    r
}

impl SubgraphInputPiece {
    /// The piece's definition.
    pub closed spec fn spec_def(self) -> PieceDef {
        self.def
    }

    /// The slot the piece stands for.
    pub closed spec fn spec_slot(self) -> u8 {
        self.slot
    }

    /// The boundary piece of input slot `slot`; a slot other than 1 to 3
    /// takes the first input's piece id.
    pub fn new(slot: u8) -> (r: Self)
        ensures
            input_piece_def(r.spec_def(), slot),
            r.spec_slot() == slot,
    {
        let id = if slot == 2 {
            SUBGRAPH_INPUT_2_ID
        } else if slot == 3 {
            SUBGRAPH_INPUT_3_ID
        } else {
            SUBGRAPH_INPUT_1_ID
        };
        let options = domain_options();
        let params = vec![
            bottom("label", "label", ParamSchema::Text { default: with_number("input ", slot), can_inline: true }),
            bottom("port_type", "type", ParamSchema::Text { default: owned("any"), can_inline: true }),
            bottom(
                "domain",
                "domain",
                ParamSchema::Enum { options, default: owned("control"), can_inline: true },
            ),
            bottom("required", "required", ParamSchema::Bool { default: true, can_inline: true }),
            bottom("is_receiver", "receiver", ParamSchema::Bool { default: false, can_inline: true }),
            bottom(
                "default_value",
                "default",
                ParamSchema::Custom {
                    port_type: PortType::any().with_unspecified_domain(),
                    value_kind: ParamValueKind::Json,
                    default: None,
                    can_inline: true,
                    inline_mode: ParamInlineMode::Literal,
                },
            ),
        ];
        let tags = boundary_tags();
        let def = PieceDef {
            id: owned(id),
            label: with_number("arg", slot),
            category: PieceCategory::Trick,
            semantic_kind: PieceSemanticKind::Trick,
            namespace: owned("core"),
            params,
            output_type: Some(PortType::any().with_unspecified_domain()),
            output_side: Some(TileSide::RIGHT),
            output_role: PortRole::Value,
            description: Some(owned("Subgraph boundary input. Configure its metadata via inline params.")),
            tags,
        };
        proof {
            let ps = def.params@;
            assert(ps.len() == 6);
            assert(bottom_param(ps[0], "label"@, "label"@));
            assert(bottom_param(ps[2], "domain"@, "domain"@));
            assert(bottom_param(ps[5], "default_value"@, "default"@));
            assert(def.id@ == input_piece_id(slot));
        }
        SubgraphInputPiece { def, slot }
    }

    /// The piece's definition.
    pub fn def(&self) -> (r: &PieceDef)
        ensures
            *r == self.spec_def(),
    {
        &self.def
    }

    /// The slot the piece stands for.
    pub fn slot(&self) -> (r: u8)
        ensures
            r == self.spec_slot(),
    {
        self.slot
    }
}

/// The definition of the boundary piece of a subgraph's output: an output
/// piece named `return` with one required input on the left that takes any
/// value and cannot be inlined, and no output of its own.
pub open spec fn output_piece_def(d: PieceDef) -> bool {
    let ps = d.params@;
    &&& d.id@ == SUBGRAPH_OUTPUT_ID@
    &&& d.label@ == "return"@
    &&& d.category == PieceCategory::Output
    &&& d.semantic_kind == PieceSemanticKind::Output
    &&& d.namespace@ == "core"@
    &&& ps.len() == 1
    &&& ps[0].id@ == "input"@
    &&& ps[0].label@ == "input"@
    &&& ps[0].side == TileSide::LEFT
    &&& ps[0].text_semantics@ == "plain"@
    &&& ps[0].variadic_group is None
    &&& ps[0].required
    &&& ps[0].role == PortRole::Value
    &&& ps[0].schema matches ParamSchema::Custom { port_type, value_kind, default, can_inline, inline_mode } && default is None && port_type@ == (
        "any"@,
        None::<ExecutionDomain>,
    ) && value_kind == ParamValueKind::NoValue && !can_inline && inline_mode == ParamInlineMode::Literal
    &&& d.output_type is None
    &&& d.output_side is None
    &&& d.output_role == PortRole::Value
    &&& d.description matches Some(t) && t@
        == "Subgraph boundary output. Connect the value this subgraph should emit."@
    &&& d.tags@.map_values(|t: String| t@) == seq!["subgraph"@, "boundary"@]
}

/// The boundary piece for a subgraph's output.
pub struct SubgraphOutputPiece {
    def: PieceDef,
}

impl SubgraphOutputPiece {
    /// The piece's definition.
    pub closed spec fn spec_def(self) -> PieceDef {
        self.def
    }

    pub fn new() -> (r: Self)
        ensures
            output_piece_def(r.spec_def()),
    {
        let params = vec![
            ParamDef {
                id: owned("input"),
                label: owned("input"),
                side: TileSide::LEFT,
                schema: ParamSchema::Custom {
                    port_type: PortType::any().with_unspecified_domain(),
                    value_kind: ParamValueKind::NoValue,
                    default: None,
                    can_inline: false,
                    inline_mode: ParamInlineMode::Literal,
                },
                text_semantics: ParamTextSemantics::plain(),
                variadic_group: None,
                required: true,
                role: PortRole::Value,
            },
        ];
        let tags = boundary_tags();
        let def = PieceDef {
            id: owned(SUBGRAPH_OUTPUT_ID),
            label: owned("return"),
            category: PieceCategory::Output,
            semantic_kind: PieceSemanticKind::Output,
            namespace: owned("core"),
            params,
            output_type: None,
            output_side: None,
            output_role: PortRole::Value,
            description: Some(
                owned("Subgraph boundary output. Connect the value this subgraph should emit."),
            ),
            tags,
        };
        SubgraphOutputPiece { def }
    }

    /// The piece's definition.
    pub fn def(&self) -> (r: &PieceDef)
        ensures
            *r == self.spec_def(),
    {
        &self.def
    }
}


proof fn lemma_edge_errors_empty(g: Graph, reg: PieceRegistry, inp: SubgraphInputView, m: int)
    requires
        0 <= m <= g.edges.value_seq().len(),
        edge_errors_upto(g, reg, inp, m).len() == 0,
    ensures
        forall|x: int|
            0 <= x < m && (#[trigger] g.edges.value_seq()[x]).from == inp.pos ==> edge_type_error(
                g,
                reg,
                inp,
                g.edges.value_seq()[x],
            ) is None,
    decreases m,
{
    if m > 0 {
        let prev = edge_errors_upto(g, reg, inp, m - 1);
        let e = g.edges.value_seq()[m - 1];
        if e.from == inp.pos && edge_type_error(g, reg, inp, e) is Some {
            assert(edge_errors_upto(g, reg, inp, m).len() == prev.len() + 1);
        }
        lemma_edge_errors_empty(g, reg, inp, m - 1);
    }
}

proof fn lemma_type_errors_empty(g: Graph, reg: PieceRegistry, ins: Seq<SubgraphInputView>, k: int)
    requires
        0 <= k <= ins.len(),
        type_errors_upto(g, reg, ins, k).len() == 0,
    ensures
        forall|i: int|
            0 <= i < k ==> (#[trigger] edge_errors_upto(g, reg, ins[i], g.edges.value_seq().len() as int)).len() == 0,
    decreases k,
{
    if k > 0 {
        let prev = type_errors_upto(g, reg, ins, k - 1);
        let last = edge_errors_upto(g, reg, ins[k - 1], g.edges.value_seq().len() as int);
        assert(type_errors_upto(g, reg, ins, k).len() == prev.len() + last.len());
        lemma_type_errors_empty(g, reg, ins, k - 1);
    }
}

/// When the analysis finds nothing wrong with a subgraph, every edge that
/// leaves any of its inputs into a known parameter of a registered piece
/// carries the input's port type into a parameter whose schema accepts it.
pub proof fn lemma_ok_subgraph_edges_type_check(g: Graph, reg: PieceRegistry)
    requires
        subgraph_ok(g, reg),
    ensures
        forall|i: int, x: int|
            #![trigger spec_inputs(g)[i], g.edges.value_seq()[x]]
            0 <= i < spec_inputs(g).len() && 0 <= x < g.edges.value_seq().len() && g.edges.value_seq()[x].from
                == spec_inputs(g)[i].pos && g.nodes.as_map().contains_key(g.edges.value_seq()[x].to_node)
                && reg.defs().contains_key(g.nodes.as_map()[g.edges.value_seq()[x].to_node].piece_id@) && first_param(
                reg.defs()[g.nodes.as_map()[g.edges.value_seq()[x].to_node].piece_id@],
                g.edges.value_seq()[x].to_param@,
            ) is Some ==> ({
                let d = reg.defs()[g.nodes.as_map()[g.edges.value_seq()[x].to_node].piece_id@];
                let sch = d.params@[first_param(d, g.edges.value_seq()[x].to_param@)->Some_0].schema;
                spec_connects(schema_kind(sch), schema_domain(sch), spec_inputs(g)[i].port_type.0, spec_inputs(g)[i].port_type.1)
            }),
{
    let ins = spec_inputs(g);
    let all = spec_subgraph_errors(g, reg);
    let te = type_errors_upto(g, reg, ins, ins.len() as int);
    assert(all.len() == (too_many_errors(ins) + duplicate_errors(ins, ins.len() as int) + output_errors(spec_outputs(g))
        + receiver_errors(ins)).len() + te.len());
    lemma_type_errors_empty(g, reg, ins, ins.len() as int);
    assert forall|i: int, x: int|
        #![trigger spec_inputs(g)[i], g.edges.value_seq()[x]]
        0 <= i < spec_inputs(g).len() && 0 <= x < g.edges.value_seq().len() && g.edges.value_seq()[x].from
            == spec_inputs(g)[i].pos implies edge_type_error(g, reg, ins[i], g.edges.value_seq()[x]) is None by {
        assert(edge_errors_upto(g, reg, ins[i], g.edges.value_seq().len() as int).len() == 0);
        lemma_edge_errors_empty(g, reg, ins[i], g.edges.value_seq().len() as int);
    }
}


proof fn lemma_receivers_grow(ins: Seq<SubgraphInputView>, a: int, b: int)
    requires
        0 <= a <= b <= ins.len(),
    ensures
        receivers_upto(ins, a).len() <= receivers_upto(ins, b).len(),
    decreases b - a,
{
    if a < b {
        lemma_receivers_grow(ins, a, b - 1);
    }
}

proof fn lemma_no_duplicates(ins: Seq<SubgraphInputView>, k: int)
    requires
        0 <= k <= ins.len(),
        duplicate_errors(ins, k).len() == 0,
    ensures
        forall|i: int| 0 <= i < k ==> !slot_seen(ins, i),
    decreases k,
{
    if k > 0 {
        if slot_seen(ins, k - 1) {
            assert(duplicate_errors(ins, k).len() == duplicate_errors(ins, k - 1).len() + 1);
        }
        lemma_no_duplicates(ins, k - 1);
    }
}

/// When the analysis finds nothing wrong with a subgraph, it has at most
/// three inputs, no two of them with the same slot, at most one receiver,
/// and exactly one output.
pub proof fn lemma_ok_subgraph_boundary(g: Graph, reg: PieceRegistry)
    requires
        subgraph_ok(g, reg),
    ensures
        spec_inputs(g).len() <= 3,
        spec_outputs(g).len() == 1,
        forall|i: int, k: int|
            0 <= i < k < spec_inputs(g).len() ==> #[trigger] spec_inputs(g)[i].slot != #[trigger] spec_inputs(g)[k].slot,
        forall|i: int, k: int|
            0 <= i < k < spec_inputs(g).len() ==> !(#[trigger] spec_inputs(g)[i].is_receiver
                && #[trigger] spec_inputs(g)[k].is_receiver),
{
    let ins = spec_inputs(g);
    let n = ins.len() as int;
    let a = too_many_errors(ins);
    let b = duplicate_errors(ins, n);
    let c = output_errors(spec_outputs(g));
    let d = receiver_errors(ins);
    let e = type_errors_upto(g, reg, ins, n);
    assert(spec_subgraph_errors(g, reg).len() == a.len() + b.len() + c.len() + d.len() + e.len());
    lemma_no_duplicates(ins, n);
    assert forall|i: int, k: int| 0 <= i < k < n implies #[trigger] ins[i].slot != #[trigger] ins[k].slot by {
        assert(!slot_seen(ins, k));
    }
    assert forall|i: int, k: int| 0 <= i < k < n implies !(#[trigger] ins[i].is_receiver && #[trigger] ins[k].is_receiver) by {
        if ins[i].is_receiver && ins[k].is_receiver {
            lemma_receivers_grow(ins, 0, i);
            lemma_receivers_grow(ins, i + 1, k);
            lemma_receivers_grow(ins, k + 1, n);
            assert(receivers_upto(ins, i + 1).len() == receivers_upto(ins, i).len() + 1);
            assert(receivers_upto(ins, k + 1).len() == receivers_upto(ins, k).len() + 1);
        }
    }
}


/// Every edge leaving an input into a known parameter of a registered piece
/// carries the input's type into a parameter that accepts it.
pub open spec fn inputs_type_check(g: Graph, reg: PieceRegistry) -> bool {
    forall|i: int, x: int|
        #![trigger spec_inputs(g)[i], g.edges.value_seq()[x]]
        0 <= i < spec_inputs(g).len() && 0 <= x < g.edges.value_seq().len() && g.edges.value_seq()[x].from
            == spec_inputs(g)[i].pos && g.nodes.as_map().contains_key(g.edges.value_seq()[x].to_node)
            && reg.defs().contains_key(g.nodes.as_map()[g.edges.value_seq()[x].to_node].piece_id@) && first_param(
            reg.defs()[g.nodes.as_map()[g.edges.value_seq()[x].to_node].piece_id@],
            g.edges.value_seq()[x].to_param@,
        ) is Some ==> ({
            let d = reg.defs()[g.nodes.as_map()[g.edges.value_seq()[x].to_node].piece_id@];
            let sch = d.params@[first_param(d, g.edges.value_seq()[x].to_param@)->Some_0].schema;
            spec_connects(schema_kind(sch), schema_domain(sch), spec_inputs(g)[i].port_type.0, spec_inputs(g)[i].port_type.1)
        })
}

proof fn lemma_edge_errors_none(g: Graph, reg: PieceRegistry, inp: SubgraphInputView, m: int)
    requires
        0 <= m <= g.edges.value_seq().len(),
        forall|x: int|
            0 <= x < m && (#[trigger] g.edges.value_seq()[x]).from == inp.pos ==> edge_type_error(
                g,
                reg,
                inp,
                g.edges.value_seq()[x],
            ) is None,
    ensures
        edge_errors_upto(g, reg, inp, m).len() == 0,
    decreases m,
{
    if m > 0 {
        let e = g.edges.value_seq()[m - 1];
        lemma_edge_errors_none(g, reg, inp, m - 1);
    }
}

proof fn lemma_type_errors_none(g: Graph, reg: PieceRegistry, ins: Seq<SubgraphInputView>, k: int)
    requires
        0 <= k <= ins.len(),
        forall|i: int|
            0 <= i < k ==> (#[trigger] edge_errors_upto(g, reg, ins[i], g.edges.value_seq().len() as int)).len() == 0,
    ensures
        type_errors_upto(g, reg, ins, k).len() == 0,
    decreases k,
{
    if k > 0 {
        assert(edge_errors_upto(g, reg, ins[k - 1], g.edges.value_seq().len() as int).len() == 0);
        lemma_type_errors_none(g, reg, ins, k - 1);
    }
}

proof fn lemma_duplicates_none(ins: Seq<SubgraphInputView>, k: int)
    requires
        0 <= k <= ins.len(),
        forall|i: int| 0 <= i < k ==> !slot_seen(ins, i),
    ensures
        duplicate_errors(ins, k).len() == 0,
    decreases k,
{
    if k > 0 {
        lemma_duplicates_none(ins, k - 1);
    }
}

proof fn lemma_receivers_few(ins: Seq<SubgraphInputView>, k: int)
    requires
        0 <= k <= ins.len(),
        forall|i: int, j: int| 0 <= i < j < k ==> !(#[trigger] ins[i].is_receiver && #[trigger] ins[j].is_receiver),
    ensures
        receivers_upto(ins, k).len() <= 1,
        receivers_upto(ins, k).len() == 1 ==> exists|i: int| 0 <= i < k && #[trigger] ins[i].is_receiver,
    decreases k,
{
    if k > 0 {
        lemma_receivers_few(ins, k - 1);
        if ins[k - 1].is_receiver && receivers_upto(ins, k - 1).len() == 1 {
            let i = choose|i: int| 0 <= i < k - 1 && #[trigger] ins[i].is_receiver;
            assert(!(ins[i].is_receiver && ins[k - 1].is_receiver));
        }
    }
}

/// The analysis finds nothing wrong with a subgraph exactly when it has at
/// most three inputs, no two with the same slot, at most one receiver,
/// exactly one output, and every edge leaving an input into a known
/// parameter carries a type that parameter accepts.
pub proof fn lemma_subgraph_ok_exactly(g: Graph, reg: PieceRegistry)
    ensures
        subgraph_ok(g, reg) <==> {
            &&& spec_inputs(g).len() <= 3
            &&& spec_outputs(g).len() == 1
            &&& forall|i: int, k: int|
                0 <= i < k < spec_inputs(g).len() ==> #[trigger] spec_inputs(g)[i].slot != #[trigger] spec_inputs(
                    g,
                )[k].slot
            &&& forall|i: int, k: int|
                0 <= i < k < spec_inputs(g).len() ==> !(#[trigger] spec_inputs(g)[i].is_receiver
                    && #[trigger] spec_inputs(g)[k].is_receiver)
            &&& inputs_type_check(g, reg)
        },
{
    let ins = spec_inputs(g);
    let n = ins.len() as int;
    if subgraph_ok(g, reg) {
        lemma_ok_subgraph_boundary(g, reg);
        lemma_ok_subgraph_edges_type_check(g, reg);
    } else if {
        &&& ins.len() <= 3
        &&& spec_outputs(g).len() == 1
        &&& forall|i: int, k: int| 0 <= i < k < n ==> #[trigger] ins[i].slot != #[trigger] ins[k].slot
        &&& forall|i: int, k: int| 0 <= i < k < n ==> !(#[trigger] ins[i].is_receiver && #[trigger] ins[k].is_receiver)
        &&& inputs_type_check(g, reg)
    } {
        assert forall|i: int| 0 <= i < n implies !slot_seen(ins, i) by {
            if slot_seen(ins, i) {
                let j = choose|j: int| 0 <= j < i && #[trigger] ins[j].slot == ins[i].slot;
                assert(ins[j].slot != ins[i].slot);
            }
        }
        lemma_duplicates_none(ins, n);
        lemma_receivers_few(ins, n);
        assert forall|i: int| 0 <= i < n implies (#[trigger] edge_errors_upto(
            g,
            reg,
            ins[i],
            g.edges.value_seq().len() as int,
        )).len() == 0 by {
            assert forall|x: int|
                0 <= x < g.edges.value_seq().len() && (#[trigger] g.edges.value_seq()[x]).from == ins[i].pos implies edge_type_error(
                g,
                reg,
                ins[i],
                g.edges.value_seq()[x],
            ) is None by {
                assert(spec_inputs(g)[i] == ins[i]);
            }
            lemma_edge_errors_none(g, reg, ins[i], g.edges.value_seq().len() as int);
        }
        lemma_type_errors_none(g, reg, ins, n);
        assert(spec_subgraph_errors(g, reg).len() == 0);
    }
}

} // verus!
