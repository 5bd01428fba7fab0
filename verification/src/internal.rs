//! Graph rules shared by validation and analysis: where a parameter takes
//! its input from, where a node sends its output, and which ports clash.

use vstd::prelude::*;

use crate::collections::SortedSet;
use crate::diagnostics::{edge_error_view, Diagnostic, DiagnosticKind, DiagnosticView, KindView};
use crate::graph::{claims_slot, push_diag, slots_before, views, Graph, Node, Slot};
use crate::piece::{schema_same, spec_has_output, ParamDef, ParamSchema, PieceDef};
use crate::piece_registry::PieceRegistry;
use crate::types::{spec_adjacent, spec_opposite, adjacent_fits, adjacent_in_direction, EdgeId};
use crate::subgraph::{SUBGRAPH_INPUT_1_ID, SUBGRAPH_INPUT_2_ID, SUBGRAPH_INPUT_3_ID};
use crate::text::{
    append_str, lemma_strictly_sorted_unique, sort_strings, sorted_by_chars, str_eq, string_of_chars, strictly_sorted, Name,
};
use crate::types::{GridPos, PortRole, TileSide};

verus! {

/// The index of the first parameter of `def` at or after `k` named `id`.
pub open spec fn first_param_from(def: PieceDef, id: Seq<char>, k: int) -> Option<int>
    decreases def.params@.len() - k,
{
    if k < 0 || k >= def.params@.len() {
        None
    } else if def.params@[k].id@ == id {
        Some(k)
    } else {
        first_param_from(def, id, k + 1)
    }
}

/// The index of the first parameter of `def` named `id`.
pub open spec fn first_param(def: PieceDef, id: Seq<char>) -> Option<int> {
    first_param_from(def, id, 0)
}

/// The first parameter of `piece` named `param_id`.
pub fn find_param<'a>(piece: &'a PieceDef, param_id: &str) -> (r: Option<&'a ParamDef>)
    ensures
        match first_param(*piece, param_id@) {
            Some(j) => r matches Some(p) && *p == piece.params@[j],
            None => r is None,
        },
{
    let mut j: usize = 0;
    while j < piece.params.len()
        invariant
            j <= piece.params@.len(),
            first_param(*piece, param_id@) == first_param_from(*piece, param_id@, j as int),
        decreases piece.params@.len() - j,
    {
        if str_eq(piece.params[j].id.as_str(), param_id) {
            return Some(&piece.params[j]);
        }
        j = j + 1;
    }
    None
}

/// The side parameter `id` takes input from on `node`: the node's own
/// assignment, else the side its piece declares for it.
pub open spec fn spec_effective_input_side(node: Node, def: PieceDef, id: Seq<char>) -> Option<TileSide> {
    if node.input_sides.as_map().contains_key(id) {
        Some(node.input_sides.as_map()[id])
    } else {
        match first_param(def, id) {
            Some(j) => Some(def.params@[j].side),
            None => None,
        }
    }
}

/// The side a parameter takes input from on a placed node.
pub fn effective_input_side(node: &Node, piece: &PieceDef, param_id: &str) -> (r: Option<TileSide>)
    ensures
        r == spec_effective_input_side(*node, *piece, param_id@),
{
    let key = Name::new(param_id);
    match node.input_sides.get(&key) {
        Some(side) => Some(*side),
        None => match find_param(piece, param_id) {
            Some(param) => Some(param.side),
            None => None,
        },
    }
}

/// The side a node sends output from: none for pieces without output, else
/// the node's own choice, else the piece's.
pub open spec fn spec_effective_output_side(node: Node, def: PieceDef) -> Option<TileSide> {
    if !spec_has_output(def) {
        None
    } else if node.output_side is Some {
        node.output_side
    } else {
        def.output_side
    }
}

pub fn effective_output_side(node: &Node, piece: &PieceDef) -> (r: Option<TileSide>)
    ensures
        r == spec_effective_output_side(*node, *piece),
{
    if !piece.has_output() {
        None
    } else {
        match node.output_side {
            Some(side) => Some(side),
            None => piece.output_side,
        }
    }
}

/// Subgraph input pieces are exempt from the one-parameter-per-side rule.
pub open spec fn spec_counts_toward_side_conflict(def: PieceDef) -> bool {
    def.id@ != SUBGRAPH_INPUT_1_ID@ && def.id@ != SUBGRAPH_INPUT_2_ID@ && def.id@ != SUBGRAPH_INPUT_3_ID@
}

fn param_counts_toward_side_conflict(piece: &PieceDef, _param: &ParamDef) -> (r: bool)
    ensures
        r == spec_counts_toward_side_conflict(*piece),
{
    !(str_eq(piece.id.as_str(), SUBGRAPH_INPUT_1_ID) || str_eq(piece.id.as_str(), SUBGRAPH_INPUT_2_ID) || str_eq(
        piece.id.as_str(),
        SUBGRAPH_INPUT_3_ID,
    ))
}

/// The ids, in declaration order, of the parameters whose input side on
/// `node` is `side`.
pub open spec fn side_params(node: Node, def: PieceDef, side: TileSide) -> Seq<String> {
    if !spec_counts_toward_side_conflict(def) {
        Seq::empty()
    } else {
        def.params@.filter(|p: ParamDef| spec_effective_input_side(node, def, p.id@) == Some(side)).map_values(
            |p: ParamDef| p.id,
        )
    }
}

/// The clash on `side`, if two or more parameters take input from it.
pub open spec fn side_clash(node: Node, def: PieceDef, side: TileSide) -> Seq<(TileSide, Seq<String>)> {
    if side_params(node, def, side).len() >= 2 {
        seq![(side, side_params(node, def, side))]
    } else {
        Seq::empty()
    }
}

/// Every side, in side order, on which two or more parameters take input.
pub open spec fn side_clashes(node: Node, def: PieceDef) -> Seq<(TileSide, Seq<String>)> {
    side_clash(node, def, TileSide::TOP) + side_clash(node, def, TileSide::BOTTOM) + side_clash(
        node,
        def,
        TileSide::RIGHT,
    ) + side_clash(node, def, TileSide::LEFT)
}

fn params_on_side(node: &Node, piece: &PieceDef, side: TileSide) -> (r: Vec<String>)
    ensures
        r@ == side_params(*node, *piece, side),
{
    let ghost pred = |p: ParamDef| spec_effective_input_side(*node, *piece, p.id@) == Some(side);
    let ghost f = |p: ParamDef| p.id;
    let ghost ps = piece.params@;
    let mut out: Vec<String> = Vec::new();
    let mut j: usize = 0;
    while j < piece.params.len()
        invariant
            ps == piece.params@,
            pred == (|p: ParamDef| spec_effective_input_side(*node, *piece, p.id@) == Some(side)),
            f == (|p: ParamDef| p.id),
            j <= ps.len(),
            out@ == (if spec_counts_toward_side_conflict(*piece) {
                ps.take(j as int).filter(pred).map_values(f)
            } else {
                Seq::empty()
            }),
        decreases ps.len() - j,
    {
        let param = &piece.params[j];
        proof {
            assert(ps.take(j + 1).drop_last() =~= ps.take(j as int));
            assert(ps.take(j + 1).last() == *param);
            reveal_with_fuel(Seq::filter, 1);
        }
        if param_counts_toward_side_conflict(piece, param) {
            let eff = effective_input_side(node, piece, param.id.as_str());
            if eff == Some(side) {
                let ghost before = out@;
                out.push(param.id.clone());
                proof {
                    assert(ps.take(j as int).filter(pred).push(*param).map_values(f) =~= ps.take(j as int).filter(
                        pred,
                    ).map_values(f).push(param.id));
                }
            }
        }
        j = j + 1;
    }
    proof {
        assert(ps.take(ps.len() as int) =~= ps);
    }
    out
}

fn push_clash(out: &mut Vec<(TileSide, Vec<String>)>, node: &Node, piece: &PieceDef, side: TileSide)
    ensures
        final(out)@.len() == old(out)@.len() + side_clash(*node, *piece, side).len(),
        forall|k: int| 0 <= k < old(out)@.len() ==> #[trigger] final(out)@[k] == old(out)@[k],
        side_clash(*node, *piece, side).len() == 1 ==> {
            let got = final(out)@[old(out)@.len() as int];
            &&& got.0 == side
            &&& sorted_by_chars(got.1@)
            &&& got.1@.to_multiset() == side_params(*node, *piece, side).to_multiset()
        },
{
    let params = params_on_side(node, piece, side);
    if params.len() >= 2 {
        out.push((side, sort_strings(&params)));
    }
}

/// The sides on which two or more parameters of `node` take input, in
/// side order, each with those parameters' ids sorted.
pub fn duplicate_effective_input_sides(node: &Node, piece: &PieceDef) -> (r: Vec<(TileSide, Vec<String>)>)
    ensures
        r@.len() == side_clashes(*node, *piece).len(),
        forall|k: int|
            0 <= k < r@.len() ==> {
                let want = side_clashes(*node, *piece)[k];
                &&& (#[trigger] r@[k]).0 == want.0
                &&& sorted_by_chars(r@[k].1@)
                &&& r@[k].1@.to_multiset() == want.1.to_multiset()
            },
{
    let mut out: Vec<(TileSide, Vec<String>)> = Vec::new();
    push_clash(&mut out, node, piece, TileSide::TOP);
    let ghost n1 = out@.len();
    push_clash(&mut out, node, piece, TileSide::BOTTOM);
    let ghost n2 = out@.len();
    push_clash(&mut out, node, piece, TileSide::RIGHT);
    let ghost n3 = out@.len();
    push_clash(&mut out, node, piece, TileSide::LEFT);
    proof {
        let c1 = side_clash(*node, *piece, TileSide::TOP);
        let c2 = side_clash(*node, *piece, TileSide::BOTTOM);
        let c3 = side_clash(*node, *piece, TileSide::RIGHT);
        let c4 = side_clash(*node, *piece, TileSide::LEFT);
        let all = side_clashes(*node, *piece);
        assert(all == c1 + c2 + c3 + c4);
        assert forall|k: int| 0 <= k < out@.len() implies {
            let want = all[k];
            &&& (#[trigger] out@[k]).0 == want.0
            &&& sorted_by_chars(out@[k].1@)
            &&& out@[k].1@.to_multiset() == want.1.to_multiset()
        } by {
            if k < n1 {
                assert(all[k] == c1[k]);
            } else if k < n2 {
                assert(all[k] == c2[k - n1]);
            } else if k < n3 {
                assert(all[k] == c3[k - n2]);
            } else {
                assert(all[k] == c4[k - n3]);
            }
        }
    }
    out
}

/// The side of `to_node` that `from` sits on, when they are neighbours.
pub open spec fn spec_side_from_to_node(to_node: GridPos, from: GridPos) -> Option<TileSide> {
    let dc = from.col - to_node.col;
    let dr = from.row - to_node.row;
    if dc == 1 && dr == 0 {
        Some(TileSide::RIGHT)
    } else if dc == -1 && dr == 0 {
        Some(TileSide::LEFT)
    } else if dc == 0 && dr == -1 {
        Some(TileSide::TOP)
    } else if dc == 0 && dr == 1 {
        Some(TileSide::BOTTOM)
    } else {
        None
    }
}

pub fn side_from_to_node(to_node: &GridPos, from: &GridPos) -> (r: Option<TileSide>)
    requires
        i32::MIN <= from.col - to_node.col <= i32::MAX,
        i32::MIN <= from.row - to_node.row <= i32::MAX,
    ensures
        r == spec_side_from_to_node(*to_node, *from),
{
    let dc = from.col - to_node.col;
    let dr = from.row - to_node.row;
    if dc == 1 && dr == 0 {
        Some(TileSide::RIGHT)
    } else if dc == -1 && dr == 0 {
        Some(TileSide::LEFT)
    } else if dc == 0 && dr == -1 {
        Some(TileSide::TOP)
    } else if dc == 0 && dr == 1 {
        Some(TileSide::BOTTOM)
    } else {
        None
    }
}

/// A port of role `actual` may feed one of role `expected`: the same role,
/// and for fields the same field name.
pub open spec fn spec_roles_compatible(expected: PortRole, actual: PortRole) -> bool {
    match (expected, actual) {
        (PortRole::Value, PortRole::Value) => true,
        (PortRole::Gate, PortRole::Gate) => true,
        (PortRole::Signal, PortRole::Signal) => true,
        (PortRole::Callback, PortRole::Callback) => true,
        (PortRole::Sequence, PortRole::Sequence) => true,
        (PortRole::Field { name: a }, PortRole::Field { name: b }) => a@ == b@,
        _ => false,
    }
}

pub fn roles_compatible(expected: &PortRole, actual: &PortRole) -> (r: bool)
    ensures
        r == spec_roles_compatible(*expected, *actual),
{
    match (expected, actual) {
        (PortRole::Value, PortRole::Value) => true,
        (PortRole::Gate, PortRole::Gate) => true,
        (PortRole::Signal, PortRole::Signal) => true,
        (PortRole::Callback, PortRole::Callback) => true,
        (PortRole::Sequence, PortRole::Sequence) => true,
        (PortRole::Field { name: a }, PortRole::Field { name: b }) => str_eq(a.as_str(), b.as_str()),
        _ => false,
    }
}

/// The name of a role: `value`, `gate`, `signal`, `callback`, `sequence`,
/// or `field:` and the field's name.
pub open spec fn spec_role_label(role: PortRole) -> Seq<char> {
    match role {
        PortRole::Value => "value"@,
        PortRole::Gate => "gate"@,
        PortRole::Signal => "signal"@,
        PortRole::Callback => "callback"@,
        PortRole::Sequence => "sequence"@,
        PortRole::Field { name } => "field:"@ + name@,
    }
}

fn append_role_label(buf: &mut Vec<char>, role: &PortRole)
    ensures
        final(buf)@ == old(buf)@ + spec_role_label(*role),
{
    match role {
        PortRole::Value => append_str(buf, "value"),
        PortRole::Gate => append_str(buf, "gate"),
        PortRole::Signal => append_str(buf, "signal"),
        PortRole::Callback => append_str(buf, "callback"),
        PortRole::Sequence => append_str(buf, "sequence"),
        PortRole::Field { name } => {
            let ghost before = buf@;
            append_str(buf, "field:");
            append_str(buf, name.as_str());
            proof {
                assert(buf@ =~= before + spec_role_label(*role));
            }
        },
    }
}

pub fn role_label(role: &PortRole) -> (r: String)
    ensures
        r@ == spec_role_label(*role),
{
    let mut buf: Vec<char> = Vec::new();
    append_role_label(&mut buf, role);
    proof {
        assert(buf@ =~= spec_role_label(*role));
    }
    string_of_chars(buf.as_slice())
}

/// Why a port of one role cannot feed a parameter of another.
pub open spec fn spec_role_mismatch_reason(expected: PortRole, actual: PortRole, param_id: Seq<char>) -> Seq<char> {
    "role_mismatch: expected "@ + spec_role_label(expected) + ", got "@ + spec_role_label(actual) + " for param '"@
        + param_id + "'"@
}

pub fn role_mismatch_reason(expected: &PortRole, actual: &PortRole, param_id: &str) -> (r: String)
    ensures
        r@ == spec_role_mismatch_reason(*expected, *actual, param_id@),
{
    let mut buf: Vec<char> = Vec::new();
    append_str(&mut buf, "role_mismatch: expected ");
    append_role_label(&mut buf, expected);
    append_str(&mut buf, ", got ");
    append_role_label(&mut buf, actual);
    append_str(&mut buf, " for param '");
    append_str(&mut buf, param_id);
    append_str(&mut buf, "'");
    proof {
        assert(buf@ =~= spec_role_mismatch_reason(*expected, *actual, param_id@));
    }
    string_of_chars(buf.as_slice())
}

/// What structural validation keeps of an edge that passed it.
#[derive(Debug)]
pub struct StructuralEdgeInfo {
    pub edge_id: EdgeId,
    pub target_pos: GridPos,
    pub param: String,
    pub schema: ParamSchema,
}

/// The reason given for a parameter with no side on its node.
pub open spec fn no_side_reason(param: Seq<char>) -> Seq<char> {
    "target param '"@ + param + "' has no assigned side on placed node"@
}

/// The side the `i`-th edge's target parameter takes input from, when the
/// edge gets that far: both ends are nodes of registered pieces and the
/// target piece declares the parameter.
pub open spec fn checked_target_side(g: Graph, reg: PieceRegistry, i: int) -> Option<TileSide> {
    let e = g.edges.value_seq()[i];
    if !claims_slot(g, reg, e) {
        None
    } else {
        let to_node = g.nodes.as_map()[e.to_node];
        let to_def = reg.defs()[to_node.piece_id@];
        if first_param(to_def, e.to_param@) is None {
            None
        } else {
            spec_effective_input_side(to_node, to_def, e.to_param@)
        }
    }
}

/// The structural findings of the `i`-th edge in id order: missing ends;
/// then, when both pieces are registered, a slot claimed before, an unknown
/// parameter, a parameter without a side, a source that is not the
/// neighbour on that side, and an output side that does not face it.
pub open spec fn structure_checks(g: Graph, reg: PieceRegistry, i: int) -> Seq<DiagnosticView> {
    let e = g.edges.value_seq()[i];
    if !g.nodes.as_map().contains_key(e.from) {
        seq![edge_error_view(KindView::UnknownNode { pos: e.from }, Some(e.to_node), e.id@)]
    } else if !g.nodes.as_map().contains_key(e.to_node) {
        seq![edge_error_view(KindView::UnknownNode { pos: e.to_node }, Some(e.to_node), e.id@)]
    } else if !claims_slot(g, reg, e) {
        Seq::empty()
    } else {
        let from_node = g.nodes.as_map()[e.from];
        let to_node = g.nodes.as_map()[e.to_node];
        let from_def = reg.defs()[from_node.piece_id@];
        let to_def = reg.defs()[to_node.piece_id@];
        let dup = if slots_before(g, reg, i).contains((e.to_node, e.to_param@)) {
            seq![
                edge_error_view(
                    KindView::DuplicateConnection { to_node: e.to_node, to_param: e.to_param@ },
                    Some(e.to_node),
                    e.id@,
                ),
            ]
        } else {
            Seq::<DiagnosticView>::empty()
        };
        dup + if first_param(to_def, e.to_param@) is None {
            seq![
                edge_error_view(
                    KindView::UnknownParam { piece_id: to_def.id@, param: e.to_param@ },
                    Some(e.to_node),
                    e.id@,
                ),
            ]
        } else {
            match spec_effective_input_side(to_node, to_def, e.to_param@) {
                None => seq![
                    edge_error_view(
                        KindView::InvalidOperation { reason: no_side_reason(e.to_param@) },
                        Some(e.to_node),
                        e.id@,
                    ),
                ],
                Some(ts) => if spec_adjacent(e.to_node, Some(ts)) != e.from {
                    seq![
                        edge_error_view(
                            KindView::NotAdjacent { from_pos: e.from, to_pos: e.to_node },
                            Some(e.to_node),
                            e.id@,
                        ),
                    ]
                } else {
                    match spec_effective_output_side(from_node, from_def) {
                        Some(fs) => if ts != spec_opposite(fs) {
                            seq![
                                edge_error_view(
                                    KindView::SideMismatch { from_pos: e.from, to_pos: e.to_node, expected_side: ts },
                                    Some(e.to_node),
                                    e.id@,
                                ),
                            ]
                        } else {
                            Seq::empty()
                        },
                        None => Seq::empty(),
                    }
                },
            }
        }
    }
}

/// What is kept of the `i`-th edge when it passes: its id, target cell,
/// parameter and the parameter's schema.
pub open spec fn structure_info(g: Graph, reg: PieceRegistry, i: int) -> Option<(u128, GridPos, Seq<char>, ParamSchema)> {
    let e = g.edges.value_seq()[i];
    match checked_target_side(g, reg, i) {
        None => None,
        Some(ts) => if spec_adjacent(e.to_node, Some(ts)) != e.from {
            None
        } else {
            let to_def = reg.defs()[g.nodes.as_map()[e.to_node].piece_id@];
            Some((e.id@, e.to_node, e.to_param@, to_def.params@[first_param(to_def, e.to_param@)->0].schema))
        },
    }
}

/// The structural findings of the first `n` edges.
pub open spec fn structure_checks_upto(g: Graph, reg: PieceRegistry, n: nat) -> Seq<DiagnosticView>
    decreases n,
{
    if n == 0 {
        Seq::empty()
    } else {
        structure_checks_upto(g, reg, (n - 1) as nat) + structure_checks(g, reg, n - 1)
    }
}

/// What is kept of the first `n` edges.
pub open spec fn structure_infos_upto(g: Graph, reg: PieceRegistry, n: nat) -> Seq<(u128, GridPos, Seq<char>, ParamSchema)>
    decreases n,
{
    if n == 0 {
        Seq::empty()
    } else {
        structure_infos_upto(g, reg, (n - 1) as nat) + match structure_info(g, reg, n - 1) {
            Some(x) => seq![x],
            None => Seq::empty(),
        }
    }
}

/// The info matches what is kept of an edge.
pub open spec fn info_is(info: StructuralEdgeInfo, want: (u128, GridPos, Seq<char>, ParamSchema)) -> bool {
    &&& info.edge_id@ == want.0
    &&& info.target_pos == want.1
    &&& info.param@ == want.2
    &&& schema_same(info.schema, want.3)
}

fn no_side_message(param: &str) -> (r: String)
    ensures
        r@ == no_side_reason(param@),
{
    let mut buf: Vec<char> = Vec::new();
    append_str(&mut buf, "target param '");
    append_str(&mut buf, param);
    append_str(&mut buf, "' has no assigned side on placed node");
    proof {
        assert(buf@ =~= no_side_reason(param@));
    }
    string_of_chars(buf.as_slice())
}

/// Checks every edge's structure against the registry: both ends placed, one
/// edge per slot, a declared parameter with a side, the source on that side,
/// and the source's output facing it. Findings are appended to
/// `diagnostics`; the edges that pass are returned with their parameter's
/// schema. An edge whose target is at the edge of the `i32` range on the
/// side it looks at is outside what this accepts.
pub fn validate_graph_edge_structure(
    graph: &Graph,
    registry: &PieceRegistry,
    diagnostics: &mut Vec<Diagnostic>,
) -> (r: Vec<StructuralEdgeInfo>)
    requires
        forall|i: int|
            0 <= i < graph.edges.value_seq().len() ==> match #[trigger] checked_target_side(*graph, *registry, i) {
                Some(ts) => adjacent_fits(graph.edges.value_seq()[i].to_node, Some(ts)),
                None => true,
            },
    ensures
        views(final(diagnostics)@) == views(old(diagnostics)@) + structure_checks_upto(
            *graph,
            *registry,
            graph.edges.value_seq().len(),
        ),
        r@.len() == structure_infos_upto(*graph, *registry, graph.edges.value_seq().len()).len(),
        forall|k: int|
            0 <= k < r@.len() ==> info_is(
                #[trigger] r@[k],
                structure_infos_upto(*graph, *registry, graph.edges.value_seq().len())[k],
            ),
{
    let ghost d0 = views(diagnostics@);
    let ne = graph.edges.len();
    let mut slots: SortedSet<Slot> = SortedSet::new();
    let mut pending: Vec<StructuralEdgeInfo> = Vec::new();
    let mut j: usize = 0;
    while j < ne
        invariant
            forall|i: int|
                0 <= i < graph.edges.value_seq().len() ==> match #[trigger] checked_target_side(*graph, *registry, i) {
                    Some(ts) => adjacent_fits(graph.edges.value_seq()[i].to_node, Some(ts)),
                    None => true,
                },
            ne == graph.edges.key_seq().len(),
            ne == graph.edges.value_seq().len(),
            j <= ne,
            views(diagnostics@) == d0 + structure_checks_upto(*graph, *registry, j as nat),
            slots.set_view() == slots_before(*graph, *registry, j as int),
            pending@.len() == structure_infos_upto(*graph, *registry, j as nat).len(),
            forall|k: int|
                0 <= k < pending@.len() ==> info_is(
                    #[trigger] pending@[k],
                    structure_infos_upto(*graph, *registry, j as nat)[k],
                ),
        decreases ne - j,
    {
        let edge = graph.edges.value_at(j);
        let ghost e = *edge;
        let ghost before = views(diagnostics@);
        let ghost pend0 = pending@;
        proof {
            assert(slots_before(*graph, *registry, j + 1) =~= if claims_slot(*graph, *registry, e) {
                slots_before(*graph, *registry, j as int).insert((e.to_node, e.to_param@))
            } else {
                slots_before(*graph, *registry, j as int)
            });
        }
        match graph.nodes.get(&edge.from) {
            None => {
                push_diag(
                    diagnostics,
                    Diagnostic::error(DiagnosticKind::UnknownNode { pos: edge.from }, Some(edge.to_node)).with_edge(
                        edge.id.clone(),
                    ),
                );
            },
            Some(from_node) => match graph.nodes.get(&edge.to_node) {
                None => {
                    push_diag(
                        diagnostics,
                        Diagnostic::error(DiagnosticKind::UnknownNode { pos: edge.to_node }, Some(edge.to_node)).with_edge(
                            edge.id.clone(),
                        ),
                    );
                },
                Some(to_node) => match registry.get(from_node.piece_id.as_str()) {
                    None => {},
                    Some(from_piece) => match registry.get(to_node.piece_id.as_str()) {
                        None => {},
                        Some(to_piece) => {
                            let fresh = slots.insert(Slot::new(edge.to_node, &edge.to_param));
                            if !fresh {
                                push_diag(
                                    diagnostics,
                                    Diagnostic::error(
                                        DiagnosticKind::DuplicateConnection {
                                            to_node: edge.to_node,
                                            to_param: edge.to_param.clone(),
                                        },
                                        Some(edge.to_node),
                                    ).with_edge(edge.id.clone()),
                                );
                            }
                            match find_param(to_piece, edge.to_param.as_str()) {
                                None => {
                                    push_diag(
                                        diagnostics,
                                        Diagnostic::error(
                                            DiagnosticKind::UnknownParam {
                                                piece_id: to_piece.id.clone(),
                                                param: edge.to_param.clone(),
                                            },
                                            Some(edge.to_node),
                                        ).with_edge(edge.id.clone()),
                                    );
                                },
                                Some(param_def) => match effective_input_side(
                                    to_node,
                                    to_piece,
                                    edge.to_param.as_str(),
                                ) {
                                    None => {
                                        push_diag(
                                            diagnostics,
                                            Diagnostic::error(
                                                DiagnosticKind::InvalidOperation {
                                                    reason: no_side_message(edge.to_param.as_str()),
                                                },
                                                Some(edge.to_node),
                                            ).with_edge(edge.id.clone()),
                                        );
                                    },
                                    Some(target_side) => {
                                        proof {
                                            assert(checked_target_side(*graph, *registry, j as int) == Some(
                                                target_side,
                                            ));
                                        }
                                        let expected = adjacent_in_direction(&edge.to_node, Some(target_side));
                                        if expected != edge.from {
                                            push_diag(
                                                diagnostics,
                                                Diagnostic::error(
                                                    DiagnosticKind::NotAdjacent {
                                                        from_pos: edge.from,
                                                        to_pos: edge.to_node,
                                                    },
                                                    Some(edge.to_node),
                                                ).with_edge(edge.id.clone()),
                                            );
                                        } else {
                                            match effective_output_side(from_node, from_piece) {
                                                Some(from_side) => {
                                                    if !from_side.faces(target_side) {
                                                        push_diag(
                                                            diagnostics,
                                                            Diagnostic::error(
                                                                DiagnosticKind::SideMismatch {
                                                                    from_pos: edge.from,
                                                                    to_pos: edge.to_node,
                                                                    expected_side: target_side,
                                                                },
                                                                Some(edge.to_node),
                                                            ).with_edge(edge.id.clone()),
                                                        );
                                                    }
                                                },
                                                None => {},
                                            }
                                            pending.push(
                                                StructuralEdgeInfo {
                                                    edge_id: edge.id.clone(),
                                                    target_pos: edge.to_node,
                                                    param: edge.to_param.clone(),
                                                    schema: param_def.schema.clone(),
                                                },
                                            );
                                        }
                                    },
                                },
                            }
                        },
                    },
                },
            },
        }
        proof {
            assert(views(diagnostics@) =~= d0 + structure_checks_upto(*graph, *registry, (j + 1) as nat));
            let want = structure_infos_upto(*graph, *registry, (j + 1) as nat);
            assert forall|k: int| 0 <= k < pending@.len() implies info_is(#[trigger] pending@[k], want[k]) by {
                if k < pend0.len() {
                    assert(pending@[k] == pend0[k]);
                    assert(want[k] == structure_infos_upto(*graph, *registry, j as nat)[k]);
                }
            }
        }
        j = j + 1;
    }
    pending
}

// Checks of piece definitions
// ---------------------------------------------------------------------------

/// A finding about the registry: an error with `reason` and no site.
pub open spec fn registry_error(reason: Seq<char>) -> DiagnosticView {
    crate::diagnostics::error_view(KindView::InvalidOperation { reason }, None)
}

fn invalid_registry_diagnostic(reason: String) -> (r: Diagnostic)
    ensures
        r@ == registry_error(reason@),
{
    Diagnostic::error(DiagnosticKind::InvalidOperation { reason }, None)
}

/// Parameter `p` belongs to the variadic group named `g`.
pub open spec fn in_group(p: ParamDef, g: Seq<char>) -> bool {
    p.variadic_group matches Some(n) && n@ == g
}

/// The names of the variadic groups of `def`.
pub open spec fn group_set(def: PieceDef) -> Set<Seq<char>> {
    Set::new(|g: Seq<char>| exists|j: int| 0 <= j < def.params@.len() && #[trigger] in_group(def.params@[j], g))
}

/// The members of group `g` among the first `n` parameters, in order.
pub open spec fn members_upto(def: PieceDef, g: Seq<char>, n: int) -> Seq<ParamDef>
    decreases n,
{
    if n <= 0 {
        seq![]
    } else if in_group(def.params@[n - 1], g) {
        members_upto(def, g, n - 1).push(def.params@[n - 1])
    } else {
        members_upto(def, g, n - 1)
    }
}

/// The parameters of group `g`, in declaration order.
pub open spec fn group_members(def: PieceDef, g: Seq<char>) -> Seq<ParamDef> {
    members_upto(def, g, def.params@.len() as int)
}

/// The ids of `ps` joined by `", "`.
pub open spec fn join_param_ids(ps: Seq<ParamDef>) -> Seq<char>
    decreases ps.len(),
{
    if ps.len() == 0 {
        seq![]
    } else if ps.len() == 1 {
        ps[0].id@
    } else {
        join_param_ids(ps.drop_last()) + ", "@ + ps.last().id@
    }
}

/// The reason text of a finding `what` about group `g` of `def`.
pub open spec fn group_reason(def: PieceDef, g: Seq<char>, what: Seq<char>) -> Seq<char> {
    "invalid_registry: piece '"@ + def.id@ + "' variadic group '"@ + g + "' "@ + what + ": "@ + join_param_ids(
        group_members(def, g),
    )
}

/// The port type a parameter expects, as kind and domain.
pub open spec fn param_port(p: ParamDef) -> (Seq<char>, Option<crate::types::ExecutionDomain>) {
    (crate::piece::schema_kind(p.schema), crate::piece::schema_domain(p.schema))
}

/// Some member after the first differs from the first in `differs`.
pub open spec fn some_member_differs(m: Seq<ParamDef>, differs: spec_fn(ParamDef, ParamDef) -> bool) -> bool {
    exists|i: int| 1 <= i < m.len() && #[trigger] differs(m[i], m[0])
}

/// The finding `what` when `cond` holds, else none.
pub open spec fn finding_if(cond: bool, def: PieceDef, g: Seq<char>, what: Seq<char>) -> Seq<DiagnosticView> {
    if cond {
        seq![registry_error(group_reason(def, g, what))]
    } else {
        seq![]
    }
}

/// What is wrong with group `g` of `def`, in this order: a required member,
/// then members that differ from the first in port type, role, text
/// semantics or inline capability.
pub open spec fn group_findings(def: PieceDef, g: Seq<char>) -> Seq<DiagnosticView> {
    let m = group_members(def, g);
    finding_if(exists|i: int| 0 <= i < m.len() && #[trigger] m[i].required, def, g, "cannot contain required params"@)
        + finding_if(
        some_member_differs(m, |a: ParamDef, b: ParamDef| param_port(a) != param_port(b)),
        def,
        g,
        "mixes port types across params"@,
    ) + finding_if(
        some_member_differs(m, |a: ParamDef, b: ParamDef| !spec_roles_compatible(a.role, b.role)),
        def,
        g,
        "mixes roles across params"@,
    ) + finding_if(
        some_member_differs(m, |a: ParamDef, b: ParamDef| a.text_semantics@ != b.text_semantics@),
        def,
        g,
        "mixes text semantics across params"@,
    ) + finding_if(
        some_member_differs(
            m,
            |a: ParamDef, b: ParamDef| crate::piece::schema_can_inline(a.schema) != crate::piece::schema_can_inline(b.schema),
        ),
        def,
        g,
        "mixes inline capability across params"@,
    )
}

/// The findings for the groups `names`, one group after another.
pub open spec fn variadic_findings(def: PieceDef, names: Seq<Seq<char>>) -> Seq<DiagnosticView>
    decreases names.len(),
{
    if names.len() == 0 {
        seq![]
    } else {
        variadic_findings(def, names.drop_last()) + group_findings(def, names.last())
    }
}

/// The names of the variadic groups of `def` in increasing order.
pub open spec fn sorted_groups(def: PieceDef) -> Seq<Seq<char>> {
    choose|names: Seq<Seq<char>>| strictly_sorted(names) && names.to_set() == group_set(def)
}

/// Indices of the members of group `g`, in order.
fn group_member_indices(def: &PieceDef, g: &str) -> (r: Vec<usize>)
    ensures
        r@.map_values(|i: usize| def.params@[i as int]) == group_members(*def, g@),
        forall|t: int| 0 <= t < r@.len() ==> #[trigger] r@[t] < def.params@.len(),
{
    let mut idx: Vec<usize> = Vec::new();
    let mut j: usize = 0;
    while j < def.params.len()
        invariant
            j <= def.params@.len(),
            idx@.map_values(|i: usize| def.params@[i as int]) == members_upto(*def, g@, j as int),
            forall|t: int| 0 <= t < idx@.len() ==> #[trigger] idx@[t] < j,
        decreases def.params@.len() - j,
    {
        let ghost before = idx@;
        let member = match &def.params[j].variadic_group {
            Some(n) => str_eq(n.as_str(), g),
            None => false,
        };
        if member {
            idx.push(j);
            proof {
                assert(idx@.map_values(|i: usize| def.params@[i as int]) =~= before.map_values(
                    |i: usize| def.params@[i as int],
                ).push(def.params@[j as int]));
            }
        }
        j = j + 1;
    }
    idx
}

/// Appends to `buf` the ids of the members listed by `idx`, joined by `", "`.
fn append_joined_ids(buf: &mut Vec<char>, def: &PieceDef, idx: &Vec<usize>)
    requires
        forall|t: int| 0 <= t < idx@.len() ==> #[trigger] idx@[t] < def.params@.len(),
    ensures
        final(buf)@ == old(buf)@ + join_param_ids(idx@.map_values(|i: usize| def.params@[i as int])),
{
    let ghost start = buf@;
    let mut t: usize = 0;
    while t < idx.len()
        invariant
            forall|u: int| 0 <= u < idx@.len() ==> #[trigger] idx@[u] < def.params@.len(),
            t <= idx@.len(),
            buf@ == start + join_param_ids(idx@.take(t as int).map_values(|i: usize| def.params@[i as int])),
        decreases idx@.len() - t,
    {
        let ghost m = idx@.take(t + 1).map_values(|i: usize| def.params@[i as int]);
        proof {
            assert(m.drop_last() =~= idx@.take(t as int).map_values(|i: usize| def.params@[i as int]));
        }
        if t > 0 {
            append_str(buf, ", ");
        }
        append_str(buf, def.params[idx[t]].id.as_str());
        proof {
            if t == 0 {
                assert(idx@.take(0).map_values(|i: usize| def.params@[i as int]) =~= Seq::<ParamDef>::empty());
            }
            assert(buf@ =~= start + join_param_ids(m));
        }
        t = t + 1;
    }
    proof {
        assert(idx@.take(idx@.len() as int) =~= idx@);
    }
}

fn push_group_finding(
    out: &mut Vec<Diagnostic>,
    def: &PieceDef,
    g: &str,
    idx: &Vec<usize>,
    what: &str,
)
    requires
        forall|t: int| 0 <= t < idx@.len() ==> #[trigger] idx@[t] < def.params@.len(),
        idx@.map_values(|i: usize| def.params@[i as int]) == group_members(*def, g@),
    ensures
        views(final(out)@) == views(old(out)@).push(registry_error(group_reason(*def, g@, what@))),
{
    let mut buf: Vec<char> = Vec::new();
    append_str(&mut buf, "invalid_registry: piece '");
    append_str(&mut buf, def.id.as_str());
    append_str(&mut buf, "' variadic group '");
    append_str(&mut buf, g);
    append_str(&mut buf, "' ");
    append_str(&mut buf, what);
    append_str(&mut buf, ": ");
    append_joined_ids(&mut buf, def, idx);
    let reason = string_of_chars(buf.as_slice());
    proof {
        assert(reason@ =~= group_reason(*def, g@, what@));
    }
    let ghost before = out@;
    out.push(invalid_registry_diagnostic(reason));
    proof {
        assert(views(out@) =~= views(before).push(registry_error(group_reason(*def, g@, what@))));
    }
}

fn same_port(a: &ParamDef, b: &ParamDef) -> (r: bool)
    ensures
        r == (param_port(*a) == param_port(*b)),
{
    let ta = a.schema.expected_port_type();
    let tb = b.schema.expected_port_type();
    str_eq(ta.as_str(), tb.as_str()) && ta.domain() == tb.domain()
}

/// Appends the findings for group `g` of `def`.
fn append_group_findings(out: &mut Vec<Diagnostic>, def: &PieceDef, g: &str)
    requires
        group_members(*def, g@).len() > 0,
    ensures
        views(final(out)@) == views(old(out)@) + group_findings(*def, g@),
{
    let ghost start = views(out@);
    let idx = group_member_indices(def, g);
    let ghost m = group_members(*def, g@);
    assert(m.len() == idx@.len());
    let first = &def.params[idx[0]];
    proof {
        assert(*first == m[0]);
    }
    let mut any_required = false;
    let mut mixed_port = false;
    let mut mixed_role = false;
    let mut mixed_text = false;
    let mut mixed_inline = false;
    let mut t: usize = 0;
    while t < idx.len()
        invariant
            forall|u: int| 0 <= u < idx@.len() ==> #[trigger] idx@[u] < def.params@.len(),
            m == idx@.map_values(|i: usize| def.params@[i as int]),
            m.len() == idx@.len(),
            m.len() > 0,
            *first == m[0],
            t <= idx@.len(),
            any_required == exists|u: int| 0 <= u < t && #[trigger] m[u].required,
            mixed_port == exists|u: int| 1 <= u < t && param_port(#[trigger] m[u]) != param_port(m[0]),
            mixed_role == exists|u: int| 1 <= u < t && !spec_roles_compatible((#[trigger] m[u]).role, m[0].role),
            mixed_text == exists|u: int| 1 <= u < t && (#[trigger] m[u]).text_semantics@ != m[0].text_semantics@,
            mixed_inline == exists|u: int|
                1 <= u < t && crate::piece::schema_can_inline((#[trigger] m[u]).schema) != crate::piece::schema_can_inline(
                    m[0].schema,
                ),
        decreases idx@.len() - t,
    {
        let p = &def.params[idx[t]];
        proof {
            assert(*p == m[t as int]);
        }
        if p.required {
            any_required = true;
        }
        if t > 0 {
            if !same_port(p, first) {
                mixed_port = true;
            }
            if !roles_compatible(&p.role, &first.role) {
                mixed_role = true;
            }
            if !str_eq(p.text_semantics.as_str(), first.text_semantics.as_str()) {
                mixed_text = true;
            }
            if p.schema.can_inline() != first.schema.can_inline() {
                mixed_inline = true;
            }
        }
        t = t + 1;
    }
    proof {
        let dport = |a: ParamDef, b: ParamDef| param_port(a) != param_port(b);
        let drole = |a: ParamDef, b: ParamDef| !spec_roles_compatible(a.role, b.role);
        let dtext = |a: ParamDef, b: ParamDef| a.text_semantics@ != b.text_semantics@;
        let dinline = |a: ParamDef, b: ParamDef|
            crate::piece::schema_can_inline(a.schema) != crate::piece::schema_can_inline(b.schema);
        assert(mixed_port == some_member_differs(m, dport)) by {
            if mixed_port {
                let u = choose|u: int| 1 <= u < m.len() && param_port(#[trigger] m[u]) != param_port(m[0]);
                assert(dport(m[u], m[0]));
            }
        }
        assert(mixed_role == some_member_differs(m, drole)) by {
            if mixed_role {
                let u = choose|u: int| 1 <= u < m.len() && !spec_roles_compatible((#[trigger] m[u]).role, m[0].role);
                assert(drole(m[u], m[0]));
            }
        }
        assert(mixed_text == some_member_differs(m, dtext)) by {
            if mixed_text {
                let u = choose|u: int| 1 <= u < m.len() && (#[trigger] m[u]).text_semantics@ != m[0].text_semantics@;
                assert(dtext(m[u], m[0]));
            }
        }
        assert(mixed_inline == some_member_differs(m, dinline)) by {
            if mixed_inline {
                let u = choose|u: int|
                    1 <= u < m.len() && crate::piece::schema_can_inline((#[trigger] m[u]).schema)
                        != crate::piece::schema_can_inline(m[0].schema);
                assert(dinline(m[u], m[0]));
            }
        }
    }
    if any_required {
        push_group_finding(out, def, g, &idx, "cannot contain required params");
    }
    proof {
        assert(views(out@) == start + finding_if(
            exists|i: int| 0 <= i < m.len() && #[trigger] m[i].required,
            *def,
            g@,
            "cannot contain required params"@,
        ));
    }
    let ghost s1 = views(out@);
    if mixed_port {
        push_group_finding(out, def, g, &idx, "mixes port types across params");
    }
    let ghost s2 = views(out@);
    if mixed_role {
        push_group_finding(out, def, g, &idx, "mixes roles across params");
    }
    let ghost s3 = views(out@);
    if mixed_text {
        push_group_finding(out, def, g, &idx, "mixes text semantics across params");
    }
    let ghost s4 = views(out@);
    if mixed_inline {
        push_group_finding(out, def, g, &idx, "mixes inline capability across params");
    }
    proof {
        assert(views(out@) =~= start + group_findings(*def, g@));
    }
}

proof fn lemma_members_nonempty(def: PieceDef, g: Seq<char>, j: int, n: int)
    requires
        0 <= j < n <= def.params@.len(),
        in_group(def.params@[j], g),
    ensures
        members_upto(def, g, n).len() > 0,
    decreases n,
{
    if n - 1 > j {
        lemma_members_nonempty(def, g, j, n - 1);
    }
}

/// Findings about the variadic groups of `def`: for each group, in name
/// order, those of `group_findings`.
pub fn variadic_group_diagnostics(def: &PieceDef) -> (r: Vec<Diagnostic>)
    ensures
        views(r@) == variadic_findings(*def, sorted_groups(*def)),
{
    let mut groups: SortedSet<Name> = SortedSet::new();
    let mut j: usize = 0;
    while j < def.params.len()
        invariant
            j <= def.params@.len(),
            forall|g: Seq<char>|
                #[trigger] groups.set_view().contains(g) == exists|k: int| 0 <= k < j && #[trigger] in_group(def.params@[k], g),
        decreases def.params@.len() - j,
    {
        match &def.params[j].variadic_group {
            Some(n) => {
                groups.insert(Name::new(n.as_str()));
            },
            None => {},
        }
        proof {
            assert forall|g: Seq<char>|
                #[trigger] groups.set_view().contains(g) == exists|k: int|
                    0 <= k < j + 1 && #[trigger] in_group(def.params@[k], g) by {
                if in_group(def.params@[j as int], g) {
                    assert(exists|k: int| 0 <= k < j + 1 && #[trigger] in_group(def.params@[k], g));
                }
            }
        }
        j = j + 1;
    }
    let n = groups.len();
    let ghost names = groups.elems();
    proof {
        assert(names.to_set() =~= group_set(*def)) by {
            assert forall|g: Seq<char>| #[trigger] names.to_set().contains(g) implies group_set(*def).contains(g) by {
                let i = choose|i: int| 0 <= i < names.len() && names[i] == g;
                assert(groups.set_view().contains(names[i]));
            }
            assert forall|g: Seq<char>| #[trigger] group_set(*def).contains(g) implies names.to_set().contains(g) by {
                assert(groups.set_view().contains(g));
                let i = choose|i: int| 0 <= i < names.len() && names[i] == g;
                assert(names.contains(g));
            }
        }
    }
    let mut out: Vec<Diagnostic> = Vec::new();
    let mut i: usize = 0;
    while i < n
        invariant
            n == names.len(),
            names == groups.elems(),
            forall|g: Seq<char>|
                #[trigger] groups.set_view().contains(g) == exists|k: int|
                    0 <= k < def.params@.len() && #[trigger] in_group(def.params@[k], g),
            forall|t: int| 0 <= t < names.len() ==> groups.set_view().contains(#[trigger] names[t]),
            i <= n,
            views(out@) == variadic_findings(*def, names.take(i as int)),
        decreases n - i,
    {
        let g = groups.elem_at(i);
        proof {
            assert(groups.set_view().contains(names[i as int]));
            let k = choose|k: int| 0 <= k < def.params@.len() && #[trigger] in_group(def.params@[k], names[i as int]);
            lemma_members_nonempty(*def, names[i as int], k, def.params@.len() as int);
            assert(names.take(i + 1).drop_last() =~= names.take(i as int));
        }
        append_group_findings(&mut out, def, g.0.as_str());
        i = i + 1;
    }
    proof {
        assert(names.take(n as int) =~= names);
        assert(strictly_sorted(names));
        lemma_strictly_sorted_unique(names, sorted_groups(*def));
    }
    out
}

// Checks of the whole registry
// ---------------------------------------------------------------------------

/// The finding for a piece id that two definitions carry.
pub open spec fn duplicate_id_findings(ids: Seq<Seq<char>>) -> Seq<DiagnosticView>
    decreases ids.len(),
{
    if ids.len() == 0 {
        seq![]
    } else {
        duplicate_id_findings(ids.drop_last()).push(
            registry_error("invalid_registry: duplicate piece id '"@ + ids.last() + "'"@),
        )
    }
}

/// The duplicate piece ids of `reg` in increasing order.
pub open spec fn sorted_duplicate_ids(reg: PieceRegistry) -> Seq<Seq<char>> {
    choose|ids: Seq<Seq<char>>| strictly_sorted(ids) && ids.to_set() == reg.duplicate_ids()
}

/// For each of the first `n` parameters of `def` whose id an earlier
/// parameter already has, in order, a finding naming it.
pub open spec fn duplicate_param_findings(def: PieceDef, n: int) -> Seq<DiagnosticView>
    decreases n,
{
    if n <= 0 {
        seq![]
    } else {
        let prev = duplicate_param_findings(def, n - 1);
        if exists|k: int| 0 <= k < n - 1 && #[trigger] def.params@[k].id@ == def.params@[n - 1].id@ {
            prev.push(
                registry_error(
                    "invalid_registry: piece '"@ + def.id@ + "' has duplicate param '"@ + def.params@[n - 1].id@
                        + "'"@,
                ),
            )
        } else {
            prev
        }
    }
}

/// The ids, in declaration order, of the first `n` parameters of `def`
/// declared on side `side`; none for pieces exempt from the side rule.
pub open spec fn declared_side_ids(def: PieceDef, side: TileSide, n: int) -> Seq<Seq<char>>
    decreases n,
{
    if n <= 0 || !spec_counts_toward_side_conflict(def) {
        seq![]
    } else if def.params@[n - 1].side == side {
        declared_side_ids(def, side, n - 1).push(def.params@[n - 1].id@)
    } else {
        declared_side_ids(def, side, n - 1)
    }
}

/// The finding for two or more parameters declared on side `side`, their
/// ids sorted.
pub open spec fn side_findings(def: PieceDef, side: TileSide) -> Seq<DiagnosticView> {
    let ids = declared_side_ids(def, side, def.params@.len() as int);
    if ids.len() >= 2 {
        seq![
            registry_error(
                "invalid_registry: piece '"@ + def.id@ + "' has duplicate default input side "@
                    + crate::ops::validation::side_debug(side) + ": "@ + crate::text::join_texts(
                    crate::text::sort_texts(ids),
                ),
            ),
        ]
    } else {
        seq![]
    }
}

/// What is wrong with one definition, in this order: repeated parameter
/// ids; a connector without exactly one parameter; sides declared by two
/// or more parameters (top, bottom, right, left); an output side without
/// an output; its variadic groups.
pub open spec fn def_findings(def: PieceDef) -> Seq<DiagnosticView> {
    duplicate_param_findings(def, def.params@.len() as int) + connector_findings(def) + side_findings(
        def,
        TileSide::TOP,
    ) + side_findings(def, TileSide::BOTTOM) + side_findings(def, TileSide::RIGHT) + side_findings(
        def,
        TileSide::LEFT,
    ) + output_side_findings(def) + variadic_findings(def, sorted_groups(def))
}

/// The finding for a connector that does not declare exactly one parameter.
pub open spec fn connector_findings(def: PieceDef) -> Seq<DiagnosticView> {
    if crate::piece::spec_is_connector(def) && def.params@.len() != 1 {
        seq![
            registry_error(
                "invalid_registry: connector piece '"@ + def.id@ + "' must declare exactly one input param"@,
            ),
        ]
    } else {
        seq![]
    }
}

/// The finding for an output side on a piece without an output.
pub open spec fn output_side_findings(def: PieceDef) -> Seq<DiagnosticView> {
    if def.output_side is Some && !spec_has_output(def) {
        seq![
            registry_error(
                "invalid_registry: piece '"@ + def.id@ + "' cannot declare an output side without an output"@,
            ),
        ]
    } else {
        seq![]
    }
}

/// The findings of the first `n` definitions, one after another.
pub open spec fn defs_findings(defs: Seq<PieceDef>, n: int) -> Seq<DiagnosticView>
    decreases n,
{
    if n <= 0 {
        seq![]
    } else {
        defs_findings(defs, n - 1) + def_findings(defs[n - 1])
    }
}

/// Everything wrong with a registry: its duplicate piece ids, then the
/// findings of each definition in id order.
pub open spec fn registry_findings(reg: PieceRegistry) -> Seq<DiagnosticView> {
    duplicate_id_findings(sorted_duplicate_ids(reg)) + defs_findings(
        reg.defs_in_order(),
        reg.defs_in_order().len() as int,
    )
}

fn push_reason(out: &mut Vec<Diagnostic>, buf: &Vec<char>)
    ensures
        views(final(out)@) == views(old(out)@).push(registry_error(buf@)),
{
    let reason = string_of_chars(buf.as_slice());
    let ghost before = out@;
    out.push(invalid_registry_diagnostic(reason));
    proof {
        assert(views(out@) =~= views(before).push(registry_error(buf@)));
    }
}

fn side_ids_of(def: &PieceDef, side: TileSide) -> (r: Vec<String>)
    ensures
        crate::text::texts(r@) == declared_side_ids(*def, side, def.params@.len() as int),
{
    let mut out: Vec<String> = Vec::new();
    let counts = param_counts_toward_side_conflict_of(def);
    let mut j: usize = 0;
    while j < def.params.len()
        invariant
            j <= def.params@.len(),
            counts == spec_counts_toward_side_conflict(*def),
            crate::text::texts(out@) == declared_side_ids(*def, side, j as int),
        decreases def.params@.len() - j,
    {
        let ghost before = out@;
        if counts && def.params[j].side == side {
            out.push(def.params[j].id.clone());
            proof {
                assert(crate::text::texts(out@) =~= crate::text::texts(before).push(def.params@[j as int].id@));
            }
        }
        j = j + 1;
    }
    out
}

fn param_counts_toward_side_conflict_of(def: &PieceDef) -> (r: bool)
    ensures
        r == spec_counts_toward_side_conflict(*def),
{
    !(str_eq(def.id.as_str(), SUBGRAPH_INPUT_1_ID) || str_eq(def.id.as_str(), SUBGRAPH_INPUT_2_ID) || str_eq(
        def.id.as_str(),
        SUBGRAPH_INPUT_3_ID,
    ))
}

fn append_side_findings(out: &mut Vec<Diagnostic>, def: &PieceDef, side: TileSide, side_name: &str)
    requires
        side_name@ == crate::ops::validation::side_debug(side),
    ensures
        views(final(out)@) == views(old(out)@) + side_findings(*def, side),
{
    let ghost start = views(out@);
    let ids = side_ids_of(def, side);
    if ids.len() < 2 {
        proof {
            assert(start + side_findings(*def, side) =~= start);
        }
        return;
    }
    let sorted = crate::text::sort_texts_of(&ids);
    let mut buf: Vec<char> = Vec::new();
    append_str(&mut buf, "invalid_registry: piece '");
    append_str(&mut buf, def.id.as_str());
    append_str(&mut buf, "' has duplicate default input side ");
    append_str(&mut buf, side_name);
    append_str(&mut buf, ": ");
    crate::text::append_joined(&mut buf, &sorted);
    push_reason(out, &buf);
    proof {
        assert(views(out@) =~= start + side_findings(*def, side));
    }
}

fn append_duplicate_param_findings(out: &mut Vec<Diagnostic>, def: &PieceDef)
    ensures
        views(final(out)@) == views(old(out)@) + duplicate_param_findings(*def, def.params@.len() as int),
{
    let ghost start = views(out@);
    let mut seen: SortedSet<Name> = SortedSet::new();
    let mut j: usize = 0;
    while j < def.params.len()
        invariant
            j <= def.params@.len(),
            forall|x: Seq<char>|
                #[trigger] seen.set_view().contains(x) == exists|k: int| 0 <= k < j && #[trigger] def.params@[k].id@ == x,
            views(out@) == start + duplicate_param_findings(*def, j as int),
        decreases def.params@.len() - j,
    {
        let param = &def.params[j];
        let ghost pj = def.params@[j as int].id@;
        let fresh = seen.insert(Name::new(param.id.as_str()));
        if !fresh {
            let mut buf: Vec<char> = Vec::new();
            append_str(&mut buf, "invalid_registry: piece '");
            append_str(&mut buf, def.id.as_str());
            append_str(&mut buf, "' has duplicate param '");
            append_str(&mut buf, param.id.as_str());
            append_str(&mut buf, "'");
            push_reason(out, &buf);
        }
        proof {
            assert forall|x: Seq<char>|
                #[trigger] seen.set_view().contains(x) == exists|k: int| 0 <= k < j + 1 && #[trigger] def.params@[k].id@ == x by {
                if x == pj {
                    assert(def.params@[j as int].id@ == x);
                }
            }
            assert(views(out@) =~= start + duplicate_param_findings(*def, j + 1));
        }
        j = j + 1;
    }
}

fn append_connector_findings(out: &mut Vec<Diagnostic>, def: &PieceDef)
    ensures
        views(final(out)@) == views(old(out)@) + connector_findings(*def),
{
    let ghost start = views(out@);
    if def.is_connector() && def.connector_param().is_none() {
        let mut buf: Vec<char> = Vec::new();
        append_str(&mut buf, "invalid_registry: connector piece '");
        append_str(&mut buf, def.id.as_str());
        append_str(&mut buf, "' must declare exactly one input param");
        push_reason(out, &buf);
    }
    proof {
        assert(views(out@) =~= start + connector_findings(*def));
    }
}

fn append_output_side_findings(out: &mut Vec<Diagnostic>, def: &PieceDef)
    ensures
        views(final(out)@) == views(old(out)@) + output_side_findings(*def),
{
    let ghost start = views(out@);
    if def.output_side.is_some() && !def.has_output() {
        let mut buf: Vec<char> = Vec::new();
        append_str(&mut buf, "invalid_registry: piece '");
        append_str(&mut buf, def.id.as_str());
        append_str(&mut buf, "' cannot declare an output side without an output");
        push_reason(out, &buf);
    }
    proof {
        assert(views(out@) =~= start + output_side_findings(*def));
    }
}

/// The findings of one definition (see `def_findings`).
fn append_def_findings(out: &mut Vec<Diagnostic>, def: &PieceDef)
    ensures
        views(final(out)@) == views(old(out)@) + def_findings(*def),
{
    let ghost s0 = views(out@);
    append_duplicate_param_findings(out, def);
    append_connector_findings(out, def);
    append_side_findings(out, def, TileSide::TOP, "TOP");
    append_side_findings(out, def, TileSide::BOTTOM, "BOTTOM");
    append_side_findings(out, def, TileSide::RIGHT, "RIGHT");
    append_side_findings(out, def, TileSide::LEFT, "LEFT");
    append_output_side_findings(out, def);
    let ghost s7 = views(out@);
    let mut extra = variadic_group_diagnostics(def);
    let ghost gv = views(extra@);
    out.append(&mut extra);
    proof {
        assert(views(out@) =~= s7 + gv);
        assert(views(out@) =~= s0 + def_findings(*def));
    }
}

/// Everything wrong with a registry (see `registry_findings`).
pub fn registry_sanity_diagnostics(registry: &PieceRegistry) -> (r: Vec<Diagnostic>)
    ensures
        views(r@) == registry_findings(*registry),
{
    let mut out: Vec<Diagnostic> = Vec::new();
    let ids = registry.duplicate_piece_ids();
    proof {
        lemma_strictly_sorted_unique(crate::text::texts(ids@), sorted_duplicate_ids(*registry));
    }
    let mut t: usize = 0;
    while t < ids.len()
        invariant
            t <= ids@.len(),
            views(out@) == duplicate_id_findings(crate::text::texts(ids@).take(t as int)),
        decreases ids@.len() - t,
    {
        let mut buf: Vec<char> = Vec::new();
        append_str(&mut buf, "invalid_registry: duplicate piece id '");
        append_str(&mut buf, ids[t].as_str());
        append_str(&mut buf, "'");
        push_reason(&mut out, &buf);
        proof {
            assert(crate::text::texts(ids@).take(t + 1).drop_last() =~= crate::text::texts(ids@).take(t as int));
            assert(views(out@) =~= duplicate_id_findings(crate::text::texts(ids@).take(t + 1)));
        }
        t = t + 1;
    }
    proof {
        assert(crate::text::texts(ids@).take(ids@.len() as int) =~= crate::text::texts(ids@));
    }
    let ghost head = views(out@);
    let n = registry.len();
    let mut i: usize = 0;
    while i < n
        invariant
            n == registry.defs_in_order().len(),
            i <= n,
            views(out@) == head + defs_findings(registry.defs_in_order(), i as int),
        decreases n - i,
    {
        let def = registry.def_at(i);
        append_def_findings(&mut out, def);
        proof {
            assert(views(out@) =~= head + defs_findings(registry.defs_in_order(), i + 1));
        }
        i = i + 1;
    }
    out
}

// Curating findings
// ---------------------------------------------------------------------------

/// A keyed finding as plain values.
pub open spec fn keyed_view(x: (Diagnostic, String)) -> (DiagnosticView, Seq<char>) {
    (x.0@, x.1@)
}

/// The views of a list of keyed findings.
pub open spec fn keyed_views(s: Seq<(Diagnostic, String)>) -> Seq<(DiagnosticView, Seq<char>)> {
    s.map_values(|x: (Diagnostic, String)| keyed_view(x))
}

/// Errors first, then warnings, then notes.
pub open spec fn severity_rank(s: crate::diagnostics::DiagnosticSeverity) -> int {
    match s {
        crate::diagnostics::DiagnosticSeverity::Error => 0,
        crate::diagnostics::DiagnosticSeverity::Warning => 1,
        crate::diagnostics::DiagnosticSeverity::Info => 2,
    }
}

/// No site sorts first, then sites in grid order.
pub open spec fn site_lt(a: Option<GridPos>, b: Option<GridPos>) -> bool {
    match (a, b) {
        (None, Some(_)) => true,
        (Some(x), Some(y)) => crate::types::grid_lt(x, y),
        _ => false,
    }
}

/// No edge sorts first, then edges by id.
pub open spec fn edge_lt(a: Option<u128>, b: Option<u128>) -> bool {
    match (a, b) {
        (None, Some(_)) => true,
        (Some(x), Some(y)) => x < y,
        _ => false,
    }
}

/// Findings sort by severity, then site, then edge, then kind text.
pub open spec fn finding_lt(a: (DiagnosticView, Seq<char>), b: (DiagnosticView, Seq<char>)) -> bool {
    let (da, ka) = a;
    let (db, kb) = b;
    ||| severity_rank(da.severity) < severity_rank(db.severity)
    ||| severity_rank(da.severity) == severity_rank(db.severity) && site_lt(da.site, db.site)
    ||| severity_rank(da.severity) == severity_rank(db.severity) && da.site == db.site && edge_lt(da.edge_id, db.edge_id)
    ||| severity_rank(da.severity) == severity_rank(db.severity) && da.site == db.site && da.edge_id == db.edge_id
        && crate::text::seq_lt(ka, kb)
}

/// Two findings have the same severity, site, edge and kind text.
pub open spec fn same_finding_key(a: (DiagnosticView, Seq<char>), b: (DiagnosticView, Seq<char>)) -> bool {
    a.0.severity == b.0.severity && a.0.site == b.0.site && a.0.edge_id == b.0.edge_id && a.1 == b.1
}

/// `x` placed before the first finding of `s` that sorts after it.
pub open spec fn insert_finding(s: Seq<(DiagnosticView, Seq<char>)>, x: (DiagnosticView, Seq<char>)) -> Seq<
    (DiagnosticView, Seq<char>),
>
    decreases s.len(),
{
    if s.len() == 0 {
        seq![x]
    } else if finding_lt(x, s[0]) {
        seq![x] + s
    } else {
        seq![s[0]] + insert_finding(s.drop_first(), x)
    }
}

/// The findings in sort order, equal ones in their given order.
pub open spec fn sort_findings(s: Seq<(DiagnosticView, Seq<char>)>) -> Seq<(DiagnosticView, Seq<char>)>
    decreases s.len(),
{
    if s.len() == 0 {
        s
    } else {
        insert_finding(sort_findings(s.drop_last()), s.last())
    }
}

/// The kinds that report a broken edge.
pub open spec fn is_structural(k: KindView) -> bool {
    match k {
        KindView::UnknownNode { .. } => true,
        KindView::UnknownParam { .. } => true,
        KindView::DuplicateConnection { .. } => true,
        KindView::NotAdjacent { .. } => true,
        KindView::SideMismatch { .. } => true,
        KindView::OutputFromTerminal { .. } => true,
        _ => false,
    }
}

/// The edges that some finding of `s` reports as broken.
pub open spec fn structural_edges(s: Seq<(DiagnosticView, Seq<char>)>) -> Set<u128> {
    Set::new(
        |e: u128|
            exists|i: int| 0 <= i < s.len() && #[trigger] s[i].0.edge_id == Some(e) && is_structural(s[i].0.kind),
    )
}

/// A type finding on an edge already reported as broken.
pub open spec fn shadowed(x: (DiagnosticView, Seq<char>), broken: Set<u128>) -> bool {
    &&& x.0.edge_id matches Some(e) && broken.contains(e)
    &&& (x.0.kind is TypeMismatch || x.0.kind is UnsupportedDomainCrossing)
}

/// The findings kept among the first `n` of `s`: each one that is not
/// shadowed and whose key no finding kept before it has.
pub open spec fn kept_findings(s: Seq<(DiagnosticView, Seq<char>)>, broken: Set<u128>, n: int) -> Seq<
    (DiagnosticView, Seq<char>),
>
    decreases n,
{
    if n <= 0 {
        seq![]
    } else {
        let prev = kept_findings(s, broken, n - 1);
        let x = s[n - 1];
        if shadowed(x, broken) || exists|j: int| 0 <= j < prev.len() && #[trigger] same_finding_key(prev[j], x) {
            prev
        } else {
            prev.push(x)
        }
    }
}

/// Findings curated: sorted by severity, site, edge and kind text; type
/// findings on edges reported as broken dropped; repeats of a key dropped.
pub open spec fn curated(items: Seq<(DiagnosticView, Seq<char>)>) -> Seq<DiagnosticView> {
    let s = sort_findings(items);
    kept_findings(s, structural_edges(s), s.len() as int).map_values(|x: (DiagnosticView, Seq<char>)| x.0)
}

fn diagnostic_severity_rank(s: crate::diagnostics::DiagnosticSeverity) -> (r: u8)
    ensures
        r == severity_rank(s),
{
    match s {
        crate::diagnostics::DiagnosticSeverity::Error => 0,
        crate::diagnostics::DiagnosticSeverity::Warning => 1,
        crate::diagnostics::DiagnosticSeverity::Info => 2,
    }
}

fn site_before(a: Option<GridPos>, b: Option<GridPos>) -> (r: bool)
    ensures
        r == site_lt(a, b),
{
    match (a, b) {
        (None, Some(_)) => true,
        (Some(x), Some(y)) => x.col < y.col || (x.col == y.col && x.row < y.row),
        _ => false,
    }
}

fn edge_bits(e: &Option<EdgeId>) -> (r: Option<u128>)
    ensures
        r == match *e {
            Some(id) => Some(id@),
            None => None::<u128>,
        },
{
    match e {
        Some(id) => Some(id.bits()),
        None => None,
    }
}

fn finding_before(a: &(Diagnostic, String), b: &(Diagnostic, String)) -> (r: bool)
    ensures
        r == finding_lt(keyed_view(*a), keyed_view(*b)),
{
    let ra = diagnostic_severity_rank(a.0.severity);
    let rb = diagnostic_severity_rank(b.0.severity);
    if ra != rb {
        return ra < rb;
    }
    if a.0.site != b.0.site {
        return site_before(a.0.site, b.0.site);
    }
    let ea = edge_bits(&a.0.edge_id);
    let eb = edge_bits(&b.0.edge_id);
    if ea != eb {
        return match (ea, eb) {
            (None, Some(_)) => true,
            (Some(x), Some(y)) => x < y,
            _ => false,
        };
    }
    crate::text::compare_str(a.1.as_str(), b.1.as_str()) < 0
}

fn same_key(a: &(Diagnostic, String), b: &(Diagnostic, String)) -> (r: bool)
    ensures
        r == same_finding_key(keyed_view(*a), keyed_view(*b)),
{
    a.0.severity == b.0.severity && a.0.site == b.0.site && edge_bits(&a.0.edge_id) == edge_bits(&b.0.edge_id)
        && str_eq(a.1.as_str(), b.1.as_str())
}

proof fn lemma_insert_finding_at(s: Seq<(DiagnosticView, Seq<char>)>, x: (DiagnosticView, Seq<char>), p: int)
    requires
        0 <= p <= s.len(),
        forall|j: int| 0 <= j < p ==> !finding_lt(x, #[trigger] s[j]),
        p == s.len() || finding_lt(x, s[p]),
    ensures
        insert_finding(s, x) == s.take(p) + seq![x] + s.skip(p),
    decreases p,
{
    if p == 0 {
        if s.len() == 0 {
            assert(s.take(0) + seq![x] + s.skip(0) =~= seq![x]);
        } else {
            assert(s.take(0) + seq![x] + s.skip(0) =~= seq![x] + s);
        }
    } else {
        let t = s.drop_first();
        assert forall|j: int| 0 <= j < p - 1 implies !finding_lt(x, #[trigger] t[j]) by {
            assert(t[j] == s[j + 1]);
        }
        if p < s.len() {
            assert(t[p - 1] == s[p]);
        }
        lemma_insert_finding_at(t, x, p - 1);
        assert(!finding_lt(x, s[0]));
        assert(seq![s[0]] + (t.take(p - 1) + seq![x] + t.skip(p - 1)) =~= s.take(p) + seq![x] + s.skip(p));
    }
}

fn sort_keyed(items: Vec<(Diagnostic, String)>) -> (r: Vec<(Diagnostic, String)>)
    ensures
        keyed_views(r@) == sort_findings(keyed_views(items@)),
{
    let ghost all = keyed_views(items@);
    let mut rest = items;
    let mut out: Vec<(Diagnostic, String)> = Vec::new();
    let ghost mut taken: int = 0;
    while rest.len() > 0
        invariant
            0 <= taken <= all.len(),
            keyed_views(rest@) == all.skip(taken),
            keyed_views(out@) == sort_findings(all.take(taken)),
        decreases rest@.len(),
    {
        let ghost rest_before = rest@;
        let x = rest.remove(0);
        proof {
            assert(keyed_views(rest_before).len() == rest_before.len());
            assert(keyed_views(rest_before)[0] == keyed_view(rest_before[0]));
            assert(all.skip(taken)[0] == all[taken]);
            assert(keyed_view(x) == all[taken]);
            assert forall|k: int| 0 <= k < rest@.len() implies #[trigger] keyed_views(rest@)[k] == all.skip(taken + 1)[k] by {
                assert(rest@[k] == rest_before[k + 1]);
                assert(keyed_views(rest_before)[k + 1] == keyed_view(rest_before[k + 1]));
                assert(all.skip(taken)[k + 1] == all.skip(taken + 1)[k]);
            }
            assert(keyed_views(rest@) =~= all.skip(taken + 1));
        }
        let mut p: usize = 0;
        while p < out.len() && !finding_before(&x, &out[p])
            invariant
                p <= out@.len(),
                forall|j: int| 0 <= j < p ==> !finding_lt(keyed_view(x), #[trigger] keyed_views(out@)[j]),
            decreases out@.len() - p,
        {
            p = p + 1;
        }
        let ghost before = keyed_views(out@);
        proof {
            lemma_insert_finding_at(before, keyed_view(x), p as int);
            assert(all.take(taken + 1).drop_last() =~= all.take(taken));
            assert(all.take(taken + 1).last() == keyed_view(x));
        }
        out.insert(p, x);
        proof {
            assert(keyed_views(out@) =~= before.take(p as int) + seq![keyed_view(x)] + before.skip(p as int));
            taken = taken + 1;
        }
    }
    proof {
        assert(all.skip(taken).len() == 0);
        assert(all.take(taken) =~= all);
    }
    out
}

fn kind_is_structural(k: &DiagnosticKind) -> (r: bool)
    ensures
        r == is_structural(k@),
{
    match k {
        DiagnosticKind::UnknownNode { .. } => true,
        DiagnosticKind::UnknownParam { .. } => true,
        DiagnosticKind::DuplicateConnection { .. } => true,
        DiagnosticKind::NotAdjacent { .. } => true,
        DiagnosticKind::SideMismatch { .. } => true,
        DiagnosticKind::OutputFromTerminal { .. } => true,
        _ => false,
    }
}

fn kind_is_type_finding(k: &DiagnosticKind) -> (r: bool)
    ensures
        r == (k@ is TypeMismatch || k@ is UnsupportedDomainCrossing),
{
    match k {
        DiagnosticKind::TypeMismatch { .. } => true,
        DiagnosticKind::UnsupportedDomainCrossing { .. } => true,
        _ => false,
    }
}

/// Curates findings (see `curated`), each given with the JSON text of its
/// kind, which orders findings of equal severity, site and edge.
pub fn curate_diagnostics(diagnostics: Vec<(Diagnostic, String)>) -> (r: Vec<Diagnostic>)
    ensures
        views(r@) == curated(keyed_views(diagnostics@)),
{
    let mut sorted = sort_keyed(diagnostics);
    let ghost s = keyed_views(sorted@);
    let mut broken: SortedSet<EdgeId> = SortedSet::new();
    let n = sorted.len();
    let mut i: usize = 0;
    while i < n
        invariant
            n == sorted@.len(),
            s == keyed_views(sorted@),
            i <= n,
            forall|e: u128|
                #[trigger] broken.set_view().contains(e) == exists|k: int|
                    0 <= k < i && #[trigger] s[k].0.edge_id == Some(e) && is_structural(s[k].0.kind),
        decreases n - i,
    {
        let d = &sorted[i].0;
        let ghost si = s[i as int];
        proof {
            assert(si == keyed_view(sorted@[i as int]));
        }
        match &d.edge_id {
            Some(e) => {
                if kind_is_structural(&d.kind) {
                    broken.insert(*e);
                }
            },
            None => {},
        }
        proof {
            assert forall|e: u128|
                #[trigger] broken.set_view().contains(e) == exists|k: int|
                    0 <= k < i + 1 && #[trigger] s[k].0.edge_id == Some(e) && is_structural(s[k].0.kind) by {
                if si.0.edge_id == Some(e) && is_structural(si.0.kind) {
                    assert(s[i as int].0.edge_id == Some(e));
                }
            }
        }
        i = i + 1;
    }
    let ghost brk = structural_edges(s);
    proof {
        assert(broken.set_view() =~= brk);
    }
    let mut kept: Vec<(Diagnostic, String)> = Vec::new();
    let ghost mut t: int = 0;
    while sorted.len() > 0
        invariant
            0 <= t <= s.len(),
            keyed_views(sorted@) == s.skip(t),
            broken.set_view() == brk,
            keyed_views(kept@) == kept_findings(s, brk, t),
        decreases sorted@.len(),
    {
        let ghost rest_before = sorted@;
        let x = sorted.remove(0);
        proof {
            assert(keyed_views(rest_before).len() == rest_before.len());
            assert(keyed_views(rest_before)[0] == keyed_view(rest_before[0]));
            assert(s.skip(t)[0] == s[t]);
            assert(keyed_view(x) == s[t]);
            assert forall|k: int| 0 <= k < sorted@.len() implies #[trigger] keyed_views(sorted@)[k] == s.skip(t + 1)[k] by {
                assert(sorted@[k] == rest_before[k + 1]);
                assert(keyed_views(rest_before)[k + 1] == keyed_view(rest_before[k + 1]));
                assert(s.skip(t)[k + 1] == s.skip(t + 1)[k]);
            }
            assert(keyed_views(sorted@) =~= s.skip(t + 1));
        }
        let shadow = match &x.0.edge_id {
            Some(e) => broken.contains(e) && kind_is_type_finding(&x.0.kind),
            None => false,
        };
        let mut repeated = false;
        let mut j: usize = 0;
        while j < kept.len()
            invariant
                j <= kept@.len(),
                repeated == exists|u: int| 0 <= u < j && #[trigger] same_finding_key(keyed_views(kept@)[u], keyed_view(x)),
            decreases kept@.len() - j,
        {
            if same_key(&kept[j], &x) {
                repeated = true;
            }
            proof {
                assert(keyed_views(kept@)[j as int] == keyed_view(kept@[j as int]));
            }
            j = j + 1;
        }
        let ghost before = keyed_views(kept@);
        if !shadow && !repeated {
            kept.push(x);
            proof {
                assert(keyed_views(kept@) =~= before.push(s[t]));
            }
        }
        proof {
            assert(shadow == shadowed(s[t], brk));
            t = t + 1;
        }
    }
    let mut out: Vec<Diagnostic> = Vec::new();
    let ghost fin = keyed_views(kept@);
    let ghost mut u: int = 0;
    while kept.len() > 0
        invariant
            0 <= u <= fin.len(),
            keyed_views(kept@) == fin.skip(u),
            views(out@) == fin.take(u).map_values(|x: (DiagnosticView, Seq<char>)| x.0),
        decreases kept@.len(),
    {
        let ghost rest_before = kept@;
        let (d, _key) = kept.remove(0);
        proof {
            assert(keyed_views(rest_before).len() == rest_before.len());
            assert(keyed_views(rest_before)[0] == keyed_view(rest_before[0]));
            assert(fin.skip(u)[0] == fin[u]);
            assert(d@ == fin[u].0);
            assert forall|k: int| 0 <= k < kept@.len() implies #[trigger] keyed_views(kept@)[k] == fin.skip(u + 1)[k] by {
                assert(kept@[k] == rest_before[k + 1]);
                assert(keyed_views(rest_before)[k + 1] == keyed_view(rest_before[k + 1]));
                assert(fin.skip(u)[k + 1] == fin.skip(u + 1)[k]);
            }
            assert(keyed_views(kept@) =~= fin.skip(u + 1));
        }
        let ghost before = views(out@);
        out.push(d);
        proof {
            assert(views(out@) =~= before.push(fin[u].0));
            assert(fin.take(u + 1).map_values(|x: (DiagnosticView, Seq<char>)| x.0) =~= fin.take(u).map_values(
                |x: (DiagnosticView, Seq<char>)| x.0,
            ).push(fin[u].0));
            u = u + 1;
        }
    }
    proof {
        assert(fin.skip(u).len() == 0);
        assert(fin.take(u) =~= fin);
    }
    out
}

} // verus!
