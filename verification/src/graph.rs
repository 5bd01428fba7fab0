//! Graphs: pieces placed on a grid and the edges that feed one node's output
//! into a parameter of a neighbour.

use vstd::prelude::*;

use crate::collections::{OrderedKey, SortedMap, SortedSet};
use crate::diagnostics::{edge_error_view, error_view, Diagnostic, DiagnosticKind, DiagnosticView, KindView};
use crate::piece::PieceDef;
use crate::piece_registry::PieceRegistry;
use crate::text::{
    append_decimal, append_str, compare_str, decimal, lemma_seq_lt_irreflexive, lemma_seq_lt_total,
    lemma_seq_lt_transitive, seq_lt, str_eq, string_of_chars, Name,
};
use crate::types::{grid_lt, EdgeId, GridPos, TileSide};

verus! {

broadcast use vstd::set::group_set_axioms;

/// One placed piece instance.
#[derive(Debug)]
pub struct Node {
    /// The registered piece id, such as `strudel.fast`.
    pub piece_id: String,
    /// Inline parameter values, by parameter id.
    pub inline_params: SortedMap<Name, serde_json::Value>,
    /// Sides assigned to parameters on this node, by parameter id.
    pub input_sides: SortedMap<Name, TileSide>,
    /// The output side chosen on this node, if any.
    pub output_side: Option<TileSide>,
    /// A display name.
    pub label: Option<String>,
    /// State kept by stateful pieces.
    pub node_state: Option<serde_json::Value>,
}

/// A connection from a node's output into parameter `to_param` of `to_node`.
#[derive(Debug)]
pub struct Edge {
    pub id: EdgeId,
    pub from: GridPos,
    pub to_node: GridPos,
    pub to_param: String,
}

/// An edge with its id as a number and its parameter name as text.
pub struct EdgeView {
    pub id: u128,
    pub from: GridPos,
    pub to_node: GridPos,
    pub to_param: Seq<char>,
}

impl View for Edge {
    type V = EdgeView;

    open spec fn view(&self) -> EdgeView {
        EdgeView { id: self.id@, from: self.from, to_node: self.to_node, to_param: self.to_param@ }
    }
}

/// The views of the edges of a map of edges.
pub open spec fn edge_views(m: Map<u128, Edge>) -> Map<u128, EdgeView> {
    m.map_values(|e: Edge| e@)
}

impl Clone for Edge {
    fn clone(&self) -> (r: Self)
        ensures
            r == *self,
    {
        Edge { id: self.id.clone(), from: self.from, to_node: self.to_node, to_param: self.to_param.clone() }
    }
}

/// The width a graph gets when its document gives none.
pub fn default_grid_cols() -> (r: u32)
    ensures
        r == 14,
{
    14
}

/// The height a graph gets when its document gives none.
pub fn default_grid_rows() -> (r: u32)
    ensures
        r == 6,
{
    6
}

/// A grid of `cols` by `rows` cells with nodes by position and edges by id.
#[derive(Debug)]
pub struct Graph {
    pub nodes: SortedMap<GridPos, Node>,
    pub edges: SortedMap<EdgeId, Edge>,
    pub name: String,
    pub cols: u32,
    pub rows: u32,
}

/// An edge to create while placing a batch of nodes.
#[derive(Debug)]
pub struct BatchPlaceEdge {
    pub from: GridPos,
    pub to_node: GridPos,
    pub to_param: String,
}

/// A node to place as part of a batch.
#[derive(Debug)]
pub struct BatchPlaceEntry {
    pub position: GridPos,
    pub piece_id: String,
    pub inline_params: SortedMap<Name, serde_json::Value>,
    pub input_sides: SortedMap<Name, TileSide>,
    pub output_side: Option<TileSide>,
    pub label: Option<String>,
}

/// The mutations a graph understands.
#[derive(Debug)]
pub enum GraphOp {
    /// Place a new node at an empty cell.
    NodePlace { position: GridPos, piece_id: String, inline_params: SortedMap<Name, serde_json::Value> },
    /// Place several nodes at once, with explicit edges and optional auto-wiring.
    NodeBatchPlace { nodes: Vec<BatchPlaceEntry>, edges: Vec<BatchPlaceEdge>, auto_wire: bool },
    /// Move a node from one cell to another.
    NodeMove { from: GridPos, to: GridPos },
    /// Swap the cells of two nodes.
    NodeSwap { a: GridPos, b: GridPos },
    /// Remove a node and the edges it touches.
    NodeRemove { position: GridPos },
    /// Connect an edge.
    EdgeConnect { edge_id: Option<EdgeId>, from: GridPos, to_node: GridPos, to_param: String },
    /// Remove an edge by id.
    EdgeDisconnect { edge_id: EdgeId },
    /// Set an inline parameter value.
    ParamSetInline { position: GridPos, param_id: String, value: serde_json::Value },
    /// Clear an inline parameter value.
    ParamClearInline { position: GridPos, param_id: String },
    /// Choose the side a parameter takes input from.
    ParamSetSide { position: GridPos, param_id: String, side: TileSide },
    /// Drop a parameter's side choice.
    ParamClearSide { position: GridPos, param_id: String },
    /// Choose the side a node sends output from.
    OutputSetSide { position: GridPos, side: TileSide },
    /// Drop a node's output side choice.
    OutputClearSide { position: GridPos },
    /// Wire a node to its neighbours again.
    NodeAutoWire { position: GridPos },
    /// Set or clear a node's label.
    NodeSetLabel { position: GridPos, label: Option<String> },
    /// Set or clear a stateful node's state.
    NodeSetState { position: GridPos, state: Option<serde_json::Value> },
    /// Change the grid's size.
    ResizeGrid { cols: u32, rows: u32 },
}

/// What applying a batch of operations did and how to undo it.
#[derive(Debug)]
pub struct GraphOpRecord {
    pub do_ops: Vec<GraphOp>,
    pub undo_ops: Vec<GraphOp>,
    pub removed_edges: Vec<Edge>,
}

/// A named graph in the document format of schema version 2.
#[derive(Debug)]
pub struct ProjectDocument {
    pub schema_version: u32,
    pub name: String,
    pub graph: Graph,
}

impl ProjectDocument {
    /// The schema version this document format has.
    pub const SCHEMA_VERSION: u32 = 2;

    /// A document of the current schema version holding `graph`.
    pub fn new(name: String, graph: Graph) -> (r: Self)
        ensures
            r.schema_version == 2,
            r.name == name,
            r.graph == graph,
    {
        ProjectDocument { schema_version: Self::SCHEMA_VERSION, name, graph }
    }
}

/// Some edge of `g` runs from `a` into `b`.
pub open spec fn edge_links(g: Graph, a: GridPos, b: GridPos) -> bool {
    exists|id: u128| #[trigger]
        g.edges.as_map().contains_key(id) && g.edges.as_map()[id].from == a && g.edges.as_map()[id].to_node == b
}

/// `path` follows edges of `g` from its first cell to its last.
pub open spec fn is_edge_path(g: Graph, path: Seq<GridPos>) -> bool {
    &&& path.len() >= 1
    &&& forall|i: int| 0 <= i < path.len() - 1 ==> edge_links(g, #[trigger] path[i], path[i + 1])
}

/// Following edges forward from `p` leads to one of `terminals` (in no
/// steps when `p` is one of them).
pub open spec fn feeds_into(g: Graph, p: GridPos, terminals: Seq<GridPos>) -> bool {
    exists|path: Seq<GridPos>| #[trigger]
        is_edge_path(g, path) && path[0] == p && terminals.contains(path.last())
}

/// The `int` value of `v as i32`.
pub open spec fn as_i32(v: u32) -> int {
    if v <= 0x7fff_ffff {
        v as int
    } else {
        v - 0x1_0000_0000
    }
}

/// `pos` lies on the grid: column in `0..cols` and row in `0..rows`, with the
/// bounds read as `i32`.
pub open spec fn spec_in_bounds(g: Graph, pos: GridPos) -> bool {
    0 <= pos.col < as_i32(g.cols) && 0 <= pos.row < as_i32(g.rows)
}

fn u32_as_i64(v: u32) -> (r: i64)
    ensures
        r == as_i32(v),
{
    if v <= 0x7fff_ffff {
        v as i64
    } else {
        v as i64 - 0x1_0000_0000
    }
}

/// Every cell of a set that closes under feeding edges and holds the
/// terminals feeds into a terminal only if it is in the set.
proof fn lemma_closed_holds_feeders(g: Graph, r: Set<GridPos>, terminals: Seq<GridPos>, path: Seq<GridPos>, i: int)
    requires
        forall|t: GridPos| terminals.contains(t) ==> r.contains(t),
        forall|a: GridPos, b: GridPos| r.contains(b) && #[trigger] edge_links(g, a, b) ==> r.contains(a),
        is_edge_path(g, path),
        terminals.contains(path.last()),
        0 <= i < path.len(),
    ensures
        r.contains(path[i]),
    decreases path.len() - i,
{
    if i < path.len() - 1 {
        lemma_closed_holds_feeders(g, r, terminals, path, i + 1);
        assert(edge_links(g, path[i], path[i + 1]));
    }
}

/// A cell that links into a feeder is a feeder too.
proof fn lemma_feeder_extends(g: Graph, a: GridPos, b: GridPos, terminals: Seq<GridPos>)
    requires
        edge_links(g, a, b),
        feeds_into(g, b, terminals),
    ensures
        feeds_into(g, a, terminals),
{
    let path = choose|path: Seq<GridPos>| is_edge_path(g, path) && path[0] == b && terminals.contains(path.last());
    let longer = seq![a] + path;
    assert forall|i: int| 0 <= i < longer.len() - 1 implies edge_links(g, #[trigger] longer[i], longer[i + 1]) by {
        if i > 0 {
            assert(longer[i] == path[i - 1]);
            assert(longer[i + 1] == path[i]);
        }
    }
    assert(longer.last() == path.last());
    assert(is_edge_path(g, longer));
}

/// A parameter slot of a node: the node's cell and the parameter id.
pub(crate) struct Slot {
    pub(crate) pos: GridPos,
    pub(crate) param: String,
}

impl View for Slot {
    type V = (GridPos, Seq<char>);

    closed spec fn view(&self) -> (GridPos, Seq<char>) {
        (self.pos, self.param@)
    }
}

impl Slot {
    pub(crate) fn new(pos: GridPos, param: &String) -> (r: Slot)
        ensures
            r@ == (pos, param@),
    {
        Slot { pos, param: param.clone() }
    }
}

impl OrderedKey for Slot {
    open spec fn key_lt(a: (GridPos, Seq<char>), b: (GridPos, Seq<char>)) -> bool {
        grid_lt(a.0, b.0) || (a.0 == b.0 && seq_lt(a.1, b.1))
    }

    proof fn lemma_key_lt_irreflexive(a: (GridPos, Seq<char>)) {
        lemma_seq_lt_irreflexive(a.1);
    }

    proof fn lemma_key_lt_transitive(a: (GridPos, Seq<char>), b: (GridPos, Seq<char>), c: (GridPos, Seq<char>)) {
        if a.0 == b.0 && b.0 == c.0 {
            lemma_seq_lt_transitive(a.1, b.1, c.1);
        }
    }

    proof fn lemma_key_lt_total(a: (GridPos, Seq<char>), b: (GridPos, Seq<char>)) {
        lemma_seq_lt_total(a.1, b.1);
    }

    fn compare_key(&self, other: &Self) -> (r: i8) {
        let c = self.pos.compare_key(&other.pos);
        if c != 0 {
            c
        } else {
            compare_str(self.param.as_str(), other.param.as_str())
        }
    }

    fn clone_key(&self) -> (r: Self) {
        Slot { pos: self.pos, param: self.param.clone() }
    }
}

/// The piece `id` is registered.
pub open spec fn registered(reg: PieceRegistry, id: Seq<char>) -> bool {
    reg.defs().contains_key(id)
}

/// The piece declares a parameter named `id`.
pub open spec fn has_param(def: PieceDef, id: Seq<char>) -> bool {
    exists|j: int| 0 <= j < def.params@.len() && (#[trigger] def.params@[j]).id@ == id
}

/// The reason given for a node outside the grid.
pub open spec fn out_of_bounds_reason(pos: GridPos, cols: u32, rows: u32) -> Seq<char> {
    "node out of bounds at ("@ + decimal(pos.col as int) + ", "@ + decimal(pos.row as int)
        + "), allowed cols=[0.."@ + decimal(cols as int) + "), rows=[0.."@ + decimal(rows as int) + ")"@
}

/// What is wrong with the node at `pos` on its own: an unregistered piece,
/// then a cell outside the grid.
pub open spec fn node_checks(g: Graph, reg: PieceRegistry, pos: GridPos, node: Node) -> Seq<DiagnosticView> {
    (if !registered(reg, node.piece_id@) {
        seq![error_view(KindView::UnknownPiece { piece_id: node.piece_id@ }, Some(pos))]
    } else {
        Seq::empty()
    }) + (if !spec_in_bounds(g, pos) {
        seq![
            error_view(
                KindView::InvalidOperation { reason: out_of_bounds_reason(pos, g.cols, g.rows) },
                Some(pos),
            ),
        ]
    } else {
        Seq::empty()
    })
}

/// The node findings of the first `n` nodes in position order.
pub open spec fn node_checks_upto(g: Graph, reg: PieceRegistry, n: nat) -> Seq<DiagnosticView>
    decreases n,
{
    if n == 0 {
        Seq::empty()
    } else {
        node_checks_upto(g, reg, (n - 1) as nat) + node_checks(
            g,
            reg,
            g.nodes.key_seq()[n - 1],
            g.nodes.value_seq()[n - 1],
        )
    }
}

/// Both ends of the edge are placed nodes of registered pieces, so the
/// edge claims its target slot.
pub open spec fn claims_slot(g: Graph, reg: PieceRegistry, e: Edge) -> bool {
    &&& g.nodes.as_map().contains_key(e.from)
    &&& g.nodes.as_map().contains_key(e.to_node)
    &&& registered(reg, g.nodes.as_map()[e.from].piece_id@)
    &&& registered(reg, g.nodes.as_map()[e.to_node].piece_id@)
}

/// The slots claimed by the first `i` edges in id order.
pub open spec fn slots_before(g: Graph, reg: PieceRegistry, i: int) -> Set<(GridPos, Seq<char>)> {
    Set::new(
        |s: (GridPos, Seq<char>)|
            exists|j: int|
                0 <= j < i && claims_slot(g, reg, #[trigger] g.edges.value_seq()[j]) && s == (
                    g.edges.value_seq()[j].to_node,
                    g.edges.value_seq()[j].to_param@,
                ),
    )
}

/// What is wrong with the `i`-th edge in id order: an end that is no node,
/// then (when both pieces are registered) a slot an earlier edge claimed and
/// a parameter the target piece does not declare.
pub open spec fn edge_checks(g: Graph, reg: PieceRegistry, i: int) -> Seq<DiagnosticView> {
    let e = g.edges.value_seq()[i];
    if !g.nodes.as_map().contains_key(e.from) {
        seq![edge_error_view(KindView::UnknownNode { pos: e.from }, Some(e.to_node), e.id@)]
    } else if !g.nodes.as_map().contains_key(e.to_node) {
        seq![edge_error_view(KindView::UnknownNode { pos: e.to_node }, Some(e.to_node), e.id@)]
    } else if !claims_slot(g, reg, e) {
        Seq::empty()
    } else {
        let to_def = reg.defs()[g.nodes.as_map()[e.to_node].piece_id@];
        (if slots_before(g, reg, i).contains((e.to_node, e.to_param@)) {
            seq![
                edge_error_view(
                    KindView::DuplicateConnection { to_node: e.to_node, to_param: e.to_param@ },
                    Some(e.to_node),
                    e.id@,
                ),
            ]
        } else {
            Seq::empty()
        }) + (if !has_param(to_def, e.to_param@) {
            seq![
                edge_error_view(
                    KindView::UnknownParam { piece_id: to_def.id@, param: e.to_param@ },
                    Some(e.to_node),
                    e.id@,
                ),
            ]
        } else {
            Seq::empty()
        })
    }
}

/// The edge findings of the first `n` edges in id order.
pub open spec fn edge_checks_upto(g: Graph, reg: PieceRegistry, n: nat) -> Seq<DiagnosticView>
    decreases n,
{
    if n == 0 {
        Seq::empty()
    } else {
        edge_checks_upto(g, reg, (n - 1) as nat) + edge_checks(g, reg, n - 1)
    }
}

/// One finding for each of the first `n` keys that `def` does not declare.
pub open spec fn unknown_keys(def: PieceDef, pos: GridPos, keys: Seq<Seq<char>>, n: nat) -> Seq<DiagnosticView>
    decreases n,
{
    if n == 0 {
        Seq::empty()
    } else {
        unknown_keys(def, pos, keys, (n - 1) as nat) + (if !has_param(def, keys[n - 1]) {
            seq![error_view(KindView::UnknownParam { piece_id: def.id@, param: keys[n - 1] }, Some(pos))]
        } else {
            Seq::empty()
        })
    }
}

/// Inline values and side assignments of the node at `pos` that name no
/// parameter of its (registered) piece.
pub open spec fn param_checks(g: Graph, reg: PieceRegistry, pos: GridPos, node: Node) -> Seq<DiagnosticView> {
    if !registered(reg, node.piece_id@) {
        Seq::empty()
    } else {
        let def = reg.defs()[node.piece_id@];
        unknown_keys(def, pos, node.inline_params.key_seq(), node.inline_params.key_seq().len())
            + unknown_keys(def, pos, node.input_sides.key_seq(), node.input_sides.key_seq().len())
    }
}

/// The parameter findings of the first `n` nodes in position order.
pub open spec fn param_checks_upto(g: Graph, reg: PieceRegistry, n: nat) -> Seq<DiagnosticView>
    decreases n,
{
    if n == 0 {
        Seq::empty()
    } else {
        param_checks_upto(g, reg, (n - 1) as nat) + param_checks(
            g,
            reg,
            g.nodes.key_seq()[n - 1],
            g.nodes.value_seq()[n - 1],
        )
    }
}

/// Everything `validate` reports, in order: node findings, edge findings,
/// then parameter findings.
pub open spec fn spec_validate(g: Graph, reg: PieceRegistry) -> Seq<DiagnosticView> {
    node_checks_upto(g, reg, g.nodes.key_seq().len()) + edge_checks_upto(g, reg, g.edges.key_seq().len())
        + param_checks_upto(g, reg, g.nodes.key_seq().len())
}

/// The views of a list of diagnostics.
pub open spec fn views(ds: Seq<Diagnostic>) -> Seq<DiagnosticView> {
    ds.map_values(|d: Diagnostic| d@)
}

pub(crate) fn push_diag(out: &mut Vec<Diagnostic>, d: Diagnostic)
    ensures
        views(final(out)@) == views(old(out)@).push(d@),
{
    let ghost d_view = d@;
    out.push(d);
    proof {
        assert(views(out@) =~= views(old(out)@).push(d_view));
    }
}

/// Whether `def` declares a parameter named `id`.
pub(crate) fn def_has_param(def: &PieceDef, id: &str) -> (r: bool)
    ensures
        r == has_param(*def, id@),
{
    let mut j: usize = 0;
    while j < def.params.len()
        invariant
            j <= def.params@.len(),
            forall|k: int| 0 <= k < j ==> (#[trigger] def.params@[k]).id@ != id@,
        decreases def.params@.len() - j,
    {
        if str_eq(def.params[j].id.as_str(), id) {
            return true;
        }
        j = j + 1;
    }
    false
}

fn out_of_bounds_message(pos: GridPos, cols: u32, rows: u32) -> (r: String)
    ensures
        r@ == out_of_bounds_reason(pos, cols, rows),
{
    let mut buf: Vec<char> = Vec::new();
    append_str(&mut buf, "node out of bounds at (");
    append_decimal(&mut buf, pos.col as i64);
    append_str(&mut buf, ", ");
    append_decimal(&mut buf, pos.row as i64);
    append_str(&mut buf, "), allowed cols=[0..");
    append_decimal(&mut buf, cols as i64);
    append_str(&mut buf, "), rows=[0..");
    append_decimal(&mut buf, rows as i64);
    append_str(&mut buf, ")");
    string_of_chars(buf.as_slice())
}

/// Appends a finding for each key of `keys` that `def` does not declare.
fn check_keys<V>(out: &mut Vec<Diagnostic>, def: &PieceDef, pos: GridPos, keys: &SortedMap<Name, V>)
    ensures
        views(final(out)@) == views(old(out)@) + unknown_keys(*def, pos, keys.key_seq(), keys.key_seq().len()),
{
    let n = keys.len();
    let mut k: usize = 0;
    while k < n
        invariant
            n == keys.key_seq().len(),
            k <= n,
            views(out@) == views(old(out)@) + unknown_keys(*def, pos, keys.key_seq(), k as nat),
        decreases n - k,
    {
        let key = keys.key_at(k);
        let ghost before = views(out@);
        if !def_has_param(def, key.0.as_str()) {
            let d = Diagnostic::error(
                DiagnosticKind::UnknownParam { piece_id: def.id.clone(), param: key.0.clone() },
                Some(pos),
            );
            push_diag(out, d);
        }
        proof {
            assert(views(out@) =~= views(old(out)@) + unknown_keys(*def, pos, keys.key_seq(), (k + 1) as nat));
        }
        k = k + 1;
    }
}

impl Graph {
    /// Whether `pos` lies on the grid.
    pub(crate) fn in_bounds(&self, pos: &GridPos) -> (r: bool)
        ensures
            r == spec_in_bounds(*self, *pos),
    {
        let cols = u32_as_i64(self.cols);
        let rows = u32_as_i64(self.rows);
        0 <= pos.col as i64 && (pos.col as i64) < cols && 0 <= pos.row as i64 && (pos.row as i64) < rows
    }

    /// Checks the graph against the registry: unknown pieces and cells off
    /// the grid, edges whose ends are missing, slots fed twice, and parameter
    /// names a piece does not declare.
    pub fn validate(&self, registry: &PieceRegistry) -> (r: Vec<Diagnostic>)
        ensures
            views(r@) == spec_validate(*self, *registry),
    {
        let mut out: Vec<Diagnostic> = Vec::new();
        let nn = self.nodes.len();
        let mut i: usize = 0;
        while i < nn
            invariant
                nn == self.nodes.key_seq().len(),
                nn == self.nodes.value_seq().len(),
                i <= nn,
                views(out@) == node_checks_upto(*self, *registry, i as nat),
            decreases nn - i,
        {
            let pos = *self.nodes.key_at(i);
            let node = self.nodes.value_at(i);
            let ghost before = views(out@);
            if registry.get(node.piece_id.as_str()).is_none() {
                push_diag(
                    &mut out,
                    Diagnostic::error(DiagnosticKind::UnknownPiece { piece_id: node.piece_id.clone() }, Some(pos)),
                );
            }
            if !self.in_bounds(&pos) {
                let reason = out_of_bounds_message(pos, self.cols, self.rows);
                push_diag(&mut out, Diagnostic::error(DiagnosticKind::InvalidOperation { reason }, Some(pos)));
            }
            proof {
                assert(views(out@) =~= node_checks_upto(*self, *registry, (i + 1) as nat));
            }
            i = i + 1;
        }
        let ghost phase1 = views(out@);
        let ne = self.edges.len();
        let mut slots: SortedSet<Slot> = SortedSet::new();
        let mut j: usize = 0;
        while j < ne
            invariant
                nn == self.nodes.key_seq().len(),
                ne == self.edges.key_seq().len(),
                ne == self.edges.value_seq().len(),
                j <= ne,
                phase1 == node_checks_upto(*self, *registry, nn as nat),
                views(out@) == phase1 + edge_checks_upto(*self, *registry, j as nat),
                slots.set_view() == slots_before(*self, *registry, j as int),
            decreases ne - j,
        {
            let edge = self.edges.value_at(j);
            let ghost before = views(out@);
            let ghost e = *edge;
            proof {
                assert(slots_before(*self, *registry, j + 1) =~= if claims_slot(*self, *registry, e) {
                    slots_before(*self, *registry, j as int).insert((e.to_node, e.to_param@))
                } else {
                    slots_before(*self, *registry, j as int)
                });
            }
            match self.nodes.get(&edge.from) {
                None => {
                    push_diag(
                        &mut out,
                        Diagnostic::error(DiagnosticKind::UnknownNode { pos: edge.from }, Some(edge.to_node)).with_edge(
                            edge.id.clone(),
                        ),
                    );
                },
                Some(from_node) => match self.nodes.get(&edge.to_node) {
                    None => {
                        push_diag(
                            &mut out,
                            Diagnostic::error(
                                DiagnosticKind::UnknownNode { pos: edge.to_node },
                                Some(edge.to_node),
                            ).with_edge(edge.id.clone()),
                        );
                    },
                    Some(to_node) => {
                        if registry.get(from_node.piece_id.as_str()).is_some() {
                            match registry.get(to_node.piece_id.as_str()) {
                                None => {},
                                Some(to_piece) => {
                                    let fresh = slots.insert(Slot { pos: edge.to_node, param: edge.to_param.clone() });
                                    if !fresh {
                                        push_diag(
                                            &mut out,
                                            Diagnostic::error(
                                                DiagnosticKind::DuplicateConnection {
                                                    to_node: edge.to_node,
                                                    to_param: edge.to_param.clone(),
                                                },
                                                Some(edge.to_node),
                                            ).with_edge(edge.id.clone()),
                                        );
                                    }
                                    if !def_has_param(to_piece, edge.to_param.as_str()) {
                                        push_diag(
                                            &mut out,
                                            Diagnostic::error(
                                                DiagnosticKind::UnknownParam {
                                                    piece_id: to_piece.id.clone(),
                                                    param: edge.to_param.clone(),
                                                },
                                                Some(edge.to_node),
                                            ).with_edge(edge.id.clone()),
                                        );
                                    }
                                },
                            }
                        }
                    },
                },
            }
            proof {
                assert(views(out@) =~= phase1 + edge_checks_upto(*self, *registry, (j + 1) as nat));
            }
            j = j + 1;
        }
        let ghost phase2 = views(out@);
        let mut i: usize = 0;
        while i < nn
            invariant
                nn == self.nodes.key_seq().len(),
                nn == self.nodes.value_seq().len(),
                ne == self.edges.key_seq().len(),
                i <= nn,
                phase2 == node_checks_upto(*self, *registry, nn as nat) + edge_checks_upto(*self, *registry, ne as nat),
                views(out@) == phase2 + param_checks_upto(*self, *registry, i as nat),
            decreases nn - i,
        {
            let pos = *self.nodes.key_at(i);
            let node = self.nodes.value_at(i);
            let ghost before = views(out@);
            match registry.get(node.piece_id.as_str()) {
                None => {},
                Some(piece) => {
                    check_keys(&mut out, piece, pos, &node.inline_params);
                    check_keys(&mut out, piece, pos, &node.input_sides);
                },
            }
            proof {
                assert(views(out@) =~= phase2 + param_checks_upto(*self, *registry, (i + 1) as nat));
            }
            i = i + 1;
        }
        out
    }

    /// The cells whose output reaches one of `terminals` by following edges,
    /// the terminals included: the walk goes backward over edges from them.
    pub fn reachable_nodes(&self, terminals: &[GridPos]) -> (r: SortedSet<GridPos>)
        ensures
            forall|p: GridPos| r.set_view().contains(p) <==> feeds_into(*self, p, terminals@),
    {
        let ghost t = terminals@;
        let ghost froms = self.edges.value_seq().map_values(|e: Edge| e.from);
        let ghost universe = t.to_set().union(froms.to_set());
        proof {
            vstd::seq_lib::seq_to_set_is_finite(t);
            vstd::seq_lib::seq_to_set_is_finite(froms);
        }
        let mut reachable: SortedSet<GridPos> = SortedSet::new();
        let mut frontier: Vec<GridPos> = Vec::new();
        let mut k: usize = 0;
        while k < terminals.len()
            invariant
                t == terminals@,
                k <= t.len(),
                frontier@ == t.subrange(0, k as int),
            decreases t.len() - k,
        {
            frontier.push(terminals[k]);
            k = k + 1;
        }
        proof {
            assert(t.subrange(0, t.len() as int) =~= t);
            assert forall|p: GridPos| frontier@.contains(p) implies feeds_into(*self, p, t) by {
                let path = seq![p];
                assert(is_edge_path(*self, path));
            }
        }
        let n = self.edges.len();
        while frontier.len() > 0
            invariant
                t == terminals@,
                universe.finite(),
                universe == t.to_set().union(froms.to_set()),
                froms == self.edges.value_seq().map_values(|e: Edge| e.from),
                n == self.edges.key_seq().len(),
                n == self.edges.value_seq().len(),
                forall|i: int|
                    #![trigger self.edges.key_seq()[i]]
                    0 <= i < n ==> self.edges.as_map().contains_key(self.edges.key_seq()[i])
                        && self.edges.as_map()[self.edges.key_seq()[i]] == self.edges.value_seq()[i],
                forall|id: u128|
                    #[trigger] self.edges.as_map().contains_key(id) ==> exists|i: int|
                        0 <= i < n && self.edges.key_seq()[i] == id,
                reachable.set_view().subset_of(universe),
                forall|p: GridPos| frontier@.contains(p) ==> universe.contains(p),
                forall|p: GridPos| #[trigger] reachable.set_view().contains(p) ==> feeds_into(*self, p, t),
                forall|p: GridPos| frontier@.contains(p) ==> feeds_into(*self, p, t),
                forall|p: GridPos| t.contains(p) ==> reachable.set_view().contains(p) || frontier@.contains(p),
                forall|a: GridPos, b: GridPos|
                    reachable.set_view().contains(b) && #[trigger] edge_links(*self, a, b) ==> reachable.set_view().contains(a)
                        || frontier@.contains(a),
            decreases universe.len() - reachable.set_view().len(), frontier@.len(),
        {
            proof {
                vstd::set_lib::lemma_len_subset(reachable.set_view(), universe);
            }
            let ghost before = frontier@;
            let ghost old_r = reachable.set_view();
            let next = frontier.pop().unwrap();
            let ghost popped = frontier@;
            proof {
                assert(before == popped.push(next));
                assert(before.contains(next));
                assert forall|p: GridPos| popped.contains(p) implies before.contains(p) by {
                    let i = choose|i: int| 0 <= i < popped.len() && popped[i] == p;
                    assert(before[i] == p);
                }
            }
            if !reachable.insert(next) {
                proof {
                    assert forall|p: GridPos| t.contains(p) implies reachable.set_view().contains(p) || frontier@.contains(p) by {
                        if !reachable.set_view().contains(p) {
                            assert(before.contains(p));
                            let i = choose|i: int| 0 <= i < before.len() && before[i] == p;
                            if i < popped.len() {
                                assert(popped[i] == p);
                            }
                        }
                    }
                    assert forall|a: GridPos, b: GridPos|
                        reachable.set_view().contains(b) && #[trigger] edge_links(*self, a, b) implies reachable.set_view().contains(a)
                            || frontier@.contains(a) by {
                        if !reachable.set_view().contains(a) {
                            assert(before.contains(a));
                            let i = choose|i: int| 0 <= i < before.len() && before[i] == a;
                            if i < popped.len() {
                                assert(popped[i] == a);
                            }
                        }
                    }
                }
                continue;
            }
            let mut j: usize = 0;
            while j < n
                invariant
                    t == terminals@,
                    universe == t.to_set().union(froms.to_set()),
                    froms == self.edges.value_seq().map_values(|e: Edge| e.from),
                    n == self.edges.key_seq().len(),
                    n == self.edges.value_seq().len(),
                    forall|i: int|
                        #![trigger self.edges.key_seq()[i]]
                        0 <= i < n ==> self.edges.as_map().contains_key(self.edges.key_seq()[i])
                            && self.edges.as_map()[self.edges.key_seq()[i]] == self.edges.value_seq()[i],
                    feeds_into(*self, next, t),
                    j <= n,
                    frontier@.len() >= popped.len(),
                    frontier@.subrange(0, popped.len() as int) == popped,
                    forall|p: GridPos|
                        #[trigger] frontier@.contains(p) ==> popped.contains(p) || (universe.contains(p) && feeds_into(
                            *self,
                            p,
                            t,
                        )),
                    forall|i: int|
                        0 <= i < j && (#[trigger] self.edges.value_seq()[i]).to_node == next ==> frontier@.contains(
                            self.edges.value_seq()[i].from,
                        ),
                decreases n - j,
            {
                let e = self.edges.value_at(j);
                if e.to_node == next {
                    let ghost f0 = frontier@;
                    frontier.push(e.from);
                    proof {
                        let id = self.edges.key_seq()[j as int];
                        assert(self.edges.as_map().contains_key(id));
                        assert(edge_links(*self, e.from, next));
                        lemma_feeder_extends(*self, e.from, next, t);
                        assert(froms[j as int] == e.from);
                        assert(froms.to_set().contains(e.from));
                        assert(frontier@.subrange(0, popped.len() as int) =~= f0.subrange(0, popped.len() as int));
                        assert forall|p: GridPos| #[trigger] frontier@.contains(p) implies popped.contains(p) || (
                        universe.contains(p) && feeds_into(*self, p, t)) by {
                            if p != e.from {
                                let i = choose|i: int| 0 <= i < frontier@.len() && frontier@[i] == p;
                                assert(f0[i] == p);
                                assert(f0.contains(p));
                            } else {
                                assert(universe.contains(p));
                            }
                        }
                        assert forall|i: int|
                            0 <= i < j + 1 && (#[trigger] self.edges.value_seq()[i]).to_node == next implies frontier@.contains(
                            self.edges.value_seq()[i].from,
                        ) by {
                            if i < j {
                                let q = self.edges.value_seq()[i].from;
                                let k = choose|k: int| 0 <= k < f0.len() && f0[k] == q;
                                assert(frontier@[k] == q);
                            } else {
                                assert(frontier@[frontier@.len() - 1] == e.from);
                            }
                        }
                    }
                }
                j = j + 1;
            }
            proof {
                assert forall|p: GridPos| popped.contains(p) implies frontier@.contains(p) by {
                    let i = choose|i: int| 0 <= i < popped.len() && popped[i] == p;
                    assert(frontier@.subrange(0, popped.len() as int)[i] == p);
                }
                assert forall|p: GridPos| frontier@.contains(p) implies universe.contains(p) && feeds_into(*self, p, t) by {
                    if popped.contains(p) {
                        assert(before.contains(p));
                    }
                }
                assert forall|p: GridPos| t.contains(p) implies reachable.set_view().contains(p) || frontier@.contains(p) by {
                    if !reachable.set_view().contains(p) {
                        assert(before.contains(p));
                        let i = choose|i: int| 0 <= i < before.len() && before[i] == p;
                        if i < popped.len() {
                            assert(popped[i] == p);
                        }
                    }
                }
                assert forall|a: GridPos, b: GridPos|
                    reachable.set_view().contains(b) && #[trigger] edge_links(*self, a, b) implies reachable.set_view().contains(a)
                        || frontier@.contains(a) by {
                    if b == next {
                        let id = choose|id: u128|
                            #[trigger] self.edges.as_map().contains_key(id) && self.edges.as_map()[id].from == a
                                && self.edges.as_map()[id].to_node == b;
                        let i = choose|i: int| 0 <= i < n && self.edges.key_seq()[i] == id;
                        assert(self.edges.value_seq()[i].to_node == next);
                    } else if !reachable.set_view().contains(a) {
                        assert(old_r.contains(b));
                        assert(before.contains(a));
                        let i = choose|i: int| 0 <= i < before.len() && before[i] == a;
                        if i < popped.len() {
                            assert(popped[i] == a);
                        }
                    }
                }
                vstd::set_lib::lemma_len_subset(reachable.set_view(), universe);
            }
        }
        proof {
            assert forall|p: GridPos| feeds_into(*self, p, t) implies reachable.set_view().contains(p) by {
                let path = choose|path: Seq<GridPos>| is_edge_path(*self, path) && path[0] == p && t.contains(path.last());
                lemma_closed_holds_feeders(*self, reachable.set_view(), t, path, 0);
            }
        }
        reachable
    }
}

} // verus!
