use serde_json::Value;
use tessera::collections::{SortedMap, SortedSet};
use tessera::diagnostics::{Diagnostic, DiagnosticKind, DiagnosticSeverity};
use tessera::graph::{Edge, Graph, Node};
use tessera::piece::{ParamDef, ParamInlineMode, ParamSchema, ParamTextSemantics, ParamValueKind, PieceDef};
use tessera::piece_registry::PieceRegistry;
use tessera::text::Name;
use tessera::types::{EdgeId, GridPos, PieceCategory, PieceSemanticKind, PortRole, PortType, TileSide};

fn edge_id(n: u128) -> EdgeId {
    EdgeId(uuid::Uuid::from_u128(n))
}

fn source_def(id: &str) -> PieceDef {
    PieceDef {
        id: id.to_string(),
        label: id.to_string(),
        category: PieceCategory::Generator,
        semantic_kind: PieceSemanticKind::Intrinsic,
        namespace: "strudel".to_string(),
        params: vec![],
        output_type: Some(PortType::new("pattern")),
        output_side: Some(TileSide::RIGHT),
        output_role: PortRole::Value,
        description: None,
        tags: vec![],
    }
}

fn sink_def(id: &str) -> PieceDef {
    PieceDef {
        id: id.to_string(),
        label: id.to_string(),
        category: PieceCategory::Output,
        semantic_kind: PieceSemanticKind::Output,
        namespace: "strudel".to_string(),
        params: vec![ParamDef {
            id: "input".to_string(),
            label: "input".to_string(),
            side: TileSide::LEFT,
            schema: ParamSchema::Custom {
                port_type: PortType::new("pattern"),
                value_kind: ParamValueKind::NoValue,
                default: None,
                can_inline: false,
                inline_mode: ParamInlineMode::Literal,
            },
            text_semantics: ParamTextSemantics::default(),
            variadic_group: None,
            required: true,
            role: PortRole::Value,
        }],
        output_type: None,
        output_side: None,
        output_role: PortRole::Value,
        description: None,
        tags: vec![],
    }
}

fn registry() -> PieceRegistry {
    let mut registry = PieceRegistry::new();
    registry.register(source_def("test.source"));
    registry.register(source_def("test.source_2"));
    registry.register(sink_def("test.output"));
    registry
}

fn make_node(piece_id: &str) -> Node {
    Node {
        piece_id: piece_id.to_string(),
        inline_params: SortedMap::new(),
        input_sides: SortedMap::new(),
        output_side: None,
        label: None,
        node_state: None,
    }
}

fn edge(n: u128, from: GridPos, to_node: GridPos, to_param: &str) -> Edge {
    Edge { id: edge_id(n), from, to_node, to_param: to_param.to_string() }
}

fn graph_of(nodes: Vec<(GridPos, Node)>, edges: Vec<Edge>, cols: u32, rows: u32) -> Graph {
    let mut node_map = SortedMap::new();
    for (pos, node) in nodes {
        node_map.insert(pos, node);
    }
    let mut edge_map = SortedMap::new();
    for e in edges {
        edge_map.insert(e.id, e);
    }
    Graph { nodes: node_map, edges: edge_map, name: "test".to_string(), cols, rows }
}

fn valid_graph() -> Graph {
    let source_pos = GridPos { col: 0, row: 0 };
    let output_pos = GridPos { col: 1, row: 0 };
    let mut output = make_node("test.output");
    output.input_sides.insert(Name::new("input"), TileSide::LEFT);
    graph_of(
        vec![(source_pos, make_node("test.source")), (output_pos, output)],
        vec![edge(1, source_pos, output_pos, "input")],
        2,
        1,
    )
}

fn set_cells(set: &SortedSet<GridPos>) -> Vec<GridPos> {
    (0..set.len()).map(|i| *set.elem_at(i)).collect()
}

fn has_unknown_param(diagnostics: &[Diagnostic], piece: &str, param_name: &str) -> bool {
    diagnostics.iter().any(|diag| {
        matches!(&diag.kind, DiagnosticKind::UnknownParam { piece_id, param } if piece_id == piece && param == param_name)
    })
}

#[test]
fn validate_returns_empty_for_structurally_valid_graph() {
    let graph = valid_graph();
    assert!(graph.validate(&registry()).is_empty());
}

#[test]
fn validate_reports_unknown_piece() {
    let mut graph = valid_graph();
    let pos = GridPos { col: 0, row: 0 };
    let mut node = graph.nodes.remove(&pos).unwrap();
    node.piece_id = "missing".to_string();
    graph.nodes.insert(pos, node);

    let diagnostics = graph.validate(&registry());
    assert!(diagnostics
        .iter()
        .any(|diag| matches!(&diag.kind, DiagnosticKind::UnknownPiece { piece_id } if piece_id == "missing")));
}

#[test]
fn validate_reports_out_of_bounds_node() {
    let mut graph = valid_graph();
    let node = graph.nodes.remove(&GridPos { col: 0, row: 0 }).unwrap();
    graph.nodes.insert(GridPos { col: 5, row: 0 }, node);

    let diagnostics = graph.validate(&registry());
    assert!(diagnostics.iter().any(|diag| matches!(diag.kind, DiagnosticKind::InvalidOperation { .. })));
}

#[test]
fn validate_reports_dangling_edge_endpoint() {
    let mut graph = valid_graph();
    let mut e = graph.edges.remove(&edge_id(1)).unwrap();
    e.from = GridPos { col: 9, row: 9 };
    graph.edges.insert(e.id, e);

    let diagnostics = graph.validate(&registry());
    assert!(diagnostics.iter().any(|diag| matches!(diag.kind, DiagnosticKind::UnknownNode { .. })));
}

#[test]
fn validate_reports_unknown_edge_param() {
    let mut graph = valid_graph();
    let mut e = graph.edges.remove(&edge_id(1)).unwrap();
    e.to_param = "other".to_string();
    graph.edges.insert(e.id, e);

    let diagnostics = graph.validate(&registry());
    assert!(has_unknown_param(&diagnostics, "test.output", "other"));
}

#[test]
fn validate_reports_duplicate_connection() {
    let mut graph = valid_graph();
    graph.nodes.insert(GridPos { col: 0, row: 1 }, make_node("test.source_2"));
    graph.rows = 2;
    let second = edge(2, GridPos { col: 0, row: 1 }, GridPos { col: 1, row: 0 }, "input");
    graph.edges.insert(second.id, second);

    let diagnostics = graph.validate(&registry());
    assert!(diagnostics
        .iter()
        .any(|diag| matches!(&diag.kind, DiagnosticKind::DuplicateConnection { to_param, .. } if to_param == "input")));
}

#[test]
fn validate_reports_unknown_inline_param() {
    let mut graph = valid_graph();
    let pos = GridPos { col: 1, row: 0 };
    let mut node = graph.nodes.remove(&pos).unwrap();
    node.inline_params.insert(Name::new("mystery"), Value::String("x".to_string()));
    graph.nodes.insert(pos, node);

    let diagnostics = graph.validate(&registry());
    assert!(has_unknown_param(&diagnostics, "test.output", "mystery"));
}

#[test]
fn validate_reports_unknown_input_side_key() {
    let mut graph = valid_graph();
    let pos = GridPos { col: 1, row: 0 };
    let mut node = graph.nodes.remove(&pos).unwrap();
    node.input_sides.insert(Name::new("mystery"), TileSide::TOP);
    graph.nodes.insert(pos, node);

    let diagnostics = graph.validate(&registry());
    assert!(has_unknown_param(&diagnostics, "test.output", "mystery"));
}

#[test]
fn validate_out_of_bounds_reason_names_cell_and_grid() {
    let mut graph = valid_graph();
    let node = graph.nodes.remove(&GridPos { col: 0, row: 0 }).unwrap();
    graph.nodes.insert(GridPos { col: -3, row: 0 }, node);

    let diagnostics = graph.validate(&registry());
    let reasons: Vec<&String> = diagnostics
        .iter()
        .filter_map(|d| match &d.kind {
            DiagnosticKind::InvalidOperation { reason } => Some(reason),
            _ => None,
        })
        .collect();
    assert_eq!(reasons.len(), 1);
    assert_eq!(reasons[0], "node out of bounds at (-3, 0), allowed cols=[0..2), rows=[0..1)");
    assert_eq!(diagnostics[0].site, Some(GridPos { col: -3, row: 0 }));
    assert_eq!(diagnostics[0].severity, DiagnosticSeverity::Error);
}

#[test]
fn validate_reports_in_node_then_edge_then_param_order() {
    let mut graph = valid_graph();
    let mut e = graph.edges.remove(&edge_id(1)).unwrap();
    e.to_param = "other".to_string();
    graph.edges.insert(e.id, e);
    let pos = GridPos { col: 1, row: 0 };
    let mut node = graph.nodes.remove(&pos).unwrap();
    node.inline_params.insert(Name::new("mystery"), Value::Bool(true));
    graph.nodes.insert(pos, node);
    graph.nodes.insert(GridPos { col: 0, row: 5 }, make_node("ghost"));

    let diagnostics = graph.validate(&registry());
    assert_eq!(diagnostics.len(), 4);
    assert!(matches!(&diagnostics[0].kind, DiagnosticKind::UnknownPiece { piece_id } if piece_id == "ghost"));
    assert!(matches!(&diagnostics[1].kind, DiagnosticKind::InvalidOperation { .. }));
    assert!(matches!(&diagnostics[2].kind, DiagnosticKind::UnknownParam { param, .. } if param == "other"));
    assert_eq!(diagnostics[2].edge_id, Some(edge_id(1)));
    assert!(matches!(&diagnostics[3].kind, DiagnosticKind::UnknownParam { param, .. } if param == "mystery"));
    assert_eq!(diagnostics[3].edge_id, None);
}

#[test]
fn reachable_returns_terminals_themselves() {
    let pos = GridPos { col: 0, row: 0 };
    let graph = graph_of(vec![(pos, make_node("a"))], vec![], 1, 1);
    assert_eq!(set_cells(&graph.reachable_nodes(&[pos])), vec![pos]);
}

#[test]
fn reachable_follows_edges_backward() {
    let p0 = GridPos { col: 0, row: 0 };
    let p1 = GridPos { col: 1, row: 0 };
    let p2 = GridPos { col: 2, row: 0 };
    let graph = graph_of(
        vec![(p0, make_node("src")), (p1, make_node("mid")), (p2, make_node("out"))],
        vec![edge(1, p0, p1, "in"), edge(2, p1, p2, "in")],
        3,
        1,
    );

    assert_eq!(set_cells(&graph.reachable_nodes(&[p2])), vec![p0, p1, p2]);
}

#[test]
fn reachable_excludes_disconnected_nodes() {
    let p0 = GridPos { col: 0, row: 0 };
    let p1 = GridPos { col: 1, row: 0 };
    let p_isolated = GridPos { col: 2, row: 0 };
    let graph = graph_of(
        vec![(p0, make_node("src")), (p1, make_node("out")), (p_isolated, make_node("lonely"))],
        vec![edge(1, p0, p1, "in")],
        3,
        1,
    );

    let reachable = graph.reachable_nodes(&[p1]);
    assert_eq!(set_cells(&reachable), vec![p0, p1]);
    assert!(!reachable.contains(&p_isolated));
}

#[test]
fn reachable_empty_terminals_returns_empty() {
    let graph = graph_of(vec![(GridPos { col: 0, row: 0 }, make_node("a"))], vec![], 1, 1);
    assert_eq!(graph.reachable_nodes(&[]).len(), 0);
}

#[test]
fn reachable_walks_through_cycles_once() {
    let p0 = GridPos { col: 0, row: 0 };
    let p1 = GridPos { col: 1, row: 0 };
    let p2 = GridPos { col: 2, row: 0 };
    let graph = graph_of(
        vec![(p0, make_node("a")), (p1, make_node("b")), (p2, make_node("c"))],
        vec![edge(1, p0, p1, "in"), edge(2, p1, p0, "in"), edge(3, p1, p2, "in")],
        3,
        1,
    );
    assert_eq!(set_cells(&graph.reachable_nodes(&[p2])), vec![p0, p1, p2]);
    assert_eq!(set_cells(&graph.reachable_nodes(&[p0])), vec![p0, p1]);
}

#[test]
fn grid_defaults_are_fourteen_by_six() {
    assert_eq!(tessera::graph::default_grid_cols(), 14);
    assert_eq!(tessera::graph::default_grid_rows(), 6);
}
