use serde_json::Value;
use tessera::collections::SortedMap;
use tessera::diagnostics::DiagnosticKind;
use tessera::graph::{Edge, Graph, Node};
use tessera::piece::{ParamDef, ParamInlineMode, ParamSchema, ParamTextSemantics, ParamValueKind, PieceDef};
use tessera::piece_registry::PieceRegistry;
use tessera::semantic::pass::{semantic_pass, SemanticResult};
use tessera::text::Name;
use tessera::types::{
    DomainBridgeKind, EdgeId, ExecutionDomain, GridPos, PieceCategory, PieceSemanticKind, PortRole, PortType,
    TileSide, DELAY_PIECE_ID,
};

fn pos(col: i32, row: i32) -> GridPos {
    GridPos { col, row }
}

fn edge_id(n: u128) -> EdgeId {
    EdgeId(uuid::Uuid::from_u128(n))
}

fn edge(n: u128, from: GridPos, to_node: GridPos, to_param: &str) -> Edge {
    Edge { id: edge_id(n), from, to_node, to_param: to_param.to_string() }
}

fn custom_param(id: &str, side: TileSide, port_type: PortType, can_inline: bool) -> ParamDef {
    ParamDef {
        id: id.to_string(),
        label: id.to_string(),
        side,
        schema: ParamSchema::Custom {
            port_type,
            value_kind: ParamValueKind::Json,
            default: None,
            can_inline,
            inline_mode: ParamInlineMode::Literal,
        },
        text_semantics: ParamTextSemantics::default(),
        variadic_group: None,
        required: true,
        role: PortRole::Value,
    }
}

fn piece(
    id: &str,
    category: PieceCategory,
    semantic_kind: PieceSemanticKind,
    params: Vec<ParamDef>,
    output_type: Option<PortType>,
) -> PieceDef {
    let output_side = output_type.as_ref().map(|_| TileSide::RIGHT);
    PieceDef {
        id: id.to_string(),
        label: id.to_string(),
        category,
        semantic_kind,
        namespace: "core".to_string(),
        params,
        output_type,
        output_side,
        output_role: PortRole::Value,
        description: None,
        tags: vec![],
    }
}

fn source_piece(id: &str, output_type: PortType) -> PieceDef {
    piece(id, PieceCategory::Generator, PieceSemanticKind::Literal, vec![], Some(output_type))
}

fn sink_piece(id: &str, expected: PortType) -> PieceDef {
    piece(
        id,
        PieceCategory::Output,
        PieceSemanticKind::Output,
        vec![custom_param("value", TileSide::LEFT, expected, false)],
        None,
    )
}

fn forward_piece() -> PieceDef {
    piece(
        "test.forward",
        PieceCategory::Transform,
        PieceSemanticKind::Operator,
        vec![custom_param("value", TileSide::LEFT, PortType::any(), true)],
        Some(PortType::any()),
    )
}

fn delay_piece() -> PieceDef {
    piece(
        DELAY_PIECE_ID,
        PieceCategory::Transform,
        PieceSemanticKind::Operator,
        vec![
            custom_param("value", TileSide::RIGHT, PortType::any().with_unspecified_domain(), false),
            custom_param("default", TileSide::LEFT, PortType::any().with_unspecified_domain(), true),
        ],
        Some(PortType::any().with_unspecified_domain()),
    )
}

fn node(piece_id: &str, sides: Vec<(&str, TileSide)>, inline: Vec<(&str, Value)>, output_side: Option<TileSide>) -> Node {
    let mut input_sides = SortedMap::new();
    for (param, side) in sides {
        input_sides.insert(Name::new(param), side);
    }
    let mut inline_params = SortedMap::new();
    for (param, value) in inline {
        inline_params.insert(Name::new(param), value);
    }
    Node { piece_id: piece_id.to_string(), inline_params, input_sides, output_side, label: None, node_state: None }
}

fn source_node(piece_id: &str) -> Node {
    node(piece_id, vec![], vec![], None)
}

fn sink_node(piece_id: &str) -> Node {
    node(piece_id, vec![("value", TileSide::LEFT)], vec![], None)
}

fn delay_node(inline: Vec<(&str, Value)>) -> Node {
    node(
        DELAY_PIECE_ID,
        vec![("default", TileSide::LEFT), ("value", TileSide::RIGHT)],
        inline,
        Some(TileSide::RIGHT),
    )
}

fn graph_of(name: &str, cols: u32, nodes: Vec<(GridPos, Node)>, edges: Vec<Edge>) -> Graph {
    let mut node_map = SortedMap::new();
    for (p, n) in nodes {
        node_map.insert(p, n);
    }
    let mut edge_map = SortedMap::new();
    for e in edges {
        edge_map.insert(e.id, e);
    }
    Graph { nodes: node_map, edges: edge_map, name: name.to_string(), cols, rows: 1 }
}

fn accept_all(_piece: &str, _param: &str, _value: &Value) -> bool {
    true
}

fn run(graph: &Graph, registry: &PieceRegistry) -> SemanticResult {
    semantic_pass(graph, registry, &accept_all)
}

fn has_cycle(sem: &SemanticResult) -> bool {
    sem.diagnostics.iter().any(|d| matches!(d.kind, DiagnosticKind::Cycle { .. }))
}

// -- domain bridges --

fn bridge_registry() -> PieceRegistry {
    let mut registry = PieceRegistry::new();
    registry.register(source_piece("test.control_source", PortType::number().with_domain(ExecutionDomain::Control)));
    registry.register(source_piece("test.audio_source", PortType::number().with_domain(ExecutionDomain::Audio)));
    registry.register(source_piece("test.event_source", PortType::number().with_domain(ExecutionDomain::Event)));
    registry.register(sink_piece("test.audio_sink", PortType::number().with_domain(ExecutionDomain::Audio)));
    registry.register(sink_piece("test.control_sink", PortType::number().with_domain(ExecutionDomain::Control)));
    registry.register(sink_piece("test.event_sink", PortType::number().with_domain(ExecutionDomain::Event)));
    registry.register(sink_piece("test.any_sink", PortType::any()));
    registry
}

fn simple_edge_graph(source_piece_id: &str, sink_piece_id: &str) -> (Graph, EdgeId) {
    let graph = graph_of(
        "bridge_graph",
        2,
        vec![(pos(0, 0), source_node(source_piece_id)), (pos(1, 0), sink_node(sink_piece_id))],
        vec![edge(1, pos(0, 0), pos(1, 0), "value")],
    );
    (graph, edge_id(1))
}

#[test]
fn semantic_pass_records_supported_domain_bridges() {
    let registry = bridge_registry();
    let cases = [
        ("test.control_source", "test.audio_sink", DomainBridgeKind::ControlToAudio),
        ("test.audio_source", "test.control_sink", DomainBridgeKind::AudioToControl),
        ("test.event_source", "test.control_sink", DomainBridgeKind::EventToControl),
    ];
    for (source, sink, expected_bridge) in cases {
        let (graph, id) = simple_edge_graph(source, sink);
        let sem = run(&graph, &registry);
        assert!(sem.diagnostics.is_empty(), "expected no diagnostics for {source} -> {sink}, got {:?}", sem.diagnostics);
        assert_eq!(sem.domain_bridges.get(&id).map(|bridge| bridge.kind), Some(expected_bridge));
    }
}

#[test]
fn semantic_pass_reports_unsupported_domain_crossing() {
    let registry = bridge_registry();
    let (graph, id) = simple_edge_graph("test.audio_source", "test.event_sink");
    let sem = run(&graph, &registry);
    assert!(sem.domain_bridges.get(&id).is_none());
    assert!(sem.diagnostics.iter().any(|d| {
        matches!(
            &d.kind,
            DiagnosticKind::UnsupportedDomainCrossing { expected, got, param }
                if *expected == PortType::number().with_domain(ExecutionDomain::Event)
                    && *got == PortType::number().with_domain(ExecutionDomain::Audio)
                    && param == "value"
        )
    }));
}

#[test]
fn same_domain_edge_needs_no_bridge() {
    let registry = bridge_registry();
    let (graph, id) = simple_edge_graph("test.audio_source", "test.audio_sink");
    let sem = run(&graph, &registry);
    assert!(sem.diagnostics.is_empty(), "got {:?}", sem.diagnostics);
    assert!(sem.domain_bridges.get(&id).is_none());
    assert_eq!(sem.terminals, vec![pos(1, 0)]);
    assert_eq!(sem.eval_order, vec![pos(0, 0), pos(1, 0)]);
}

// -- delay / feedback loops --

fn delay_feedback_registry() -> PieceRegistry {
    let mut registry = PieceRegistry::new();
    registry.register(source_piece("test.number_source", PortType::number()));
    registry.register(source_piece("test.pattern_source", PortType::new("pattern")));
    registry.register(forward_piece());
    registry.register(sink_piece("test.any_sink", PortType::any()));
    registry.register(delay_piece());
    registry
}

/// source(0,0) feeds the delay's default; the delay feeds the sink(2,0);
/// the sink feeds back into the delay's value.
fn delay_cycle_graph() -> (Graph, EdgeId) {
    let graph = graph_of(
        "delay_cycle",
        3,
        vec![
            (pos(0, 0), source_node("test.number_source")),
            (pos(1, 0), delay_node(vec![])),
            (pos(2, 0), sink_node("test.any_sink")),
        ],
        vec![
            edge(1, pos(0, 0), pos(1, 0), "default"),
            edge(2, pos(1, 0), pos(2, 0), "value"),
            edge(3, pos(2, 0), pos(1, 0), "value"),
        ],
    );
    (graph, edge_id(3))
}

fn delay_type_graph(
    default_inline: Option<Value>,
    default_source_piece: Option<&str>,
    feedback_source_piece: Option<&str>,
) -> (Graph, GridPos) {
    let left = pos(0, 0);
    let delay = pos(1, 0);
    let right = pos(2, 0);
    let inline = match default_inline {
        Some(value) => vec![("default", value)],
        None => vec![],
    };
    let mut nodes = vec![(delay, delay_node(inline))];
    let mut edges = vec![];
    if let Some(piece_id) = default_source_piece {
        nodes.push((left, source_node(piece_id)));
        edges.push(edge(1, left, delay, "default"));
    }
    if let Some(piece_id) = feedback_source_piece {
        nodes.push((right, source_node(piece_id)));
        edges.push(edge(2, right, delay, "value"));
    }
    (graph_of("delay_type_graph", 3, nodes, edges), delay)
}

#[test]
fn cycle_through_delay_node_is_legal() {
    let registry = delay_feedback_registry();
    let (graph, feedback_id) = delay_cycle_graph();
    let sem = run(&graph, &registry);
    assert!(!has_cycle(&sem), "cycle through delay should not produce a Cycle diagnostic");
    assert!(sem.delay_edges.contains(&feedback_id));
}

#[test]
fn delay_node_appears_before_feedback_source_in_eval_order() {
    let registry = delay_feedback_registry();
    let (graph, _) = delay_cycle_graph();
    let sem = run(&graph, &registry);
    let delay_idx = sem.eval_order.iter().position(|p| *p == pos(1, 0));
    let sink_idx = sem.eval_order.iter().position(|p| *p == pos(2, 0));
    assert!(delay_idx < sink_idx, "delay node should appear before sink in eval order");
}

#[test]
fn direct_cycle_without_delay_still_errors() {
    let registry = delay_feedback_registry();
    let graph = graph_of(
        "direct_cycle",
        2,
        vec![(pos(0, 0), sink_node("test.forward")), (pos(1, 0), sink_node("test.forward"))],
        vec![edge(1, pos(0, 0), pos(1, 0), "value"), edge(2, pos(1, 0), pos(0, 0), "value")],
    );
    let sem = run(&graph, &registry);
    assert!(has_cycle(&sem), "direct cycle without delay should produce a Cycle diagnostic");
    assert!(sem.delay_edges.len() == 0);
}

#[test]
fn delay_type_inference_uses_default_when_feedback_is_unresolved() {
    let registry = delay_feedback_registry();
    let (graph, _) = delay_cycle_graph();
    let sem = run(&graph, &registry);
    assert_eq!(sem.output_types.get(&pos(1, 0)), Some(&PortType::number()));
}

#[test]
fn delay_type_inference_uses_matching_default_and_feedback_type() {
    let registry = delay_feedback_registry();
    let (graph, delay) = delay_type_graph(Some(Value::from(0)), None, Some("test.number_source"));
    let sem = run(&graph, &registry);
    assert_eq!(sem.output_types.get(&delay), Some(&PortType::number()));
    assert!(!sem.diagnostics.iter().any(|d| matches!(d.kind, DiagnosticKind::DelayTypeMismatch { .. })));
}

#[test]
fn delay_type_inference_reports_mismatched_default_and_feedback_types() {
    let registry = delay_feedback_registry();
    let (graph, delay) = delay_type_graph(Some(Value::from("silence")), None, Some("test.number_source"));
    let sem = run(&graph, &registry);
    assert_eq!(sem.output_types.get(&delay), Some(&PortType::any()));
    assert!(sem.diagnostics.iter().any(|d| {
        matches!(
            &d.kind,
            DiagnosticKind::DelayTypeMismatch { default, feedback }
                if *default == PortType::text() && *feedback == PortType::number()
        )
    }));
}

#[test]
fn delay_type_inference_uses_default_type_without_feedback() {
    let registry = delay_feedback_registry();
    let (graph, delay) = delay_type_graph(Some(Value::from(0)), None, None);
    let sem = run(&graph, &registry);
    assert_eq!(sem.output_types.get(&delay), Some(&PortType::number()));
}

#[test]
fn delay_type_inference_uses_feedback_type_without_default() {
    let registry = delay_feedback_registry();
    let (graph, delay) = delay_type_graph(None, None, Some("test.number_source"));
    let sem = run(&graph, &registry);
    assert_eq!(sem.output_types.get(&delay), Some(&PortType::number()));
}

#[test]
fn delay_type_inference_prefers_edge_over_inline_default() {
    let registry = delay_feedback_registry();
    let (graph, delay) = delay_type_graph(Some(Value::from("silence")), Some("test.number_source"), None);
    let sem = run(&graph, &registry);
    assert_eq!(sem.output_types.get(&delay), Some(&PortType::number()));
}

// -- pieces, outputs and reachability --

#[test]
fn unknown_piece_is_reported_and_graph_without_output_is_an_error() {
    let registry = delay_feedback_registry();
    let graph = graph_of("unknown", 1, vec![(pos(0, 0), source_node("test.missing"))], vec![]);
    let sem = run(&graph, &registry);
    assert!(sem.diagnostics.iter().any(|d| matches!(&d.kind, DiagnosticKind::UnknownPiece { piece_id } if piece_id == "test.missing")));
    assert!(sem.diagnostics.iter().any(|d| matches!(d.kind, DiagnosticKind::NoOutputNode)));
    assert!(sem.terminals.is_empty());
}

#[test]
fn node_that_feeds_no_output_is_unreachable() {
    let registry = delay_feedback_registry();
    let graph = graph_of(
        "unreachable",
        3,
        vec![
            (pos(0, 0), source_node("test.number_source")),
            (pos(1, 0), sink_node("test.any_sink")),
            (pos(2, 0), source_node("test.pattern_source")),
        ],
        vec![edge(1, pos(0, 0), pos(1, 0), "value")],
    );
    let sem = run(&graph, &registry);
    assert_eq!(sem.terminals, vec![pos(1, 0)]);
    let unreachable: Vec<GridPos> = sem
        .diagnostics
        .iter()
        .filter_map(|d| match d.kind {
            DiagnosticKind::UnreachableNode { position } => Some(position),
            _ => None,
        })
        .collect();
    assert_eq!(unreachable, vec![pos(2, 0)]);
}
