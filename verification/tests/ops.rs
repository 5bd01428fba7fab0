use tessera::collections::SortedMap;
use tessera::diagnostics::DiagnosticKind;
use tessera::graph::{BatchPlaceEdge, BatchPlaceEntry, Edge, Graph, GraphOp, Node};
use tessera::ops::auto_wire::auto_wire_node;
use tessera::ops::pruning::{
    edge_is_still_adjacent, edge_is_still_valid, prune_invalid_edges_for_node, prune_invalid_touching_edges,
};
use tessera::ops::{
    apply_ops_to_graph, pick_target_param_for_edge, probe_edge_connect, validate_edge_connect, ApplyOpsOutcome, EdgeConnectProbeReason,
    RepairSuggestion,
};
use tessera::piece::{ParamDef, ParamInlineMode, ParamSchema, ParamTextSemantics, ParamValueKind, PieceDef};
use tessera::piece_registry::PieceRegistry;
use tessera::text::Name;
use tessera::types::{EdgeId, GridPos, PieceCategory, PieceSemanticKind, PortRole, PortType, TileSide};

fn pos(col: i32, row: i32) -> GridPos {
    GridPos { col, row }
}

fn edge_id(n: u128) -> EdgeId {
    EdgeId(uuid::Uuid::from_u128(n))
}

fn pattern_schema() -> ParamSchema {
    ParamSchema::Custom {
        port_type: PortType::new("pattern"),
        value_kind: ParamValueKind::Text,
        default: None,
        can_inline: false,
        inline_mode: ParamInlineMode::Literal,
    }
}

fn param(id: &str, side: TileSide, schema: ParamSchema, required: bool) -> ParamDef {
    ParamDef {
        id: id.to_string(),
        label: id.to_string(),
        side,
        schema,
        text_semantics: ParamTextSemantics::default(),
        variadic_group: None,
        required,
        role: PortRole::Value,
    }
}

fn def(id: &str, category: PieceCategory, params: Vec<ParamDef>, output: Option<&str>) -> PieceDef {
    PieceDef {
        id: id.to_string(),
        label: id.to_string(),
        category,
        semantic_kind: if output.is_some() { PieceSemanticKind::Intrinsic } else { PieceSemanticKind::Output },
        namespace: "strudel".to_string(),
        params,
        output_type: output.map(PortType::new),
        output_side: output.map(|_| TileSide::RIGHT),
        output_role: PortRole::Value,
        description: None,
        tags: vec![],
    }
}

fn sample_registry() -> PieceRegistry {
    let mut registry = PieceRegistry::new();
    registry.register(def(
        "strudel.sound",
        PieceCategory::Generator,
        vec![param("value", TileSide::BOTTOM, ParamSchema::Text { default: "bd".to_string(), can_inline: true }, false)],
        Some("pattern"),
    ));
    registry.register(def(
        "strudel.fast",
        PieceCategory::Transform,
        vec![param("pattern", TileSide::LEFT, pattern_schema(), true)],
        Some("pattern"),
    ));
    registry.register(def(
        "strudel.output",
        PieceCategory::Output,
        vec![param("pattern", TileSide::LEFT, pattern_schema(), true)],
        None,
    ));
    registry.register(def("strudel.number", PieceCategory::Generator, vec![], Some("number")));
    registry
}

fn node(piece_id: &str) -> Node {
    Node {
        piece_id: piece_id.to_string(),
        inline_params: SortedMap::new(),
        input_sides: SortedMap::new(),
        output_side: None,
        label: None,
        node_state: None,
    }
}

fn edge(n: u128, from: GridPos, to_node: GridPos, to_param: &str) -> Edge {
    Edge { id: edge_id(n), from, to_node, to_param: to_param.to_string() }
}

fn graph_of(nodes: Vec<(GridPos, Node)>, edges: Vec<Edge>) -> Graph {
    let mut node_map = SortedMap::new();
    for (p, n) in nodes {
        node_map.insert(p, n);
    }
    let mut edge_map = SortedMap::new();
    for e in edges {
        edge_map.insert(e.id, e);
    }
    Graph { nodes: node_map, edges: edge_map, name: "ops".to_string(), cols: 9, rows: 9 }
}

fn chain_graph(edges: Vec<Edge>) -> Graph {
    graph_of(
        vec![(pos(0, 0), node("strudel.sound")), (pos(1, 0), node("strudel.fast")), (pos(2, 0), node("strudel.output"))],
        edges,
    )
}

fn edge_values(graph: &Graph) -> Vec<(GridPos, GridPos, String)> {
    (0..graph.edges.len())
        .map(|i| {
            let e = graph.edges.value_at(i);
            (e.from, e.to_node, e.to_param.clone())
        })
        .collect()
}

#[test]
fn pick_accepts_the_facing_param() {
    let graph = chain_graph(vec![]);
    let probe = pick_target_param_for_edge(&graph, &sample_registry(), &pos(0, 0), &pos(1, 0));
    assert_eq!(probe.to_param.as_deref(), Some("pattern"));
    assert_eq!(probe.reason, None);
    assert!(probe.suggestions.is_empty());
}

#[test]
fn pick_rejects_missing_source_node() {
    let graph = chain_graph(vec![]);
    let probe = pick_target_param_for_edge(&graph, &sample_registry(), &pos(5, -5), &pos(1, 0));
    assert_eq!(probe.reason, Some(EdgeConnectProbeReason::UnknownSourceNode));
    assert_eq!(probe.detail.as_deref(), Some("missing source node at (5, -5)"));
}

#[test]
fn pick_rejects_unknown_target_piece() {
    let graph = graph_of(vec![(pos(0, 0), node("strudel.sound")), (pos(1, 0), node("strudel.mystery"))], vec![]);
    let probe = pick_target_param_for_edge(&graph, &sample_registry(), &pos(0, 0), &pos(1, 0));
    assert_eq!(probe.reason, Some(EdgeConnectProbeReason::UnknownTargetPiece));
    assert_eq!(probe.detail.as_deref(), Some("unknown target piece 'strudel.mystery'"));
}

#[test]
fn pick_suggests_moving_a_distant_source_next_to_the_target() {
    let graph = graph_of(vec![(pos(4, 4), node("strudel.sound")), (pos(1, 0), node("strudel.fast"))], vec![]);
    let probe = pick_target_param_for_edge(&graph, &sample_registry(), &pos(4, 4), &pos(1, 0));
    assert_eq!(probe.reason, Some(EdgeConnectProbeReason::NotAdjacent));
    assert_eq!(probe.detail.as_deref(), Some("edge must come from an adjacent cell to (1, 0)"));
    assert_eq!(probe.suggestions.len(), 1);
    assert!(matches!(probe.suggestions[0], RepairSuggestion::MoveNode { node, to } if node == pos(4, 4) && to == pos(0, 0)));
}

#[test]
fn pick_reports_side_mismatch_with_output_repair() {
    let graph = graph_of(vec![(pos(1, 1), node("strudel.sound")), (pos(1, 0), node("strudel.fast"))], vec![]);
    let probe = pick_target_param_for_edge(&graph, &sample_registry(), &pos(1, 1), &pos(1, 0));
    assert_eq!(probe.reason, Some(EdgeConnectProbeReason::SideMismatch));
    assert_eq!(probe.detail.as_deref(), Some("side mismatch: source RIGHT does not face target BOTTOM"));
    assert!(matches!(
        probe.suggestions[0],
        RepairSuggestion::SetOutputSide { position, side } if position == pos(1, 1) && side == TileSide::TOP
    ));
}

#[test]
fn pick_suggests_turning_a_param_when_no_input_faces_the_source() {
    let mut source = node("strudel.sound");
    source.output_side = Some(TileSide::LEFT);
    let graph = graph_of(vec![(pos(2, 0), source), (pos(1, 0), node("strudel.fast"))], vec![]);
    let probe = pick_target_param_for_edge(&graph, &sample_registry(), &pos(2, 0), &pos(1, 0));
    assert_eq!(probe.reason, Some(EdgeConnectProbeReason::NoParamOnTargetSide));
    assert_eq!(probe.detail.as_deref(), Some("target has no input on side RIGHT for source (2, 0)"));
    assert!(matches!(
        &probe.suggestions[0],
        RepairSuggestion::SetParamSide { position, param_id, side }
            if *position == pos(1, 0) && param_id == "pattern" && *side == TileSide::RIGHT
    ));
}

#[test]
fn pick_suggests_disconnecting_an_occupied_param() {
    let mut other = node("strudel.sound");
    other.output_side = Some(TileSide::BOTTOM);
    let graph = graph_of(
        vec![(pos(0, 0), node("strudel.sound")), (pos(1, 0), node("strudel.fast")), (pos(1, -1), other)],
        vec![edge(7, pos(1, -1), pos(1, 0), "pattern")],
    );
    let probe = pick_target_param_for_edge(&graph, &sample_registry(), &pos(0, 0), &pos(1, 0));
    assert_eq!(probe.reason, Some(EdgeConnectProbeReason::TargetParamOccupied));
    assert_eq!(probe.detail.as_deref(), Some("all target params on side LEFT are already connected"));
    assert!(matches!(probe.suggestions[0], RepairSuggestion::DisconnectEdge { edge_id } if edge_id == edge_id_of(7)));
}

fn edge_id_of(n: u128) -> EdgeId {
    edge_id(n)
}

#[test]
fn pick_reports_type_mismatch() {
    let graph = graph_of(vec![(pos(0, 0), node("strudel.number")), (pos(1, 0), node("strudel.fast"))], vec![]);
    let probe = pick_target_param_for_edge(&graph, &sample_registry(), &pos(0, 0), &pos(1, 0));
    assert_eq!(probe.reason, Some(EdgeConnectProbeReason::TypeMismatch));
    assert_eq!(
        probe.detail.as_deref(),
        Some("type mismatch: no open target param on the connecting side accepts the source output type")
    );
}

#[test]
fn pick_refuses_output_from_a_terminal() {
    let mut terminal = node("strudel.output");
    terminal.output_side = None;
    let graph = graph_of(vec![(pos(0, 0), terminal), (pos(1, 0), node("strudel.fast"))], vec![]);
    let probe = pick_target_param_for_edge(&graph, &sample_registry(), &pos(0, 0), &pos(1, 0));
    assert_eq!(probe.reason, Some(EdgeConnectProbeReason::OutputFromTerminal));
    assert_eq!(probe.detail.as_deref(), Some("cannot connect output from terminal piece"));
}

#[test]
fn validate_accepts_a_sound_edge() {
    let graph = chain_graph(vec![]);
    assert!(validate_edge_connect(&graph, &sample_registry(), &pos(0, 0), &pos(1, 0), "pattern").is_ok());
}

#[test]
fn validate_rejects_unknown_param() {
    let graph = chain_graph(vec![]);
    let err = validate_edge_connect(&graph, &sample_registry(), &pos(0, 0), &pos(1, 0), "nope").unwrap_err();
    assert_eq!(err.reason, Some(EdgeConnectProbeReason::UnknownTargetParam));
    assert_eq!(err.detail.as_deref(), Some("unknown target param 'nope'"));
}

#[test]
fn validate_rejects_non_adjacent_source_with_move_repair() {
    let graph = graph_of(vec![(pos(3, 3), node("strudel.sound")), (pos(1, 0), node("strudel.fast"))], vec![]);
    let err = validate_edge_connect(&graph, &sample_registry(), &pos(3, 3), &pos(1, 0), "pattern").unwrap_err();
    assert_eq!(err.reason, Some(EdgeConnectProbeReason::NotAdjacent));
    assert_eq!(err.detail.as_deref(), Some("edge must come from adjacent LEFT cell (0, 0)"));
    assert!(matches!(err.suggestions[0], RepairSuggestion::MoveNode { node, to } if node == pos(3, 3) && to == pos(0, 0)));
}

#[test]
fn validate_rejects_occupied_param() {
    let graph = chain_graph(vec![edge(3, pos(0, 0), pos(1, 0), "pattern")]);
    let err = validate_edge_connect(&graph, &sample_registry(), &pos(0, 0), &pos(1, 0), "pattern").unwrap_err();
    assert_eq!(err.reason, Some(EdgeConnectProbeReason::TargetParamOccupied));
    assert_eq!(err.detail.as_deref(), Some("target param 'pattern' already connected"));
    assert!(matches!(err.suggestions[0], RepairSuggestion::DisconnectEdge { edge_id } if edge_id == edge_id_of(3)));
}

#[test]
fn validate_reports_type_mismatch_with_both_types() {
    let graph = graph_of(vec![(pos(0, 0), node("strudel.number")), (pos(1, 0), node("strudel.fast"))], vec![]);
    let err = validate_edge_connect(&graph, &sample_registry(), &pos(0, 0), &pos(1, 0), "pattern").unwrap_err();
    assert_eq!(err.reason, Some(EdgeConnectProbeReason::TypeMismatch));
    assert_eq!(
        err.detail.as_deref(),
        Some(
            "type mismatch: expected PortType { kind: \"pattern\", domain: Some(Control) }, got PortType { kind: \"number\", domain: Some(Control) }"
        )
    );
}

#[test]
fn probe_with_named_param_follows_validation() {
    let graph = chain_graph(vec![]);
    let registry = sample_registry();
    let accepted = probe_edge_connect(&graph, &registry, &pos(0, 0), &pos(1, 0), Some("pattern"));
    assert_eq!(accepted.to_param.as_deref(), Some("pattern"));
    let refused = probe_edge_connect(&graph, &registry, &pos(0, 0), &pos(1, 0), Some("nope"));
    assert_eq!(refused.to_param, None);
    assert_eq!(refused.reason, Some(EdgeConnectProbeReason::UnknownTargetParam));
    let picked = probe_edge_connect(&graph, &registry, &pos(1, 0), &pos(2, 0), None);
    assert_eq!(picked.to_param.as_deref(), Some("pattern"));
}

#[test]
fn edge_checks_follow_the_target_param_side() {
    let registry = sample_registry();
    let sound_edge = edge(1, pos(0, 0), pos(1, 0), "pattern");
    let graph = chain_graph(vec![]);
    assert!(edge_is_still_adjacent(&sound_edge, &graph, &registry));
    assert!(edge_is_still_valid(&sound_edge, &graph, &registry));

    let mut turned = node("strudel.fast");
    turned.input_sides.insert(Name::new("pattern"), TileSide::TOP);
    let graph = graph_of(vec![(pos(0, 0), node("strudel.sound")), (pos(1, 0), turned)], vec![]);
    assert!(!edge_is_still_adjacent(&sound_edge, &graph, &registry));
    assert!(!edge_is_still_valid(&sound_edge, &graph, &registry));

    let unknown_param = edge(2, pos(0, 0), pos(1, 0), "ghost");
    let graph = chain_graph(vec![]);
    assert!(edge_is_still_adjacent(&unknown_param, &graph, &registry));
    assert!(!edge_is_still_valid(&unknown_param, &graph, &registry));
}

#[test]
fn prune_after_move_drops_only_detached_touching_edges() {
    let registry = sample_registry();
    let mut graph = graph_of(
        vec![(pos(0, 1), node("strudel.sound")), (pos(1, 0), node("strudel.fast")), (pos(2, 0), node("strudel.output"))],
        vec![edge(1, pos(0, 1), pos(1, 0), "pattern"), edge(2, pos(1, 0), pos(2, 0), "pattern")],
    );
    let mut removed = Vec::new();
    prune_invalid_edges_for_node(&mut graph, &registry, &pos(0, 1), &mut removed);
    assert_eq!(removed.len(), 1);
    assert_eq!(removed[0].id, edge_id(1));
    assert_eq!(edge_values(&graph), vec![(pos(1, 0), pos(2, 0), "pattern".to_string())]);

    let mut again = Vec::new();
    prune_invalid_edges_for_node(&mut graph, &registry, &pos(0, 1), &mut again);
    assert!(again.is_empty());
    assert_eq!(graph.edges.len(), 1);
}

#[test]
fn prune_touching_edges_drops_edges_that_no_longer_typecheck() {
    let registry = sample_registry();
    let mut graph = graph_of(
        vec![(pos(0, 0), node("strudel.number")), (pos(1, 0), node("strudel.fast"))],
        vec![edge(9, pos(0, 0), pos(1, 0), "pattern")],
    );
    let mut removed = Vec::new();
    prune_invalid_touching_edges(&mut graph, &registry, &pos(1, 0), &mut removed);
    assert_eq!(removed.len(), 1);
    assert_eq!(graph.edges.len(), 0);
}

#[test]
fn auto_wire_node_records_connects_and_their_undo() {
    let registry = sample_registry();
    let mut graph = chain_graph(vec![]);
    let mut outcome = ApplyOpsOutcome::default();
    let mut chunks: Vec<Vec<GraphOp>> = Vec::new();
    auto_wire_node(&mut graph, &registry, &pos(1, 0), &mut outcome, &mut chunks);

    let edges = edge_values(&graph);
    assert_eq!(edges.len(), 2);
    assert!(edges.contains(&(pos(0, 0), pos(1, 0), "pattern".to_string())), "expected sound -> fast input edge");
    assert!(edges.contains(&(pos(1, 0), pos(2, 0), "pattern".to_string())), "expected fast -> output edge");
    assert_eq!(outcome.removed_edges.len(), 0);
    assert_eq!(outcome.applied_ops.len(), 2);
    assert!(outcome.applied_ops.iter().all(|op| matches!(op, GraphOp::EdgeConnect { edge_id: Some(_), .. })));
    assert_eq!(chunks.len(), 1);
    assert_eq!(chunks[0].len(), 2);
    assert!(chunks[0].iter().all(|op| matches!(op, GraphOp::EdgeDisconnect { .. })));
}

#[test]
fn auto_wire_node_removes_an_edge_a_turned_side_no_longer_accepts() {
    let registry = sample_registry();
    let mut turned = node("strudel.fast");
    turned.input_sides.insert(Name::new("pattern"), TileSide::TOP);
    let mut graph = graph_of(
        vec![(pos(0, 0), node("strudel.sound")), (pos(1, 0), turned)],
        vec![edge(5, pos(0, 0), pos(1, 0), "pattern")],
    );
    let mut outcome = ApplyOpsOutcome::default();
    let mut chunks: Vec<Vec<GraphOp>> = Vec::new();
    auto_wire_node(&mut graph, &registry, &pos(1, 0), &mut outcome, &mut chunks);

    assert_eq!(graph.edges.len(), 0);
    assert_eq!(outcome.removed_edges.len(), 1);
    assert_eq!(outcome.removed_edges[0].id, edge_id(5));
    assert!(matches!(&outcome.applied_ops[0], GraphOp::EdgeDisconnect { edge_id } if *edge_id == edge_id_of(5)));
    assert_eq!(chunks.len(), 1);
    assert!(matches!(
        &chunks[0][0],
        GraphOp::EdgeConnect { edge_id: Some(id), from, to_node, to_param }
            if *id == edge_id(5) && *from == pos(0, 0) && *to_node == pos(1, 0) && to_param == "pattern"
    ));
}

#[test]
fn node_auto_wire_leaves_a_lone_node_untouched() {
    let registry = sample_registry();
    let mut graph = graph_of(vec![(pos(4, 4), node("strudel.fast"))], vec![]);
    let mut outcome = ApplyOpsOutcome::default();
    let mut chunks: Vec<Vec<GraphOp>> = Vec::new();
    auto_wire_node(&mut graph, &registry, &pos(4, 4), &mut outcome, &mut chunks);
    assert_eq!(graph.edges.len(), 0);
    assert!(outcome.applied_ops.is_empty());
    assert!(chunks.is_empty());
    auto_wire_node(&mut graph, &registry, &pos(7, 7), &mut outcome, &mut chunks);
    assert!(chunks.is_empty());
}

// Applying operations
// ---------------------------------------------------------------------------

fn any_value(_piece: &str, _param: &str, _value: &serde_json::Value) -> bool {
    true
}

fn text_only(_piece: &str, _param: &str, value: &serde_json::Value) -> bool {
    value.is_string()
}

fn sound_node(value: &str) -> Node {
    let mut n = node("strudel.sound");
    n.inline_params.insert(Name::new("value"), serde_json::Value::String(value.to_string()));
    n
}

fn sample_swap_graph() -> Graph {
    graph_of(
        vec![(pos(0, 0), sound_node("bd")), (pos(1, 0), node("strudel.fast")), (pos(2, 0), node("strudel.output"))],
        vec![
            Edge { id: EdgeId::new(), from: pos(0, 0), to_node: pos(1, 0), to_param: "pattern".to_string() },
            Edge { id: EdgeId::new(), from: pos(1, 0), to_node: pos(2, 0), to_param: "pattern".to_string() },
        ],
    )
}

fn snapshot(graph: &Graph) -> String {
    format!("{:?}", graph)
}

fn is_invalid_operation(d: &tessera::diagnostics::Diagnostic) -> bool {
    matches!(d.kind, DiagnosticKind::InvalidOperation { .. })
}

fn reason(d: &tessera::diagnostics::Diagnostic) -> String {
    match &d.kind {
        DiagnosticKind::InvalidOperation { reason } => reason.clone(),
        other => panic!("unexpected diagnostic {:?}", other),
    }
}

#[test]
fn node_swap_rejects_out_of_bounds_and_missing_nodes() {
    let mut graph = sample_swap_graph();
    let registry = sample_registry();

    let out_of_bounds = match apply_ops_to_graph(
        &mut graph,
        &registry,
        &[GraphOp::NodeSwap { a: pos(-1, 0), b: pos(1, 0) }],
        &any_value,
    ) {
        Ok(_) => panic!("out-of-bounds swap must fail"),
        Err(errors) => errors,
    };
    assert!(out_of_bounds.iter().any(is_invalid_operation));

    let missing = match apply_ops_to_graph(
        &mut graph,
        &registry,
        &[GraphOp::NodeSwap { a: pos(0, 0), b: pos(8, 8) }],
        &any_value,
    ) {
        Ok(_) => panic!("swap with missing node must fail"),
        Err(errors) => errors,
    };
    assert!(missing.iter().any(is_invalid_operation));
}

#[test]
fn node_swap_is_invertible_and_restores_pruned_edges() {
    let mut graph = sample_swap_graph();
    let before = snapshot(&graph);
    let registry = sample_registry();

    let outcome = apply_ops_to_graph(&mut graph, &registry, &[GraphOp::NodeSwap { a: pos(0, 0), b: pos(1, 0) }], &any_value)
        .expect("swap should apply");

    assert!(outcome.applied_ops.iter().any(|op| matches!(op, GraphOp::NodeSwap { .. })));
    assert_eq!(graph.nodes.get(&pos(0, 0)).map(|n| n.piece_id.as_str()), Some("strudel.fast"));
    assert_eq!(graph.nodes.get(&pos(1, 0)).map(|n| n.piece_id.as_str()), Some("strudel.sound"));
    assert!(!outcome.removed_edges.is_empty());

    apply_ops_to_graph(&mut graph, &registry, outcome.undo_ops.as_slice(), &any_value)
        .expect("undo must restore swapped graph");
    assert_eq!(before, snapshot(&graph));
}

#[test]
fn resize_grid_prunes_out_of_bounds_nodes_with_invertible_undo() {
    let mut graph = sample_swap_graph();
    let mut kept = sound_node("sn");
    kept.label = Some("kept-source".to_string());
    graph.nodes.insert(pos(7, 0), kept);
    let mut trimmed = node("strudel.output");
    trimmed.label = Some("trimmed-terminal".to_string());
    trimmed.node_state = Some(serde_json::Value::String("opaque".to_string()));
    graph.nodes.insert(pos(8, 0), trimmed);
    let trimmed_edge = Edge { id: EdgeId::new(), from: pos(7, 0), to_node: pos(8, 0), to_param: "pattern".to_string() };
    graph.edges.insert(trimmed_edge.id, trimmed_edge.clone());

    let before = snapshot(&graph);
    let registry = sample_registry();
    let outcome = apply_ops_to_graph(&mut graph, &registry, &[GraphOp::ResizeGrid { cols: 8, rows: 9 }], &any_value)
        .expect("resize should succeed");

    assert_eq!(graph.cols, 8);
    assert_eq!(graph.rows, 9);
    assert!(!graph.nodes.contains_key(&pos(8, 0)));
    assert!(!graph.edges.contains_key(&trimmed_edge.id));
    assert!(outcome.removed_edges.iter().any(|e| e.id == trimmed_edge.id));

    apply_ops_to_graph(&mut graph, &registry, outcome.undo_ops.as_slice(), &any_value)
        .expect("undo should restore trimmed nodes and edges");
    assert_eq!(before, snapshot(&graph));
}

#[test]
fn node_auto_wire_connects_adjacent_input_and_output() {
    let registry = sample_registry();
    let mut graph = graph_of(
        vec![(pos(0, 0), sound_node("bd")), (pos(1, 0), node("strudel.fast")), (pos(2, 0), node("strudel.output"))],
        vec![],
    );

    let outcome = apply_ops_to_graph(&mut graph, &registry, &[GraphOp::NodeAutoWire { position: pos(1, 0) }], &any_value)
        .expect("auto wire should succeed");

    let edges = edge_values(&graph);
    assert_eq!(graph.edges.len(), 2);
    assert!(edges.contains(&(pos(0, 0), pos(1, 0), "pattern".to_string())), "expected sound -> fast input edge");
    assert!(edges.contains(&(pos(1, 0), pos(2, 0), "pattern".to_string())), "expected fast -> output edge");
    assert_eq!(outcome.removed_edges.len(), 0);
    assert_eq!(outcome.undo_ops.len(), 2);
}

// The parameter's input is turned away from the source (to the top), so the
// edge from the left no longer fits.
#[test]
fn node_auto_wire_removes_invalid_edge_and_respects_none_side() {
    let registry = sample_registry();
    let edge = Edge { id: EdgeId::new(), from: pos(0, 0), to_node: pos(1, 0), to_param: "pattern".to_string() };
    let mut turned = node("strudel.fast");
    turned.input_sides.insert(Name::new("pattern"), TileSide::TOP);
    let mut graph = graph_of(vec![(pos(0, 0), sound_node("bd")), (pos(1, 0), turned)], vec![edge.clone()]);

    let outcome = apply_ops_to_graph(&mut graph, &registry, &[GraphOp::NodeAutoWire { position: pos(1, 0) }], &any_value)
        .expect("auto wire should prune invalid edge");

    assert!(graph.edges.is_empty());
    assert_eq!(outcome.removed_edges.len(), 1);
    assert_eq!(outcome.removed_edges[0].id, edge.id);
    apply_ops_to_graph(&mut graph, &registry, outcome.undo_ops.as_slice(), &any_value)
        .expect("undo should restore removed edge");
    assert_eq!(graph.edges.len(), 1);
}

#[test]
fn node_place_checks_cell_piece_and_inline_values() {
    let registry = sample_registry();
    let mut graph = chain_graph(vec![]);
    let mut values = SortedMap::new();
    values.insert(Name::new("value"), serde_json::Value::Bool(true));
    values.insert(Name::new("speed"), serde_json::Value::Bool(true));
    let errors = apply_ops_to_graph(
        &mut graph,
        &registry,
        &[
            GraphOp::NodePlace { position: pos(0, 0), piece_id: "strudel.sound".to_string(), inline_params: SortedMap::new() },
            GraphOp::NodePlace { position: pos(9, 0), piece_id: "strudel.sound".to_string(), inline_params: SortedMap::new() },
            GraphOp::NodePlace { position: pos(3, 3), piece_id: "strudel.nope".to_string(), inline_params: SortedMap::new() },
            GraphOp::NodePlace { position: pos(3, 3), piece_id: "strudel.sound".to_string(), inline_params: values },
        ],
        &text_only,
    )
    .expect_err("every placement is refused");
    let reasons: Vec<String> = errors.iter().map(reason).collect();
    assert_eq!(
        reasons,
        vec![
            "node already exists at (0, 0)".to_string(),
            "node_place out of bounds at (9, 0), allowed cols=[0..9), rows=[0..9)".to_string(),
            "unknown piece id 'strudel.nope'".to_string(),
            "unknown inline param 'speed'".to_string(),
            "inline value has wrong type for 'value'".to_string(),
        ]
    );
    assert_eq!(errors[0].site, Some(pos(0, 0)));
    assert!(!graph.nodes.contains_key(&pos(3, 3)));
}

#[test]
fn node_place_and_its_undo() {
    let registry = sample_registry();
    let mut graph = chain_graph(vec![]);
    let before = snapshot(&graph);
    let mut values = SortedMap::new();
    values.insert(Name::new("value"), serde_json::Value::String("hh".to_string()));
    let outcome = apply_ops_to_graph(
        &mut graph,
        &registry,
        &[GraphOp::NodePlace { position: pos(4, 4), piece_id: "strudel.sound".to_string(), inline_params: values }],
        &text_only,
    )
    .expect("placement applies");
    let placed = graph.nodes.get(&pos(4, 4)).expect("placed");
    assert_eq!(placed.piece_id, "strudel.sound");
    assert_eq!(placed.inline_params.get(&Name::new("value")), Some(&serde_json::Value::String("hh".to_string())));
    assert!(matches!(&outcome.undo_ops[..], [GraphOp::NodeRemove { position }] if *position == pos(4, 4)));
    apply_ops_to_graph(&mut graph, &registry, &outcome.undo_ops, &any_value).expect("undo applies");
    assert_eq!(before, snapshot(&graph));
}

#[test]
fn side_label_state_and_inline_edits_undo_in_reverse_order() {
    let registry = sample_registry();
    let mut graph = graph_of(vec![(pos(0, 0), sound_node("bd")), (pos(1, 0), node("strudel.fast"))], vec![]);
    let before = snapshot(&graph);
    let outcome = apply_ops_to_graph(
        &mut graph,
        &registry,
        &[
            GraphOp::ParamSetSide { position: pos(1, 0), param_id: "pattern".to_string(), side: TileSide::TOP },
            GraphOp::OutputSetSide { position: pos(0, 0), side: TileSide::BOTTOM },
            GraphOp::NodeSetLabel { position: pos(0, 0), label: Some("kick".to_string()) },
            GraphOp::NodeSetState { position: pos(1, 0), state: Some(serde_json::Value::Bool(true)) },
            GraphOp::ParamSetInline {
                position: pos(0, 0),
                param_id: "value".to_string(),
                value: serde_json::Value::String("sn".to_string()),
            },
            GraphOp::ParamClearSide { position: pos(1, 0), param_id: "pattern".to_string() },
            GraphOp::OutputClearSide { position: pos(0, 0) },
        ],
        &text_only,
    )
    .expect("edits apply");
    assert_eq!(outcome.applied_ops.len(), 7);
    assert_eq!(outcome.undo_ops.len(), 7);
    assert!(matches!(&outcome.undo_ops[0], GraphOp::OutputSetSide { side: TileSide::BOTTOM, .. }));
    assert!(matches!(&outcome.undo_ops[6], GraphOp::ParamClearSide { .. }));
    let sound = graph.nodes.get(&pos(0, 0)).unwrap();
    assert_eq!(sound.label.as_deref(), Some("kick"));
    assert_eq!(sound.inline_params.get(&Name::new("value")), Some(&serde_json::Value::String("sn".to_string())));
    apply_ops_to_graph(&mut graph, &registry, &outcome.undo_ops, &any_value).expect("undo applies");
    assert_eq!(before, snapshot(&graph));
}

#[test]
fn unchanged_values_record_nothing() {
    let registry = sample_registry();
    let mut graph = graph_of(vec![(pos(0, 0), sound_node("bd"))], vec![]);
    let outcome = apply_ops_to_graph(
        &mut graph,
        &registry,
        &[
            GraphOp::ParamSetInline {
                position: pos(0, 0),
                param_id: "value".to_string(),
                value: serde_json::Value::String("bd".to_string()),
            },
            GraphOp::ParamClearSide { position: pos(0, 0), param_id: "value".to_string() },
            GraphOp::OutputClearSide { position: pos(0, 0) },
            GraphOp::NodeMove { from: pos(0, 0), to: pos(0, 0) },
            GraphOp::ResizeGrid { cols: 9, rows: 9 },
        ],
        &text_only,
    )
    .expect("nothing to do");
    assert!(outcome.applied_ops.is_empty());
    assert!(outcome.undo_ops.is_empty());
}

#[test]
fn node_edits_report_their_errors() {
    let registry = sample_registry();
    let mut graph = graph_of(vec![(pos(0, 0), sound_node("bd")), (pos(2, 0), node("strudel.output"))], vec![]);
    let errors = apply_ops_to_graph(
        &mut graph,
        &registry,
        &[
            GraphOp::NodeSetLabel { position: pos(3, 3), label: None },
            GraphOp::ParamSetSide { position: pos(0, 0), param_id: "speed".to_string(), side: TileSide::TOP },
            GraphOp::OutputSetSide { position: pos(2, 0), side: TileSide::TOP },
            GraphOp::ParamSetInline {
                position: pos(0, 0),
                param_id: "value".to_string(),
                value: serde_json::Value::Bool(false),
            },
            GraphOp::ResizeGrid { cols: 0, rows: 3 },
            GraphOp::EdgeDisconnect { edge_id: edge_id(0x1234) },
            GraphOp::NodeRemove { position: pos(5, 5) },
        ],
        &text_only,
    )
    .expect_err("all refused");
    let reasons: Vec<String> = errors.iter().map(reason).collect();
    assert_eq!(
        reasons,
        vec![
            "missing node at (3, 3)".to_string(),
            "unknown param 'speed'".to_string(),
            "cannot set output side on terminal piece".to_string(),
            "inline value has wrong type for 'value'".to_string(),
            "grid dimensions must be at least 1x1".to_string(),
            "missing edge '00000000-0000-0000-0000-000000001234'".to_string(),
            "missing node at (5, 5)".to_string(),
        ]
    );
    assert_eq!(errors[5].site, None);
}

#[test]
fn edge_connect_validates_new_edges_and_restores_named_ones() {
    let registry = sample_registry();
    let mut graph = chain_graph(vec![]);
    let errors = apply_ops_to_graph(
        &mut graph,
        &registry,
        &[
            GraphOp::EdgeConnect { edge_id: None, from: pos(-1, 0), to_node: pos(9, 0), to_param: "pattern".to_string() },
            GraphOp::EdgeConnect { edge_id: None, from: pos(4, 4), to_node: pos(1, 0), to_param: "pattern".to_string() },
            GraphOp::EdgeConnect { edge_id: None, from: pos(0, 0), to_node: pos(1, 0), to_param: "  ".to_string() },
            GraphOp::EdgeConnect { edge_id: None, from: pos(0, 0), to_node: pos(1, 0), to_param: "speed".to_string() },
        ],
        &any_value,
    )
    .expect_err("refused");
    let reasons: Vec<String> = errors.iter().map(reason).collect();
    assert_eq!(reasons.len(), 5);
    assert!(reasons[0].starts_with("edge_connect source out of bounds at (-1, 0)"));
    assert!(reasons[1].starts_with("edge_connect target out of bounds at (9, 0)"));
    assert_eq!(reasons[2], "missing source node at (4, 4)");
    assert_eq!(reasons[3], "edge target param cannot be empty");
    assert_eq!(reasons[4], "unknown target param 'speed'");

    // A named edge is restored without the wiring rules.
    let outcome = apply_ops_to_graph(
        &mut graph,
        &registry,
        &[GraphOp::EdgeConnect {
            edge_id: Some(edge_id(7)),
            from: pos(2, 0),
            to_node: pos(0, 0),
            to_param: "value".to_string(),
        }],
        &any_value,
    )
    .expect("restoring applies");
    assert!(graph.edges.contains_key(&edge_id(7)));
    assert!(matches!(&outcome.undo_ops[..], [GraphOp::EdgeDisconnect { edge_id }] if *edge_id == edge_id_of(7)));
    let again = apply_ops_to_graph(
        &mut graph,
        &registry,
        &[GraphOp::EdgeConnect { edge_id: Some(edge_id(7)), from: pos(0, 0), to_node: pos(1, 0), to_param: "pattern".to_string() }],
        &any_value,
    )
    .expect_err("the id is taken");
    assert_eq!(reason(&again[0]), "edge id '00000000-0000-0000-0000-000000000007' already exists");
}

#[test]
fn node_move_carries_edges_and_prunes_the_detached() {
    let registry = sample_registry();
    let mut graph = chain_graph(vec![edge(1, pos(0, 0), pos(1, 0), "pattern"), edge(2, pos(1, 0), pos(2, 0), "pattern")]);
    let before = snapshot(&graph);
    let outcome = apply_ops_to_graph(&mut graph, &registry, &[GraphOp::NodeMove { from: pos(2, 0), to: pos(2, 3) }], &any_value)
        .expect("move applies");
    assert!(graph.nodes.contains_key(&pos(2, 3)));
    assert!(!graph.nodes.contains_key(&pos(2, 0)));
    assert_eq!(edge_values(&graph), vec![(pos(0, 0), pos(1, 0), "pattern".to_string())]);
    assert_eq!(outcome.removed_edges.len(), 1);
    assert_eq!(outcome.removed_edges[0].to_node, pos(2, 3));
    assert!(matches!(&outcome.undo_ops[0], GraphOp::NodeMove { from, to } if *from == pos(2, 3) && *to == pos(2, 0)));
    apply_ops_to_graph(&mut graph, &registry, &outcome.undo_ops, &any_value).expect("undo applies");
    assert_eq!(before, snapshot(&graph));
}

#[test]
fn node_remove_takes_its_edges_and_undo_puts_everything_back() {
    let registry = sample_registry();
    let mut fast = node("strudel.fast");
    fast.label = Some("double".to_string());
    fast.input_sides.insert(Name::new("pattern"), TileSide::LEFT);
    fast.output_side = Some(TileSide::RIGHT);
    let mut graph = graph_of(
        vec![(pos(0, 0), sound_node("bd")), (pos(1, 0), fast), (pos(2, 0), node("strudel.output"))],
        vec![edge(1, pos(0, 0), pos(1, 0), "pattern"), edge(2, pos(1, 0), pos(2, 0), "pattern")],
    );
    let before = snapshot(&graph);
    let outcome = apply_ops_to_graph(&mut graph, &registry, &[GraphOp::NodeRemove { position: pos(1, 0) }], &any_value)
        .expect("remove applies");
    assert!(graph.edges.is_empty());
    assert_eq!(outcome.removed_edges.len(), 2);
    assert_eq!(outcome.undo_ops.len(), 6);
    apply_ops_to_graph(&mut graph, &registry, &outcome.undo_ops, &any_value).expect("undo applies");
    assert_eq!(before, snapshot(&graph));
}

#[test]
fn batch_place_is_all_or_nothing() {
    let registry = sample_registry();
    let mut graph = chain_graph(vec![]);
    let before = snapshot(&graph);
    let entry = |p: GridPos, piece: &str| BatchPlaceEntry {
        position: p,
        piece_id: piece.to_string(),
        inline_params: SortedMap::new(),
        input_sides: SortedMap::new(),
        output_side: None,
        label: None,
    };
    let errors = apply_ops_to_graph(
        &mut graph,
        &registry,
        &[GraphOp::NodeBatchPlace {
            nodes: vec![entry(pos(4, 4), "strudel.sound"), entry(pos(4, 4), "strudel.fast"), entry(pos(5, 4), "strudel.nope")],
            edges: vec![],
            auto_wire: false,
        }],
        &any_value,
    )
    .expect_err("a refused entry refuses the batch");
    let reasons: Vec<String> = errors.iter().map(reason).collect();
    assert_eq!(reasons, vec!["node already exists at (4, 4)".to_string(), "unknown piece id 'strudel.nope'".to_string()]);
    assert_eq!(before, snapshot(&graph));

    let outcome = apply_ops_to_graph(
        &mut graph,
        &registry,
        &[GraphOp::NodeBatchPlace {
            nodes: vec![entry(pos(4, 4), "strudel.sound"), entry(pos(5, 4), "strudel.fast"), entry(pos(6, 4), "strudel.output")],
            edges: vec![BatchPlaceEdge { from: pos(4, 4), to_node: pos(5, 4), to_param: "pattern".to_string() }],
            auto_wire: true,
        }],
        &any_value,
    )
    .expect("batch applies");
    assert!(graph.nodes.contains_key(&pos(6, 4)));
    let edges = edge_values(&graph);
    assert!(edges.contains(&(pos(4, 4), pos(5, 4), "pattern".to_string())));
    assert!(edges.contains(&(pos(5, 4), pos(6, 4), "pattern".to_string())));
    assert_eq!(edges.len(), 2);
    assert!(matches!(&outcome.applied_ops[0], GraphOp::NodeBatchPlace { nodes, edges, auto_wire: false } if nodes.len() == 3 && edges.is_empty()));
    apply_ops_to_graph(&mut graph, &registry, &outcome.undo_ops, &any_value).expect("undo applies");
    assert_eq!(before, snapshot(&graph));
}

#[test]
fn node_auto_wire_is_undone_by_its_undo_ops() {
    let registry = sample_registry();
    let stale = Edge { id: EdgeId::new(), from: pos(0, 0), to_node: pos(1, 0), to_param: "pattern".to_string() };
    let mut turned = node("strudel.fast");
    turned.input_sides.insert(Name::new("pattern"), TileSide::TOP);
    let mut graph = graph_of(
        vec![(pos(0, 0), sound_node("bd")), (pos(1, 0), turned), (pos(2, 0), node("strudel.output"))],
        vec![stale.clone()],
    );
    let before = snapshot(&graph);
    let outcome = apply_ops_to_graph(&mut graph, &registry, &[GraphOp::NodeAutoWire { position: pos(1, 0) }], &any_value)
        .expect("auto wire applies");
    assert!(!graph.edges.contains_key(&stale.id));
    assert_ne!(before, snapshot(&graph));
    apply_ops_to_graph(&mut graph, &registry, &outcome.undo_ops, &any_value).expect("undo applies");
    assert_eq!(before, snapshot(&graph));
}

#[test]
fn batch_place_without_edges_is_undone_by_its_undo_ops() {
    let registry = sample_registry();
    let mut graph = chain_graph(vec![edge(7, pos(0, 0), pos(1, 0), "pattern")]);
    let before = snapshot(&graph);
    let entry = |p: GridPos, piece: &str| BatchPlaceEntry {
        position: p,
        piece_id: piece.to_string(),
        inline_params: SortedMap::new(),
        input_sides: SortedMap::new(),
        output_side: None,
        label: Some("placed".to_string()),
    };
    let outcome = apply_ops_to_graph(
        &mut graph,
        &registry,
        &[GraphOp::NodeBatchPlace {
            nodes: vec![entry(pos(3, 3), "strudel.sound"), entry(pos(4, 3), "strudel.fast")],
            edges: vec![],
            auto_wire: false,
        }],
        &any_value,
    )
    .expect("batch applies");
    assert_eq!(graph.nodes.len(), 5);
    assert_eq!(outcome.undo_ops.len(), 2);
    apply_ops_to_graph(&mut graph, &registry, &outcome.undo_ops, &any_value).expect("undo applies");
    assert_eq!(before, snapshot(&graph));
}
