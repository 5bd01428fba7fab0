use serde_json::Value;
use tessera::collections::SortedMap;
use tessera::diagnostics::DiagnosticKind;
use tessera::graph::{Edge, Graph, Node};
use tessera::piece::{ParamDef, ParamInlineMode, ParamSchema, ParamTextSemantics, ParamValueKind, PieceDef};
use tessera::piece_registry::PieceRegistry;
use tessera::subgraph::{
    analyze_subgraph, SubgraphInput, SubgraphInputPiece, SubgraphOutputPiece, SUBGRAPH_INPUT_1_ID, SUBGRAPH_INPUT_2_ID,
    SUBGRAPH_INPUT_3_ID, SUBGRAPH_OUTPUT_ID,
};
use tessera::text::Name;
use tessera::types::{EdgeId, ExecutionDomain, GridPos, PieceCategory, PieceSemanticKind, PortRole, PortType, TileSide};

fn pos(col: i32, row: i32) -> GridPos {
    GridPos { col, row }
}

fn simple_transform() -> PieceDef {
    PieceDef {
        id: "test.transform".into(),
        label: "xform".into(),
        category: PieceCategory::Transform,
        semantic_kind: PieceSemanticKind::Operator,
        namespace: "core".into(),
        params: vec![ParamDef {
            id: "input".into(),
            label: "input".into(),
            side: TileSide::LEFT,
            schema: ParamSchema::Custom {
                port_type: PortType::any(),
                value_kind: ParamValueKind::NoValue,
                default: None,
                can_inline: false,
                inline_mode: ParamInlineMode::Literal,
            },
            text_semantics: ParamTextSemantics::default(),
            variadic_group: None,
            required: true,
            role: PortRole::Value,
        }],
        output_type: Some(PortType::any()),
        output_side: Some(TileSide::RIGHT),
        output_role: PortRole::Value,
        description: None,
        tags: vec![],
    }
}

fn number_sink() -> PieceDef {
    let mut d = simple_transform();
    d.id = "test.number_sink".into();
    d.params[0].schema = ParamSchema::Number { can_inline: false };
    d
}

fn editor_registry() -> PieceRegistry {
    let mut registry = PieceRegistry::new();
    for slot in 1..=3u8 {
        let def = SubgraphInputPiece::new(slot).def().clone();
        registry.register_arc(def.id.clone(), def);
    }
    let out = SubgraphOutputPiece::new().def().clone();
    registry.register_arc(out.id.clone(), out);
    registry.register(simple_transform());
    registry.register(number_sink());
    registry
}

fn node(piece_id: &str, inline: Vec<(&str, Value)>, sides: Vec<(&str, TileSide)>) -> Node {
    let mut inline_params = SortedMap::new();
    for (k, v) in inline {
        inline_params.insert(Name::new(k), v);
    }
    let mut input_sides = SortedMap::new();
    for (k, s) in sides {
        input_sides.insert(Name::new(k), s);
    }
    Node { piece_id: piece_id.to_string(), inline_params, input_sides, output_side: None, label: None, node_state: None }
}

fn edge(n: u128, from: GridPos, to_node: GridPos, to_param: &str) -> Edge {
    Edge { id: EdgeId(uuid::Uuid::from_u128(n)), from, to_node, to_param: to_param.to_string() }
}

fn graph_of(name: &str, nodes: Vec<(GridPos, Node)>, edges: Vec<Edge>) -> Graph {
    let mut node_map = SortedMap::new();
    for (p, n) in nodes {
        node_map.insert(p, n);
    }
    let mut edge_map = SortedMap::new();
    for e in edges {
        edge_map.insert(e.id, e);
    }
    Graph { nodes: node_map, edges: edge_map, name: name.to_string(), cols: 3, rows: 1 }
}

fn simple_subgraph() -> (Graph, PieceRegistry) {
    let registry = editor_registry();
    let input_pos = pos(0, 0);
    let xform_pos = pos(1, 0);
    let output_pos = pos(2, 0);
    let graph = graph_of(
        "test_sub",
        vec![
            (input_pos, node(SUBGRAPH_INPUT_1_ID, vec![("label", Value::String("src".into()))], vec![])),
            (xform_pos, node("test.transform", vec![], vec![("input", TileSide::LEFT)])),
            (output_pos, node(SUBGRAPH_OUTPUT_ID, vec![], vec![("input", TileSide::LEFT)])),
        ],
        vec![edge(1, input_pos, xform_pos, "input"), edge(2, xform_pos, output_pos, "input")],
    );
    (graph, registry)
}

fn reasons(ds: &[tessera::diagnostics::Diagnostic]) -> Vec<String> {
    ds.iter()
        .filter_map(|d| match &d.kind {
            DiagnosticKind::InvalidOperation { reason } => Some(reason.clone()),
            _ => None,
        })
        .collect()
}

#[test]
fn subgraph_analyze_subgraph_extracts_signature() {
    let (graph, reg) = simple_subgraph();
    let sig = analyze_subgraph(&graph, &reg).expect("valid subgraph");
    assert_eq!(sig.inputs.len(), 1);
    assert_eq!(sig.inputs[0].slot, 1);
    assert_eq!(sig.inputs[0].label, "src");
    assert_eq!(sig.output_pos, GridPos { col: 2, row: 0 });
}

#[test]
fn analyze_subgraph_requires_single_output() {
    let registry = editor_registry();
    let graph = graph_of(
        "invalid",
        vec![
            (pos(0, 0), node(SUBGRAPH_INPUT_1_ID, vec![], vec![])),
            (pos(1, 0), node(SUBGRAPH_OUTPUT_ID, vec![], vec![("input", TileSide::LEFT)])),
            (pos(2, 0), node(SUBGRAPH_OUTPUT_ID, vec![], vec![("input", TileSide::LEFT)])),
        ],
        vec![],
    );
    let diagnostics = analyze_subgraph(&graph, &registry).expect_err("multiple outputs");
    assert!(diagnostics.iter().any(|diagnostic| matches!(diagnostic.kind, DiagnosticKind::InvalidOperation { .. })));
}

#[test]
fn analyze_subgraph_reads_input_metadata() {
    let registry = editor_registry();
    let graph = graph_of(
        "metadata",
        vec![
            (
                pos(0, 0),
                node(
                    SUBGRAPH_INPUT_1_ID,
                    vec![
                        ("label", Value::String("signal".into())),
                        ("port_type", Value::String("number".into())),
                        ("domain", Value::String("unspecified".into())),
                        ("required", Value::Bool(false)),
                        ("is_receiver", Value::Bool(true)),
                        ("default_value", Value::from(0.5)),
                    ],
                    vec![],
                ),
            ),
            (pos(2, 0), node(SUBGRAPH_OUTPUT_ID, vec![], vec![("input", TileSide::LEFT)])),
        ],
        vec![],
    );
    let sig = analyze_subgraph(&graph, &registry).expect("signature");
    assert_eq!(sig.inputs.len(), 1);
    let input = &sig.inputs[0];
    assert_eq!(input.label, "signal");
    assert_eq!(input.port_type, PortType::new("number").with_unspecified_domain());
    assert!(!input.required);
    assert!(input.is_receiver);
    assert_eq!(input.default_value, Some(Value::from(0.5)));
}

#[test]
fn analyze_subgraph_defaults_and_slot_order() {
    let registry = editor_registry();
    let graph = graph_of(
        "order",
        vec![
            (pos(0, 0), node(SUBGRAPH_INPUT_3_ID, vec![("domain", Value::String("audio".into()))], vec![])),
            (pos(0, 1), node(SUBGRAPH_INPUT_1_ID, vec![("label", Value::from(7))], vec![])),
            (pos(2, 0), node(SUBGRAPH_OUTPUT_ID, vec![], vec![])),
        ],
        vec![],
    );
    let sig = analyze_subgraph(&graph, &registry).expect("signature");
    assert_eq!(sig.inputs.len(), 2);
    assert_eq!(sig.inputs[0].slot, 1);
    assert_eq!(sig.inputs[0].label, "input 1");
    assert_eq!(sig.inputs[0].port_type, PortType::any());
    assert!(sig.inputs[0].required);
    assert!(!sig.inputs[0].is_receiver);
    assert_eq!(sig.inputs[0].default_value, None);
    assert_eq!(sig.inputs[1].slot, 3);
    assert_eq!(sig.inputs[1].label, "input 3");
    assert_eq!(sig.inputs[1].port_type, PortType::any().with_domain(ExecutionDomain::Audio));
    assert_eq!(sig.output_pos, pos(2, 0));
}

#[test]
fn analyze_subgraph_reports_every_boundary_error() {
    let registry = editor_registry();
    let receiver = || vec![("is_receiver", Value::Bool(true))];
    let graph = graph_of(
        "broken",
        vec![
            (pos(0, 0), node(SUBGRAPH_INPUT_1_ID, receiver(), vec![])),
            (pos(0, 1), node(SUBGRAPH_INPUT_1_ID, vec![], vec![])),
            (pos(0, 2), node(SUBGRAPH_INPUT_2_ID, receiver(), vec![])),
            (pos(0, 3), node(SUBGRAPH_INPUT_3_ID, vec![], vec![])),
        ],
        vec![],
    );
    let ds = analyze_subgraph(&graph, &registry).expect_err("broken boundary");
    assert_eq!(
        reasons(&ds),
        vec![
            "subgraph may declare at most 3 inputs".to_string(),
            "duplicate subgraph input slot 1".to_string(),
            "subgraph requires exactly one output".to_string(),
            "subgraph may declare at most one receiver input".to_string(),
        ]
    );
    assert_eq!(ds[0].site, Some(pos(0, 3)));
    assert_eq!(ds[1].site, Some(pos(0, 1)));
    assert_eq!(ds[2].site, None);
    assert_eq!(ds[3].site, Some(pos(0, 0)));
}

#[test]
fn analyze_subgraph_reports_mistyped_boundary_edges() {
    let registry = editor_registry();
    let graph = graph_of(
        "typed",
        vec![
            (pos(0, 0), node(SUBGRAPH_INPUT_1_ID, vec![("port_type", Value::String("text".into()))], vec![])),
            (pos(1, 0), node("test.number_sink", vec![], vec![("input", TileSide::LEFT)])),
            (pos(2, 0), node(SUBGRAPH_OUTPUT_ID, vec![], vec![("input", TileSide::LEFT)])),
        ],
        vec![edge(5, pos(0, 0), pos(1, 0), "input"), edge(6, pos(1, 0), pos(2, 0), "input")],
    );
    let ds = analyze_subgraph(&graph, &registry).expect_err("text into number");
    assert_eq!(ds.len(), 1);
    match &ds[0].kind {
        DiagnosticKind::TypeMismatch { expected, got, param } => {
            assert_eq!(*expected, PortType::number());
            assert_eq!(*got, PortType::text());
            assert_eq!(param, "input");
        },
        other => panic!("unexpected {other:?}"),
    }
    assert_eq!(ds[0].site, Some(pos(1, 0)));
    assert_eq!(ds[0].edge_id, Some(EdgeId(uuid::Uuid::from_u128(5))));
}

#[test]
fn subgraph_boundary_pieces_carry_their_definitions() {
    let second = SubgraphInputPiece::new(2);
    assert_eq!(second.slot(), 2);
    assert_eq!(second.def().id, SUBGRAPH_INPUT_2_ID);
    assert_eq!(second.def().label, "arg2");
    let ids: Vec<&str> = second.def().params.iter().map(|p| p.id.as_str()).collect();
    assert_eq!(ids, vec!["label", "port_type", "domain", "required", "is_receiver", "default_value"]);
    match &second.def().params[0].schema {
        ParamSchema::Text { default, can_inline } => {
            assert_eq!(default, "input 2");
            assert!(*can_inline);
        },
        other => panic!("unexpected {other:?}"),
    }
    assert_eq!(SubgraphInputPiece::new(9).def().id, SUBGRAPH_INPUT_1_ID);
    assert_eq!(SubgraphInputPiece::new(9).def().label, "arg9");
    let out = SubgraphOutputPiece::new();
    assert_eq!(out.def().id, SUBGRAPH_OUTPUT_ID);
    assert_eq!(out.def().output_type, None);
    assert!(out.def().params[0].required);
}

fn input_labelled(label: &str, slot: u8) -> SubgraphInput {
    SubgraphInput {
        slot,
        pos: pos(0, 0),
        label: label.to_string(),
        port_type: PortType::new("number"),
        required: false,
        is_receiver: false,
        default_value: None,
    }
}

#[test]
fn input_param_names_are_sanitised_labels() {
    assert_eq!(input_labelled("  my signal ", 1).param_name(), "my_signal");
    assert_eq!(input_labelled("3rd-input", 2).param_name(), "3rd_input");
    assert_eq!(input_labelled("x 9", 2).param_name(), "x_9");
    assert_eq!(input_labelled("a - b.c", 1).param_name(), "a_b_c");
    assert_eq!(input_labelled("__x$__", 1).param_name(), "x$");
    assert_eq!(input_labelled("   ", 3).param_name(), "arg3");
    assert_eq!(input_labelled("!!", 2).param_name(), "arg2");
}
