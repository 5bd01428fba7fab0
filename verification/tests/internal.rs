use tessera::collections::SortedMap;
use tessera::diagnostics::DiagnosticKind;
use tessera::diagnostics::DiagnosticSeverity::{Error, Info, Warning};
use tessera::graph::{Edge, Graph, Node};
use tessera::internal::{
    duplicate_effective_input_sides, effective_input_side, effective_output_side, find_param, role_label,
    role_mismatch_reason, roles_compatible, side_from_to_node, validate_graph_edge_structure,
};
use tessera::piece::{ParamDef, ParamInlineMode, ParamSchema, ParamTextSemantics, ParamValueKind, PieceDef};
use tessera::piece_registry::PieceRegistry;
use tessera::subgraph::SUBGRAPH_INPUT_1_ID;
use tessera::text::Name;
use tessera::types::{EdgeId, GridPos, PieceCategory, PieceSemanticKind, PortRole, PortType, TileSide};

fn param(id: &str, side: TileSide) -> ParamDef {
    ParamDef {
        id: id.to_string(),
        label: id.to_string(),
        side,
        schema: ParamSchema::Number { can_inline: true },
        text_semantics: ParamTextSemantics::default(),
        variadic_group: None,
        required: false,
        role: PortRole::Value,
    }
}

fn def(id: &str, params: Vec<ParamDef>, output: Option<TileSide>) -> PieceDef {
    PieceDef {
        id: id.to_string(),
        label: id.to_string(),
        category: PieceCategory::Transform,
        semantic_kind: PieceSemanticKind::Operator,
        namespace: "core".to_string(),
        params,
        output_type: output.map(|_| PortType::number()),
        output_side: output,
        output_role: PortRole::Value,
        description: None,
        tags: vec![],
    }
}

fn node(piece_id: &str) -> Node {
    Node {
        piece_id: piece_id.to_string(),
        inline_params: SortedMap::new(),
        input_sides: SortedMap::new(),
        output_side: None,
        label: None,
        node_state: None,
    }
}

fn pos(col: i32, row: i32) -> GridPos {
    GridPos { col, row }
}

#[test]
fn find_param_takes_first_match() {
    let d = def("p", vec![param("a", TileSide::TOP), param("b", TileSide::LEFT), param("a", TileSide::RIGHT)], None);
    assert_eq!(find_param(&d, "a").unwrap().side, TileSide::TOP);
    assert_eq!(find_param(&d, "b").unwrap().side, TileSide::LEFT);
    assert!(find_param(&d, "c").is_none());
}

#[test]
fn effective_sides_prefer_node_assignments() {
    let d = def("p", vec![param("a", TileSide::TOP)], Some(TileSide::RIGHT));
    let mut n = node("p");
    assert_eq!(effective_input_side(&n, &d, "a"), Some(TileSide::TOP));
    assert_eq!(effective_input_side(&n, &d, "zzz"), None);
    n.input_sides.insert(Name::new("a"), TileSide::BOTTOM);
    assert_eq!(effective_input_side(&n, &d, "a"), Some(TileSide::BOTTOM));
    assert_eq!(effective_output_side(&n, &d), Some(TileSide::RIGHT));
    n.output_side = Some(TileSide::TOP);
    assert_eq!(effective_output_side(&n, &d), Some(TileSide::TOP));
    let no_output = def("q", vec![], None);
    assert_eq!(effective_output_side(&n, &no_output), None);
}

#[test]
fn duplicate_sides_are_grouped_in_side_order_and_sorted() {
    let d = def(
        "p",
        vec![
            param("zeta", TileSide::LEFT),
            param("alpha", TileSide::LEFT),
            param("top", TileSide::TOP),
            param("b2", TileSide::BOTTOM),
            param("b1", TileSide::BOTTOM),
        ],
        None,
    );
    let n = node("p");
    let clashes = duplicate_effective_input_sides(&n, &d);
    assert_eq!(
        clashes,
        vec![
            (TileSide::BOTTOM, vec!["b1".to_string(), "b2".to_string()]),
            (TileSide::LEFT, vec!["alpha".to_string(), "zeta".to_string()]),
        ]
    );
    let exempt = def(SUBGRAPH_INPUT_1_ID, vec![param("x", TileSide::LEFT), param("y", TileSide::LEFT)], None);
    assert!(duplicate_effective_input_sides(&n, &exempt).is_empty());
}

#[test]
fn side_from_to_node_names_the_neighbouring_side() {
    assert_eq!(side_from_to_node(&pos(1, 1), &pos(2, 1)), Some(TileSide::RIGHT));
    assert_eq!(side_from_to_node(&pos(1, 1), &pos(0, 1)), Some(TileSide::LEFT));
    assert_eq!(side_from_to_node(&pos(1, 1), &pos(1, 0)), Some(TileSide::TOP));
    assert_eq!(side_from_to_node(&pos(1, 1), &pos(1, 2)), Some(TileSide::BOTTOM));
    assert_eq!(side_from_to_node(&pos(1, 1), &pos(2, 2)), None);
}

#[test]
fn roles_compare_by_kind_and_field_name() {
    let f1 = PortRole::Field { name: "x".to_string() };
    let f2 = PortRole::Field { name: "y".to_string() };
    assert!(roles_compatible(&PortRole::Gate, &PortRole::Gate));
    assert!(!roles_compatible(&PortRole::Gate, &PortRole::Signal));
    assert!(roles_compatible(&f1, &PortRole::Field { name: "x".to_string() }));
    assert!(!roles_compatible(&f1, &f2));
    assert_eq!(role_label(&f1), "field:x");
    assert_eq!(role_label(&PortRole::Sequence), "sequence");
    assert_eq!(
        role_mismatch_reason(&PortRole::Value, &f2, "pattern"),
        "role_mismatch: expected value, got field:y for param 'pattern'"
    );
}

#[test]
fn edge_structure_reports_adjacency_and_sides() {
    let mut registry = PieceRegistry::new();
    registry.register(def("src", vec![], Some(TileSide::RIGHT)));
    registry.register(def("dst", vec![param("in", TileSide::LEFT), param("up", TileSide::TOP)], Some(TileSide::RIGHT)));
    let mut nodes = SortedMap::new();
    nodes.insert(pos(0, 0), node("src"));
    nodes.insert(pos(1, 0), node("dst"));
    nodes.insert(pos(1, 1), node("src"));
    let mut edges = SortedMap::new();
    let good = Edge { id: EdgeId(uuid::Uuid::from_u128(1)), from: pos(0, 0), to_node: pos(1, 0), to_param: "in".to_string() };
    let far = Edge { id: EdgeId(uuid::Uuid::from_u128(2)), from: pos(1, 1), to_node: pos(1, 0), to_param: "in".to_string() };
    let wrong_face =
        Edge { id: EdgeId(uuid::Uuid::from_u128(3)), from: pos(1, 1), to_node: pos(1, 0), to_param: "up".to_string() };
    edges.insert(good.id, good);
    edges.insert(far.id, far);
    edges.insert(wrong_face.id, wrong_face);
    let graph = Graph { nodes, edges, name: "g".to_string(), cols: 2, rows: 2 };

    let mut diagnostics = Vec::new();
    let pending = validate_graph_edge_structure(&graph, &registry, &mut diagnostics);
    assert_eq!(diagnostics.len(), 3);
    assert!(matches!(diagnostics[0].kind, DiagnosticKind::DuplicateConnection { .. }));
    assert!(matches!(diagnostics[1].kind, DiagnosticKind::NotAdjacent { .. }));
    assert!(matches!(diagnostics[2].kind, DiagnosticKind::NotAdjacent { .. }));
    assert_eq!(pending.len(), 1);
    assert_eq!(pending[0].param, "in");
    assert_eq!(pending[0].target_pos, pos(1, 0));
}

#[test]
fn edge_structure_reports_facing_mismatch_and_missing_side() {
    let mut registry = PieceRegistry::new();
    registry.register(def("src", vec![], Some(TileSide::TOP)));
    registry.register(def("dst", vec![param("in", TileSide::LEFT)], None));
    let mut nodes = SortedMap::new();
    nodes.insert(pos(0, 0), node("src"));
    nodes.insert(pos(1, 0), node("dst"));
    let mut edges = SortedMap::new();
    let e = Edge { id: EdgeId(uuid::Uuid::from_u128(7)), from: pos(0, 0), to_node: pos(1, 0), to_param: "in".to_string() };
    edges.insert(e.id, e);
    let graph = Graph { nodes, edges, name: "g".to_string(), cols: 2, rows: 1 };

    let mut diagnostics = Vec::new();
    let pending = validate_graph_edge_structure(&graph, &registry, &mut diagnostics);
    assert_eq!(diagnostics.len(), 1);
    assert!(matches!(
        diagnostics[0].kind,
        DiagnosticKind::SideMismatch { expected_side: TileSide::LEFT, .. }
    ));
    assert_eq!(pending.len(), 1);
}

#[test]
fn edge_structure_reports_unknown_param_and_dangling_end() {
    let mut registry = PieceRegistry::new();
    registry.register(def("src", vec![], Some(TileSide::RIGHT)));
    registry.register(def("dst", vec![], None));
    let mut nodes = SortedMap::new();
    nodes.insert(pos(0, 0), node("src"));
    nodes.insert(pos(1, 0), node("dst"));
    let mut edges = SortedMap::new();
    let e1 = Edge { id: EdgeId(uuid::Uuid::from_u128(1)), from: pos(0, 0), to_node: pos(1, 0), to_param: "in".to_string() };
    let e2 = Edge { id: EdgeId(uuid::Uuid::from_u128(2)), from: pos(4, 4), to_node: pos(1, 0), to_param: "in".to_string() };
    edges.insert(e1.id, e1);
    edges.insert(e2.id, e2);
    let graph = Graph { nodes, edges, name: "g".to_string(), cols: 2, rows: 1 };
    let mut diagnostics = Vec::new();
    let pending = validate_graph_edge_structure(&graph, &registry, &mut diagnostics);
    assert!(pending.is_empty());
    assert!(matches!(&diagnostics[0].kind, DiagnosticKind::UnknownParam { param, .. } if param == "in"));
    assert!(matches!(diagnostics[1].kind, DiagnosticKind::UnknownNode { pos: GridPos { col: 4, row: 4 } }));
}

#[test]
fn schemas_expect_their_port_types() {
    let custom = ParamSchema::Custom {
        port_type: PortType::new("pattern"),
        value_kind: ParamValueKind::Json,
        default: None,
        can_inline: true,
        inline_mode: ParamInlineMode::Ident,
    };
    assert_eq!(custom.expected_port_type(), PortType::new("pattern"));
    assert!(custom.can_inline());
    let enumerated = ParamSchema::Enum { options: vec!["a".to_string()], default: "a".to_string(), can_inline: false };
    assert_eq!(enumerated.expected_port_type(), PortType::text());
    assert!(!enumerated.can_inline());
    assert!(enumerated.accepts(&PortType::any()));
    assert!(!enumerated.accepts(&PortType::number()));
}

fn finding(kind: DiagnosticKind, severity: tessera::diagnostics::DiagnosticSeverity, site: Option<GridPos>, edge: Option<u128>) -> tessera::diagnostics::Diagnostic {
    tessera::diagnostics::Diagnostic { kind, site, edge_id: edge.map(|n| EdgeId(uuid::Uuid::from_u128(n))), severity }
}

fn invalid(reason: &str) -> DiagnosticKind {
    DiagnosticKind::InvalidOperation { reason: reason.to_string() }
}

fn reason_of(d: &tessera::diagnostics::Diagnostic) -> String {
    match &d.kind {
        DiagnosticKind::InvalidOperation { reason } => reason.clone(),
        DiagnosticKind::TypeMismatch { param, .. } => format!("type:{param}"),
        DiagnosticKind::NotAdjacent { .. } => "not_adjacent".to_string(),
        other => format!("{other:?}"),
    }
}

#[test]
fn curate_orders_by_severity_site_edge_and_kind_text() {
    let p = |c: i32, r: i32| Some(GridPos { col: c, row: r });
    let input = vec![
        (finding(invalid("info"), Info, None, None), "k1".to_string()),
        (finding(invalid("warn"), Warning, p(0, 0), None), "k1".to_string()),
        (finding(invalid("err-b"), Error, p(1, 0), None), "kb".to_string()),
        (finding(invalid("err-a"), Error, p(1, 0), None), "ka".to_string()),
        (finding(invalid("err-site-none"), Error, None, Some(3)), "kz".to_string()),
        (finding(invalid("err-edge"), Error, p(1, 0), Some(2)), "ka".to_string()),
        (finding(invalid("err-first-col"), Error, p(0, 5), None), "kz".to_string()),
    ];
    let out = tessera::internal::curate_diagnostics(input);
    let reasons: Vec<String> = out.iter().map(reason_of).collect();
    assert_eq!(reasons, vec!["err-site-none", "err-first-col", "err-a", "err-b", "err-edge", "warn", "info"]);
}

#[test]
fn curate_drops_type_findings_on_broken_edges_and_repeats() {
    let site = Some(GridPos { col: 1, row: 0 });
    let mismatch = || DiagnosticKind::TypeMismatch {
        expected: PortType::new("pattern"),
        got: PortType::new("number"),
        param: "pattern".to_string(),
    };
    let not_adjacent = DiagnosticKind::NotAdjacent { from_pos: GridPos { col: 5, row: 5 }, to_pos: GridPos { col: 1, row: 0 } };
    let input = vec![
        (finding(mismatch(), Error, site, Some(7)), "tm".to_string()),
        (finding(not_adjacent, Error, site, Some(7)), "na".to_string()),
        (finding(mismatch(), Error, site, Some(8)), "tm".to_string()),
        (finding(invalid("same"), Error, None, None), "dup".to_string()),
        (finding(invalid("same again"), Error, None, None), "dup".to_string()),
    ];
    let out = tessera::internal::curate_diagnostics(input);
    let reasons: Vec<String> = out.iter().map(reason_of).collect();
    assert_eq!(reasons, vec!["same", "not_adjacent", "type:pattern"]);
    assert_eq!(out[2].edge_id, Some(EdgeId(uuid::Uuid::from_u128(8))));
}
