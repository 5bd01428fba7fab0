use tessera::piece::{PieceDef, PieceExecutionKind, ParamDef, ParamInlineMode, ParamSchema, ParamTextSemantics, ParamValueKind};
use tessera::piece_registry::PieceRegistry;
use tessera::types::{PieceCategory, PieceSemanticKind, PortRole, PortType, TileSide, DELAY_PIECE_ID};

fn def(id: &str, category: PieceCategory, kind: PieceSemanticKind, namespace: &str, output: Option<PortType>) -> PieceDef {
    PieceDef {
        id: id.to_string(),
        label: id.to_string(),
        category,
        semantic_kind: kind,
        namespace: namespace.to_string(),
        params: vec![],
        output_type: output,
        output_side: Some(TileSide::RIGHT),
        output_role: PortRole::Value,
        description: None,
        tags: vec![],
    }
}

#[test]
fn visible_defs_returns_core_matching_namespace_and_tricks() {
    let mut registry = PieceRegistry::new();
    registry.register(def("core.not", PieceCategory::Transform, PieceSemanticKind::Operator, "core", Some(PortType::new("bool"))));
    registry.register(def(
        "strudel.fast",
        PieceCategory::Transform,
        PieceSemanticKind::Intrinsic,
        "strudel",
        Some(PortType::new("pattern")),
    ));
    registry.register(def("user.twist", PieceCategory::Trick, PieceSemanticKind::Trick, "user", Some(PortType::new("any"))));

    let visible = registry.visible_defs("strudel");
    let ids = visible.iter().map(|d| d.id.as_str()).collect::<Vec<_>>();
    assert_eq!(ids, vec!["core.not", "strudel.fast", "user.twist"]);

    let visible = registry.visible_defs("lua");
    let ids = visible.iter().map(|d| d.id.as_str()).collect::<Vec<_>>();
    assert_eq!(ids, vec!["core.not", "user.twist"]);
}

#[test]
fn registry_replaces_by_id_and_lists_in_id_order() {
    let mut registry = PieceRegistry::new();
    registry.register(def("b", PieceCategory::Constant, PieceSemanticKind::Literal, "core", None));
    registry.register(def("a", PieceCategory::Constant, PieceSemanticKind::Literal, "core", None));
    registry.register(def("b", PieceCategory::Output, PieceSemanticKind::Output, "core", None));
    let all = registry.all_defs();
    assert_eq!(all.len(), 2);
    assert_eq!(all[0].id, "a");
    assert_eq!(all[1].category, PieceCategory::Output);
    assert!(registry.get("b").unwrap().is_output());
    assert!(registry.get("c").is_none());
}

#[test]
fn piece_def_output_detection_is_explicit() {
    let output = PieceDef { output_side: None, ..def("test.output", PieceCategory::Output, PieceSemanticKind::Output, "core", None) };
    let transform = def(
        "test.transform",
        PieceCategory::Transform,
        PieceSemanticKind::Operator,
        "core",
        Some(PortType::number()),
    );

    assert!(output.is_output());
    assert!(!transform.is_output());
}

#[test]
fn piece_execution_kind_tracks_kernel_taxonomy() {
    let pure = def("test.literal", PieceCategory::Constant, PieceSemanticKind::Literal, "core", Some(PortType::number()));
    let output = PieceDef { output_side: None, ..def("test.output", PieceCategory::Output, PieceSemanticKind::Output, "core", None) };
    let mut connector = def("test.connector", PieceCategory::Connector, PieceSemanticKind::Connector, "core", None);
    connector.params = vec![ParamDef {
        id: "value".to_string(),
        label: "value".to_string(),
        side: TileSide::LEFT,
        schema: ParamSchema::Custom {
            port_type: PortType::any(),
            value_kind: ParamValueKind::Json,
            default: None,
            can_inline: false,
            inline_mode: ParamInlineMode::Literal,
        },
        text_semantics: ParamTextSemantics::default(),
        variadic_group: None,
        required: false,
        role: PortRole::Value,
    }];
    let state = def(DELAY_PIECE_ID, PieceCategory::Control, PieceSemanticKind::Construct, "core", Some(PortType::any()));

    assert_eq!(pure.execution_kind(), PieceExecutionKind::Pure);
    assert_eq!(state.execution_kind(), PieceExecutionKind::State);
    assert_eq!(output.execution_kind(), PieceExecutionKind::Boundary);
    assert_eq!(connector.execution_kind(), PieceExecutionKind::Connector);
    assert!(connector.connector_param().is_some());
    assert!(pure.connector_param().is_none());
    assert!(connector.has_output());
    assert!(!output.has_output());
}

fn param(id: &str, side: TileSide) -> ParamDef {
    ParamDef {
        id: id.to_string(),
        label: id.to_string(),
        side,
        schema: ParamSchema::Custom {
            port_type: PortType::new("pattern"),
            value_kind: ParamValueKind::Json,
            default: None,
            can_inline: false,
            inline_mode: ParamInlineMode::Literal,
        },
        text_semantics: ParamTextSemantics::default(),
        variadic_group: None,
        required: false,
        role: PortRole::Value,
    }
}

fn finding_reasons(registry: &PieceRegistry) -> Vec<String> {
    tessera::internal::registry_sanity_diagnostics(registry)
        .into_iter()
        .map(|d| match d.kind {
            tessera::diagnostics::DiagnosticKind::InvalidOperation { reason } => reason,
            other => panic!("unexpected kind {other:?}"),
        })
        .collect()
}

#[test]
fn register_arc_keys_by_the_given_id_and_duplicates_are_listed_once() {
    let mut registry = PieceRegistry::new();
    registry.register_arc("alias.one".to_string(), def("x.piece", PieceCategory::Constant, PieceSemanticKind::Literal, "core", Some(PortType::new("number"))));
    registry.register_arc("alias.two".to_string(), def("x.piece", PieceCategory::Constant, PieceSemanticKind::Literal, "core", Some(PortType::new("number"))));
    registry.register_arc("alias.three".to_string(), def("x.piece", PieceCategory::Constant, PieceSemanticKind::Literal, "core", Some(PortType::new("number"))));
    registry.register(def("a.piece", PieceCategory::Constant, PieceSemanticKind::Literal, "core", Some(PortType::new("number"))));
    assert_eq!(registry.get("alias.two").unwrap().id, "x.piece");
    assert!(registry.get("x.piece").is_none());
    assert_eq!(registry.duplicate_piece_ids(), vec!["x.piece".to_string()]);
    assert_eq!(finding_reasons(&registry), vec!["invalid_registry: duplicate piece id 'x.piece'".to_string()]);
}

#[test]
fn sound_registry_has_no_findings() {
    let mut registry = PieceRegistry::new();
    let mut fast = def("strudel.fast", PieceCategory::Transform, PieceSemanticKind::Intrinsic, "strudel", Some(PortType::new("pattern")));
    fast.params = vec![param("pattern", TileSide::LEFT), param("factor", TileSide::TOP)];
    registry.register(fast);
    assert!(registry.duplicate_piece_ids().is_empty());
    assert!(finding_reasons(&registry).is_empty());
}

#[test]
fn registry_sanity_reports_each_problem_of_a_definition_in_order() {
    let mut registry = PieceRegistry::new();
    let mut bad = def("bad.piece", PieceCategory::Connector, PieceSemanticKind::Intrinsic, "core", None);
    bad.params = vec![
        param("zeta", TileSide::LEFT),
        param("alpha", TileSide::LEFT),
        param("zeta", TileSide::TOP),
        param("mid", TileSide::LEFT),
    ];
    registry.register(bad);
    let mut orphan_side = def("lonely.sink", PieceCategory::Output, PieceSemanticKind::Output, "core", None);
    orphan_side.output_side = Some(TileSide::RIGHT);
    registry.register(orphan_side);

    assert_eq!(
        finding_reasons(&registry),
        vec![
            "invalid_registry: piece 'bad.piece' has duplicate param 'zeta'".to_string(),
            "invalid_registry: connector piece 'bad.piece' must declare exactly one input param".to_string(),
            "invalid_registry: piece 'bad.piece' has duplicate default input side LEFT: alpha, mid, zeta".to_string(),
            "invalid_registry: piece 'lonely.sink' cannot declare an output side without an output".to_string(),
        ]
    );
}

#[test]
fn subgraph_inputs_are_exempt_from_the_side_rule() {
    let mut registry = PieceRegistry::new();
    let mut input = def(
        "tessera.subgraph_input_1",
        PieceCategory::Control,
        PieceSemanticKind::Intrinsic,
        "core",
        Some(PortType::new("any")),
    );
    input.params = vec![param("a", TileSide::LEFT), param("b", TileSide::LEFT)];
    registry.register(input);
    assert!(finding_reasons(&registry).is_empty());
}
