use tessera::internal::variadic_group_diagnostics;
use serde_json::Value;
use tessera::piece::{
    inline_port_type, is_valid_ident_path, is_valid_ident_segment, resolved_port_type, validate_inline_value, ParamDef,
    ParamInlineMode, ParamSchema, ParamTextSemantics, ParamValueKind, PieceDef,
};
use tessera::diagnostics::{DiagnosticKind, DiagnosticSeverity};
use tessera::types::{ExecutionDomain, PieceCategory, PieceSemanticKind, PortRole, PortType, TileSide};

#[test]
fn ident_validation_accepts_dotted_paths() {
    assert!(is_valid_ident_segment("foo"));
    assert!(is_valid_ident_path("foo.bar"));
    assert!(!is_valid_ident_path("foo.123"));
    assert!(!is_valid_ident_path("foo..bar"));
}

#[test]
fn ident_segment_edge_cases() {
    assert!(is_valid_ident_segment("_x9"));
    assert!(!is_valid_ident_segment(""));
    assert!(!is_valid_ident_segment("9x"));
    assert!(!is_valid_ident_segment("a.b"));
    assert!(!is_valid_ident_path(""));
    assert!(!is_valid_ident_path(".foo"));
    assert!(!is_valid_ident_path("foo."));
    assert!(is_valid_ident_path("a.b_c.D1"));
}

#[test]
fn text_semantics_names() {
    assert!(ParamTextSemantics::plain().is_plain());
    assert!(ParamTextSemantics::default().is_plain());
    assert!(!ParamTextSemantics::mini().is_plain());
    assert_eq!(ParamTextSemantics::rhythm().as_str(), "rhythm");
    assert_eq!(ParamTextSemantics::new("plain"), ParamTextSemantics::plain());
}

#[test]
fn bool_schema_rejects_number_without_fallback() {
    let schema = ParamSchema::Bool { default: false, can_inline: true };

    assert!(schema.resolve_connection(&PortType::bool()).is_ok());
    assert!(schema.resolve_connection(&PortType::number()).is_err());
}

fn group_param(id: &str, group: Option<&str>, schema: ParamSchema, required: bool, role: PortRole) -> ParamDef {
    ParamDef {
        id: id.to_string(),
        label: id.to_string(),
        side: TileSide::LEFT,
        schema,
        text_semantics: ParamTextSemantics::default(),
        variadic_group: group.map(|g| g.to_string()),
        required,
        role,
    }
}

fn piece_with(params: Vec<ParamDef>) -> PieceDef {
    PieceDef {
        id: "test.stack".to_string(),
        label: "stack".to_string(),
        category: PieceCategory::Transform,
        semantic_kind: PieceSemanticKind::Intrinsic,
        namespace: "core".to_string(),
        params,
        output_type: Some(PortType::new("pattern")),
        output_side: Some(TileSide::RIGHT),
        output_role: PortRole::Value,
        description: None,
        tags: vec![],
    }
}

fn reasons(def: &PieceDef) -> Vec<String> {
    variadic_group_diagnostics(def)
        .into_iter()
        .map(|d| {
            assert_eq!(d.severity, DiagnosticSeverity::Error);
            assert!(d.site.is_none());
            match d.kind {
                DiagnosticKind::InvalidOperation { reason } => reason,
                other => panic!("unexpected kind {other:?}"),
            }
        })
        .collect()
}

#[test]
fn variadic_groups_that_agree_report_nothing() {
    let number = || ParamSchema::Number { can_inline: true };
    let def = piece_with(vec![
        group_param("a", Some("items"), number(), false, PortRole::Value),
        group_param("b", Some("items"), number(), false, PortRole::Value),
        group_param("solo", None, ParamSchema::Bool { default: true, can_inline: true }, true, PortRole::Gate),
    ]);
    assert!(reasons(&def).is_empty());
}

#[test]
fn variadic_groups_report_each_disagreement_in_group_order() {
    let custom = |kind: &str, can_inline: bool| ParamSchema::Custom {
        port_type: PortType::new(kind),
        value_kind: ParamValueKind::Json,
        default: None,
        can_inline,
        inline_mode: ParamInlineMode::Literal,
    };
    let def = piece_with(vec![
        group_param("z1", Some("zeta"), custom("pattern", false), true, PortRole::Value),
        group_param("a1", Some("alpha"), custom("pattern", true), false, PortRole::Value),
        group_param("z2", Some("zeta"), custom("number", true), false, PortRole::Gate),
        group_param("a2", Some("alpha"), custom("pattern", true), false, PortRole::Value),
    ]);
    assert_eq!(
        reasons(&def),
        vec![
            "invalid_registry: piece 'test.stack' variadic group 'zeta' cannot contain required params: z1, z2".to_string(),
            "invalid_registry: piece 'test.stack' variadic group 'zeta' mixes port types across params: z1, z2".to_string(),
            "invalid_registry: piece 'test.stack' variadic group 'zeta' mixes roles across params: z1, z2".to_string(),
            "invalid_registry: piece 'test.stack' variadic group 'zeta' mixes inline capability across params: z1, z2"
                .to_string(),
        ]
    );
}

#[test]
fn variadic_groups_compare_text_semantics() {
    let mut second = group_param("b", Some("words"), ParamSchema::Text { default: String::new(), can_inline: true }, false, PortRole::Value);
    second.text_semantics = ParamTextSemantics::mini();
    let def = piece_with(vec![
        group_param("a", Some("words"), ParamSchema::Text { default: String::new(), can_inline: true }, false, PortRole::Value),
        second,
    ]);
    assert_eq!(
        reasons(&def),
        vec!["invalid_registry: piece 'test.stack' variadic group 'words' mixes text semantics across params: a, b".to_string()]
    );
}

#[test]
fn inline_values_give_their_schema_types() {
    let number = ParamSchema::Number { can_inline: true };
    assert!(validate_inline_value(&number, &Value::from(3), true));
    assert!(!validate_inline_value(&number, &Value::from(3), false));
    assert_eq!(inline_port_type(&number, &Value::from(3), true), Some(PortType::new("number")));
    let choice = ParamSchema::Enum { options: vec!["up".into(), "down".into()], default: "up".into(), can_inline: true };
    assert!(validate_inline_value(&choice, &Value::String("down".into()), false));
    assert!(!validate_inline_value(&choice, &Value::String("left".into()), false));
    assert_eq!(inline_port_type(&choice, &Value::String("down".into()), false), Some(PortType::new("text")));
    let rate = ParamSchema::Rational { default: tessera::types::Rational::parse("1/2").unwrap(), can_inline: true };
    assert!(validate_inline_value(&rate, &Value::String(" 3 / 4 ".into()), false));
    assert!(!validate_inline_value(&rate, &Value::String("3/0".into()), false));
    assert!(!validate_inline_value(&rate, &Value::from(0.75), true));
    let custom = |kind: ParamValueKind, mode: ParamInlineMode| ParamSchema::Custom {
        port_type: PortType::new("pattern").with_domain(ExecutionDomain::Event),
        value_kind: kind,
        default: None,
        can_inline: true,
        inline_mode: mode,
    };
    let ident = custom(ParamValueKind::Text, ParamInlineMode::Ident);
    assert_eq!(
        inline_port_type(&ident, &Value::String("scale.major".into()), false),
        Some(PortType::new("pattern").with_domain(ExecutionDomain::Event))
    );
    assert_eq!(inline_port_type(&ident, &Value::String("9lives".into()), false), None);
    let json = custom(ParamValueKind::Json, ParamInlineMode::Literal);
    assert_eq!(inline_port_type(&json, &Value::from(2.5), false), Some(PortType::new("number")));
    assert_eq!(inline_port_type(&json, &Value::String("1/3".into()), false), Some(PortType::new("rational")));
    assert_eq!(inline_port_type(&json, &Value::String("hi".into()), false), Some(PortType::new("text")));
    assert_eq!(inline_port_type(&json, &Value::Bool(true), false), Some(PortType::new("bool")));
    assert_eq!(
        inline_port_type(&json, &Value::Null, false),
        Some(PortType::new("pattern").with_domain(ExecutionDomain::Event))
    );
    let none = custom(ParamValueKind::NoValue, ParamInlineMode::Literal);
    assert_eq!(inline_port_type(&none, &Value::Null, false), None);
    assert_eq!(resolved_port_type(&number, None, false), Some(PortType::new("number")));
    assert_eq!(resolved_port_type(&json, None, false), None);
    let with_default = ParamSchema::Custom {
        port_type: PortType::new("pattern"),
        value_kind: ParamValueKind::Json,
        default: Some(Value::Bool(false)),
        can_inline: true,
        inline_mode: ParamInlineMode::Literal,
    };
    assert_eq!(resolved_port_type(&with_default, None, false), Some(PortType::new("bool")));
    assert_eq!(resolved_port_type(&with_default, Some(&Value::from(1)), false), Some(PortType::new("number")));
}
