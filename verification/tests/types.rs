use tessera::types::{DomainBridgeKind, ExecutionDomain, PortType, PortTypeConnectionError, Rational};

#[test]
fn rational_literals_parse_and_normalize() {
    assert_eq!(Rational::parse("1/4"), Some(Rational::new(1, 4).unwrap()));
    assert_eq!(Rational::parse("-2/4"), Some(Rational::new(-1, 2).unwrap()));
    assert_eq!(Rational::parse("3"), Some(Rational::new(3, 1).unwrap()));
}

#[test]
fn rational_literals_reject_invalid_forms() {
    assert_eq!(Rational::parse("1/0"), None);
    assert_eq!(Rational::parse("abc"), None);
    assert_eq!(Rational::parse("1//4"), None);
    assert_eq!(Rational::parse("0.25"), None);
}

#[test]
fn port_type_common_type_prefers_specific_over_any() {
    assert_eq!(PortType::any().common_type(&PortType::number()), Some(PortType::number()));
    assert_eq!(PortType::number().common_type(&PortType::any()), Some(PortType::number()));
}

#[test]
fn port_type_common_type_returns_none_for_incompatible_types() {
    assert_eq!(PortType::number().common_type(&PortType::bool()), None);
}

#[test]
fn port_type_resolve_connection_preserves_exact_matches() {
    let connection = PortType::text().resolve_connection(&PortType::text()).expect("exact match");

    assert_eq!(connection.effective_type, PortType::text());
    assert_eq!(connection.bridge_kind, None);
}

#[test]
fn port_type_resolve_connection_prefers_concrete_type_over_any() {
    let connection = PortType::any().resolve_connection(&PortType::number()).expect("any should accept number");

    assert_eq!(connection.effective_type, PortType::number());
    assert_eq!(connection.bridge_kind, None);
}

#[test]
fn port_type_resolve_connection_reports_supported_domain_bridges() {
    let connection = PortType::number()
        .resolve_connection(&PortType::number().with_domain(ExecutionDomain::Audio))
        .expect("audio -> control bridge");

    assert_eq!(connection.effective_type, PortType::number());
    assert_eq!(connection.bridge_kind, Some(DomainBridgeKind::AudioToControl));
}

#[test]
fn port_type_resolve_connection_rejects_unsupported_domain_bridges() {
    let err = PortType::number()
        .with_domain(ExecutionDomain::Event)
        .resolve_connection(&PortType::number().with_domain(ExecutionDomain::Audio));

    assert!(matches!(err, Err(PortTypeConnectionError::UnsupportedDomain { .. })));
}

#[test]
fn domain_bridge_kind_source_target_domain_round_trip() {
    let bridge = DomainBridgeKind::from_domains(ExecutionDomain::Control, ExecutionDomain::Audio).expect("control -> audio");

    assert_eq!(bridge.source_domain(), ExecutionDomain::Control);
    assert_eq!(bridge.target_domain(), ExecutionDomain::Audio);
}

#[test]
fn rational_literals_round_trip_through_text() {
    let value = Rational::new(-2, 4).unwrap();
    assert_eq!(value.to_string(), "-1/2");
    assert_eq!(Rational::parse(&value.to_string()), Some(value));
    let whole = Rational::new(6, 3).unwrap();
    assert_eq!(whole.to_string(), "2");
    assert_eq!(Rational::parse(&whole.to_string()), Some(whole));
    assert_eq!(Rational::parse(" 3 / 9 "), Some(Rational::new(1, 3).unwrap()));
    assert_eq!(Rational::new(5, 0), None);
    assert_eq!(Rational::new(3, -6).unwrap().to_string(), "-1/2");
}

#[test]
fn domain_bridges_exist_only_towards_control_or_from_control_to_audio() {
    assert_eq!(DomainBridgeKind::from_domains(ExecutionDomain::Audio, ExecutionDomain::Control), Some(DomainBridgeKind::AudioToControl));
    assert_eq!(DomainBridgeKind::from_domains(ExecutionDomain::Event, ExecutionDomain::Control), Some(DomainBridgeKind::EventToControl));
    assert_eq!(DomainBridgeKind::from_domains(ExecutionDomain::Control, ExecutionDomain::Event), None);
    assert_eq!(DomainBridgeKind::from_domains(ExecutionDomain::Audio, ExecutionDomain::Audio), None);
    for k in [DomainBridgeKind::ControlToAudio, DomainBridgeKind::AudioToControl, DomainBridgeKind::EventToControl] {
        assert_eq!(DomainBridgeKind::from_domains(k.source_domain(), k.target_domain()), Some(k));
    }
    assert_eq!(DomainBridgeKind::EventToControl.as_str(), "event_to_control");
}

#[test]
fn common_type_is_symmetric_and_meets_domains() {
    let a = PortType::any().with_domain(ExecutionDomain::Audio);
    let b = PortType::number().with_unspecified_domain();
    assert_eq!(a.common_type(&b), b.common_type(&a));
    assert_eq!(a.common_type(&b), Some(PortType::number().with_domain(ExecutionDomain::Audio)));
    let c = PortType::number().with_domain(ExecutionDomain::Event);
    assert_eq!(a.common_type(&c), None);
    assert!(PortType::text().accepts(&PortType::any()));
    assert!(!PortType::text().accepts(&PortType::bool()));
}
