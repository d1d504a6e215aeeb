use agent_communication_hub::envelope::{describe_invalid_ts, Envelope, EnvelopeError};

fn valid() -> Envelope {
    Envelope {
        id: "e1".to_string(),
        from: "mneme".to_string(),
        to: "datastore".to_string(),
        ts: "2026-07-20T21:04:00Z".to_string(),
        kind: "task".to_string(),
        correlation_id: None,
        body: serde_json::Value::Bool(true),
    }
}

#[test]
fn a_complete_envelope_is_valid() {
    assert!(valid().validate().is_ok());
}

#[test]
fn unknown_destinations_and_kinds_are_valid() {
    let mut envelope = valid();
    envelope.to = "nobody-yet".to_string();
    envelope.kind = "needs-ruling".to_string();
    envelope.correlation_id = Some("e0".to_string());
    assert!(envelope.validate().is_ok());
}

#[test]
fn the_sender_may_be_anything() {
    let mut envelope = valid();
    envelope.from = String::new();
    assert!(envelope.validate().is_ok());
}

#[test]
fn any_offset_is_a_timestamp() {
    let mut envelope = valid();
    envelope.ts = "2026-07-20T21:04:00.25+02:00".to_string();
    assert!(envelope.validate().is_ok());
}

#[test]
fn an_empty_id_is_refused_first() {
    let mut envelope = valid();
    envelope.id = String::new();
    envelope.to = String::new();
    let error = envelope.validate().unwrap_err();
    assert!(matches!(error, EnvelopeError::EmptyId));
    assert_eq!(error.to_string(), "envelope id is empty");
}

#[test]
fn an_empty_destination_is_refused() {
    let mut envelope = valid();
    envelope.to = String::new();
    envelope.kind = String::new();
    let error = envelope.validate().unwrap_err();
    assert!(matches!(error, EnvelopeError::EmptyTo));
    assert_eq!(error.to_string(), "envelope to is empty");
}

#[test]
fn an_empty_kind_is_refused() {
    let mut envelope = valid();
    envelope.kind = String::new();
    envelope.ts = "noon".to_string();
    let error = envelope.validate().unwrap_err();
    assert!(matches!(error, EnvelopeError::EmptyKind));
    assert_eq!(error.to_string(), "envelope kind is empty");
}

#[test]
fn an_invalid_timestamp_is_quoted_with_its_reason() {
    let mut envelope = valid();
    envelope.ts = "no\"on".to_string();
    envelope.correlation_id = Some(String::new());
    let reason = chrono::DateTime::parse_from_rfc3339("no\"on").unwrap_err().to_string();
    let error = envelope.validate().unwrap_err();
    assert!(matches!(error, EnvelopeError::InvalidTs { .. }));
    assert_eq!(
        error.to_string(),
        format!("envelope ts \"no\\\"on\" is not RFC 3339: {reason}")
    );
}

#[test]
fn an_empty_correlation_id_is_refused() {
    let mut envelope = valid();
    envelope.correlation_id = Some(String::new());
    let error = envelope.validate().unwrap_err();
    assert!(matches!(error, EnvelopeError::EmptyCorrelationId));
    assert_eq!(
        error.to_string(),
        "envelope correlationId is empty; use null or an envelope id"
    );
}

#[test]
fn the_verdict_follows_the_parsers_outcome() {
    let envelope = valid();
    assert!(envelope.validate_given(Ok(())).is_ok());
    match envelope.validate_given(Err("too late".to_string())) {
        Err(EnvelopeError::InvalidTs { ts, source }) => {
            assert_eq!(ts, "2026-07-20T21:04:00Z");
            assert_eq!(source, "too late");
        }
        other => panic!("{other:?}"),
    }
}

#[test]
fn the_invalid_timestamp_line_is_spelled_out() {
    assert_eq!(
        describe_invalid_ts("\"x\"", "because"),
        "envelope ts \"x\" is not RFC 3339: because"
    );
}

#[test]
fn a_copy_is_the_same_envelope() {
    let mut envelope = valid();
    envelope.correlation_id = Some("e0".to_string());
    let copy = envelope.clone();
    assert_eq!(copy.id, envelope.id);
    assert_eq!(copy.from, envelope.from);
    assert_eq!(copy.to, envelope.to);
    assert_eq!(copy.ts, envelope.ts);
    assert_eq!(copy.kind, envelope.kind);
    assert_eq!(copy.correlation_id, envelope.correlation_id);
    assert_eq!(copy.body, serde_json::Value::Bool(true));
}
