use agent_communication_hub::envelope::Envelope;
use agent_communication_hub::wire::{
    client_verb, from_jsonl, json_text, server_line_kind, to_jsonl, ClientLine, ServerLine,
    WireCause, WireError, WireFault,
};

fn envelope() -> Envelope {
    Envelope {
        id: "e1".to_string(),
        from: "mneme".to_string(),
        to: "datastore".to_string(),
        ts: "2026-07-20T21:04:00Z".to_string(),
        kind: "task".to_string(),
        correlation_id: None,
        body: serde_json::Value::Null,
    }
}

#[test]
fn every_client_line_has_a_verb() {
    let hello = ClientLine::Hello { name: "a".to_string(), token: "t".to_string() };
    assert_eq!(client_verb(&hello), "hello");
    assert_eq!(client_verb(&ClientLine::Send(envelope())), "send");
    let wait = ClientLine::Await { reply_to: None, kind: None, timeout_secs: None };
    assert_eq!(client_verb(&wait), "await");
}

#[test]
fn every_server_line_has_a_kind() {
    assert_eq!(server_line_kind(&ServerLine::Okay {}), "ok");
    assert_eq!(server_line_kind(&ServerLine::Error { message: String::new() }), "error");
    assert_eq!(server_line_kind(&ServerLine::Accepted { id: String::new() }), "accepted");
    assert_eq!(server_line_kind(&ServerLine::Envelope(envelope())), "envelope");
    assert_eq!(server_line_kind(&ServerLine::Timeout {}), "timeout");
}

#[test]
fn a_line_ends_in_one_newline() {
    let line = to_jsonl(Ok("{\"ok\":{}}".to_string()));
    assert_eq!(line.unwrap(), "{\"ok\":{}}\n");
}

#[test]
fn a_serialization_failure_is_the_hubs_own() {
    let error = to_jsonl(Err("key must be a string".to_string())).unwrap_err();
    assert!(matches!(error, WireError::Serialize { .. }));
    assert_eq!(error.to_string(), "cannot serialize wire line: key must be a string");
}

#[test]
fn a_parse_failure_is_the_peers() {
    let error = from_jsonl::<u8>(Err((WireCause::CutShort, 1, 12))).unwrap_err();
    assert!(matches!(error, WireError::Parse { .. }));
    assert_eq!(error.to_string(), "invalid wire line: cut short at line 1 column 12");
    assert_eq!(from_jsonl::<u8>(Ok(7)).unwrap(), 7);
}

/// What the crate makes of serde_json's verdict on a text.
fn error_for(text: &str) -> (String, WireError) {
    let source = serde_json::from_str::<u8>(text).unwrap_err();
    let fault = match source.classify() {
        serde_json::error::Category::Io => WireFault::Io,
        serde_json::error::Category::Syntax => WireFault::Syntax,
        serde_json::error::Category::Data => WireFault::Data,
        serde_json::error::Category::Eof => WireFault::Eof,
    };
    let (line, column) = (source.line(), source.column());
    let cause = WireCause::identify(fault, &source.to_string(), line, column);
    (source.to_string(), from_jsonl::<u8>(Err((cause, line, column))).unwrap_err())
}

#[test]
fn syntax_faults_keep_the_parsers_words() {
    for text in ["", "{", "[1", "\"x", "1 2", "nul", "\"\\q\"", "{\"a\" 1}", "[1,]", "\"\u{1}\"", "01"] {
        if serde_json::from_str::<serde_json::Value>(text).is_ok() {
            panic!("{text} is JSON");
        }
        let source = serde_json::from_str::<serde_json::Value>(text).unwrap_err();
        let fault = if source.is_eof() { WireFault::Eof } else { WireFault::Syntax };
        let (line, column) = (source.line(), source.column());
        let cause = WireCause::identify(fault, &source.to_string(), line, column);
        let error = from_jsonl::<u8>(Err((cause, line, column))).unwrap_err();
        assert_eq!(error.to_string(), format!("invalid wire line: {source}"));
    }
}

#[test]
fn other_faults_have_words_of_their_own() {
    let text = |fault| {
        let cause = WireCause::identify(fault, "anything at line 2 column 30", 2, 30);
        from_jsonl::<u8>(Err((cause, 2, 30))).unwrap_err().to_string()
    };
    assert_eq!(text(WireFault::Io), "invalid wire line: unreadable text at line 2 column 30");
    assert_eq!(text(WireFault::Syntax), "invalid wire line: not JSON at line 2 column 30");
    assert_eq!(
        text(WireFault::Data),
        "invalid wire line: not a line of this protocol at line 2 column 30"
    );
    assert_eq!(text(WireFault::Eof), "invalid wire line: cut short at line 2 column 30");
}

#[test]
fn a_fault_without_a_place_has_none() {
    let cause = WireCause::identify(WireFault::Syntax, "trailing comma", 0, 0);
    assert_eq!(cause, WireCause::TrailingComma);
    let error = from_jsonl::<u8>(Err((cause, 0, 0))).unwrap_err();
    assert_eq!(error.to_string(), "invalid wire line: trailing comma");
}

#[test]
fn a_parse_error_holds_nothing_of_the_line() {
    for text in ["\"s3cret-1\"", "\"s3cret-1", "{\"s3cret-1\" 1}", "s3cret-1"] {
        let (_, error) = error_for(text);
        assert!(!error.to_string().contains("s3cret-1"));
        assert!(!format!("{error:?}").contains("s3cret-1"));
    }
    let (message, error) = error_for("\"s3cret-1\"");
    assert!(message.contains("s3cret-1"));
    assert!(matches!(error, WireError::Parse { cause: WireCause::NoSuchLine, .. }));
}

#[test]
fn a_trailing_newline_changes_nothing() {
    assert_eq!(json_text("{\"ok\":{}}\n"), "{\"ok\":{}}");
    assert_eq!(json_text("{\"ok\":{}}"), "{\"ok\":{}}");
    assert_eq!(json_text("\n"), "");
    assert_eq!(json_text(""), "");
    assert_eq!(json_text("x\n\n"), "x\n");
}

#[test]
fn framing_is_undone_before_parsing() {
    for json in ["{}", "{\"a\":\"b\\n\"}", ""] {
        let line = to_jsonl(Ok(json.to_string())).unwrap();
        assert_eq!(line.matches('\n').count(), 1);
        assert_eq!(json_text(&line), json);
    }
}
