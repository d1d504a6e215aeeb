use agent_communication_hub::client::{
    await_answered, body_from_stdin, compose, compose_with, delivered, greeted, hello_line,
    parsed_body, read_body, read_reply, read_token, reply_error, report, send_answered,
    usage_exit_code, ClientError, Outcome, Reply, SendRequest,
};
use agent_communication_hub::envelope::Envelope;
use agent_communication_hub::text::{decimal, position, trim_end};
use agent_communication_hub::wire::{ClientLine, ServerLine, WireCause, WireError};

fn request() -> SendRequest {
    SendRequest {
        as_name: "mneme".to_string(),
        to: "datastore".to_string(),
        kind: "task".to_string(),
        correlation_id: Some("e0".to_string()),
    }
}

fn envelope() -> Envelope {
    compose_with(
        request(),
        "e1".to_string(),
        "2026-07-20T21:04:00Z".to_string(),
        serde_json::Value::Null,
    )
}

fn stderr_of(error: ClientError) -> String {
    let report = report(Err(error));
    assert_eq!(report.exit_code, 1);
    assert_eq!(report.stdout, "");
    report.stderr
}

#[test]
fn a_token_file_may_end_in_a_newline() {
    assert_eq!(read_token("t", Ok("secret\n".to_string())).unwrap(), "secret");
    assert_eq!(read_token("t", Ok("secret".to_string())).unwrap(), "secret");
    assert_eq!(read_token("t", Ok(" a b \r\n\t ".to_string())).unwrap(), " a b");
    assert_eq!(read_token("t", Ok("\n\n".to_string())).unwrap(), "");
}

#[test]
fn trimming_agrees_with_the_standard_library() {
    for text in ["", "x", "x\u{a0}\u{2003}\u{3000}", "x\u{200b}", "\u{85}", "x \u{feff}", "a\u{1680}"] {
        assert_eq!(trim_end(text), text.trim_end());
    }
}

#[test]
fn a_token_file_that_cannot_be_read_is_named() {
    let error = read_token("mneme.token", Err("denied".to_string())).unwrap_err();
    assert_eq!(stderr_of(error), "agent-hub: cannot read token file mneme.token: denied\n");
}

#[test]
fn a_dash_means_stdin() {
    assert!(body_from_stdin("-"));
    assert!(!body_from_stdin("--"));
    assert!(!body_from_stdin(""));
    assert!(!body_from_stdin("{}"));
}

#[test]
fn a_body_is_any_json_value() {
    let body = read_body(Ok("{\"op\": \"reindex\"}".to_string())).unwrap();
    let mut expected = serde_json::Map::new();
    expected.insert("op".to_string(), serde_json::Value::String("reindex".to_string()));
    assert_eq!(body, serde_json::Value::Object(expected));
    assert_eq!(read_body(Ok(" null ".to_string())).unwrap(), serde_json::Value::Null);
}

#[test]
fn a_body_that_is_no_json_is_refused() {
    let reason = serde_json::from_str::<serde_json::Value>("{oops").unwrap_err();
    let error = read_body(Ok("{oops".to_string())).unwrap_err();
    assert!(matches!(error, ClientError::BodyNotJson { .. }));
    assert_eq!(stderr_of(error), format!("agent-hub: body is not valid JSON: {reason}\n"));
    let error = parsed_body(Err("because".to_string())).unwrap_err();
    assert_eq!(stderr_of(error), "agent-hub: body is not valid JSON: because\n");
}

#[test]
fn a_body_that_cannot_be_read_is_told() {
    let error = read_body(Err("closed".to_string())).unwrap_err();
    assert_eq!(stderr_of(error), "agent-hub: cannot read body from stdin: closed\n");
}

#[test]
fn an_envelope_is_what_was_asked_for() {
    let envelope = envelope();
    assert_eq!(envelope.id, "e1");
    assert_eq!(envelope.from, "mneme");
    assert_eq!(envelope.to, "datastore");
    assert_eq!(envelope.ts, "2026-07-20T21:04:00Z");
    assert_eq!(envelope.kind, "task");
    assert_eq!(envelope.correlation_id, Some("e0".to_string()));
    assert_eq!(envelope.body, serde_json::Value::Null);
}

#[test]
fn a_composed_envelope_has_a_fresh_id_and_the_time() {
    let one = compose(request(), 1_784_581_440, serde_json::Value::Null);
    let two = compose(request(), 0, serde_json::Value::Null);
    assert_eq!(one.ts, "2026-07-20T21:04:00Z");
    assert_eq!(two.ts, "1970-01-01T00:00:00Z");
    assert_ne!(one.id, two.id);
    let id: Vec<char> = one.id.chars().collect();
    assert_eq!(id.len(), 36);
    assert_eq!((id[8], id[13], id[18], id[23]), ('-', '-', '-', '-'));
    assert_eq!(id[14], '4');
    assert!(['8', '9', 'a', 'b'].contains(&id[19]));
    assert!(one.validate().is_ok());
}

#[test]
fn the_last_valid_second_is_in_the_year_9999() {
    let last = compose(request(), 253_402_300_799, serde_json::Value::Null);
    assert_eq!(last.ts, "9999-12-31T23:59:59Z");
    assert!(last.validate().is_ok());
    let next = compose(request(), 253_402_300_800, serde_json::Value::Null);
    assert_eq!(next.ts, "+10000-01-01T00:00:00Z");
    assert!(next.validate().is_err());
    let end = compose(request(), 8_210_266_876_799, serde_json::Value::Null);
    assert_eq!(end.ts, "+262142-12-31T23:59:59Z");
}

#[test]
fn an_empty_destination_makes_an_invalid_envelope() {
    let mut without = request();
    without.to = String::new();
    assert!(compose(without, 0, serde_json::Value::Null).validate().is_err());
}

#[test]
fn hello_carries_name_and_token() {
    match hello_line("mneme", "secret".to_string()) {
        ClientLine::Hello { name, token } => {
            assert_eq!(name, "mneme");
            assert_eq!(token, "secret");
        }
        other => panic!("{other:?}"),
    }
}

#[test]
fn a_reply_that_does_not_come_is_told() {
    let error = read_reply("ok", Reply::Closed).unwrap_err();
    assert_eq!(
        stderr_of(error),
        "agent-hub: hub closed the connection before replying (expected ok)\n"
    );
    let error = read_reply("ok", Reply::Failed("reset".to_string())).unwrap_err();
    assert_eq!(stderr_of(error), "agent-hub: cannot read hub reply: reset\n");
    let source = WireError::Parse { cause: WireCause::UnendedValue, line: 1, column: 9 };
    let error = read_reply("ok", Reply::Malformed(source)).unwrap_err();
    assert_eq!(stderr_of(error), "agent-hub: invalid wire line: EOF while parsing a value at line 1 column 9\n");
    let line = read_reply("ok", Reply::Line(ServerLine::Okay {})).unwrap();
    assert!(matches!(line, ServerLine::Okay {}));
}

#[test]
fn hub_errors_reach_the_caller_word_for_word() {
    let line = ServerLine::Error { message: "first line must be hello".to_string() };
    assert_eq!(
        stderr_of(reply_error("ok", line)),
        "agent-hub: hub error: first line must be hello\n"
    );
}

#[test]
fn a_line_out_of_place_is_a_protocol_violation() {
    let error = greeted(ServerLine::Timeout {}).unwrap_err();
    assert_eq!(
        stderr_of(error),
        "agent-hub: protocol violation: expected ok, hub sent timeout\n"
    );
    let error = send_answered(ServerLine::Okay {}).unwrap_err();
    assert_eq!(
        stderr_of(error),
        "agent-hub: protocol violation: expected accepted, hub sent ok\n"
    );
    let error = await_answered(ServerLine::Accepted { id: "x".to_string() }).unwrap_err();
    assert_eq!(
        stderr_of(error),
        "agent-hub: protocol violation: expected envelope or timeout, hub sent accepted\n"
    );
}

#[test]
fn an_ok_line_opens_verb_mode() {
    assert!(greeted(ServerLine::Okay {}).is_ok());
}

#[test]
fn an_accepted_id_is_printed() {
    let outcome = send_answered(ServerLine::Accepted { id: "e1".to_string() });
    let report = report(outcome);
    assert_eq!(report.exit_code, 0);
    assert_eq!(report.stdout, "e1\n");
    assert_eq!(report.stderr, "");
}

#[test]
fn a_delivered_envelope_is_printed_bare() {
    let got = await_answered(ServerLine::Envelope(envelope())).unwrap().unwrap();
    assert_eq!(got.id, "e1");
    let report = report(delivered(Ok("{\"id\":\"e1\"}".to_string())));
    assert_eq!(report.exit_code, 0);
    assert_eq!(report.stdout, "{\"id\":\"e1\"}\n");
    let error = delivered(Err("bad".to_string())).unwrap_err();
    assert_eq!(stderr_of(error), "agent-hub: cannot serialize wire line: bad\n");
}

#[test]
fn a_timeout_has_its_own_exit_code() {
    assert!(await_answered(ServerLine::Timeout {}).unwrap().is_none());
    let report = report(Ok(Outcome::TimedOut));
    assert_eq!(report.exit_code, 2);
    assert_eq!(report.stdout, "");
    assert_eq!(report.stderr, "");
}

#[test]
fn connection_failures_are_named() {
    let error = ClientError::Connect {
        addr: "127.0.0.1:46110".to_string(),
        source: "refused".to_string(),
    };
    assert_eq!(stderr_of(error), "agent-hub: cannot connect to hub at 127.0.0.1:46110: refused\n");
    let error = ClientError::SocketWrite { source: "broken pipe".to_string() };
    assert_eq!(stderr_of(error), "agent-hub: cannot write to hub: broken pipe\n");
}

#[test]
fn usage_errors_are_failures_and_help_is_not() {
    assert_eq!(usage_exit_code(true), 0);
    assert_eq!(usage_exit_code(false), 1);
}

#[test]
fn numbers_are_written_in_decimal() {
    for n in [0, 7, 10, 305, 1_048_576, usize::MAX] {
        assert_eq!(decimal(n), n.to_string());
    }
}

#[test]
fn positions_count_lines_and_bytes_from_one() {
    let text = b"ab\ncd\n\nx";
    assert_eq!(position(text, 0), (1, 1));
    assert_eq!(position(text, 2), (1, 3));
    assert_eq!(position(text, 3), (2, 1));
    assert_eq!(position(text, 5), (2, 3));
    assert_eq!(position(text, 7), (4, 1));
    assert_eq!(position(text, 100), (4, 2));
    assert_eq!(position(b"", 3), (1, 1));
}
