use agent_communication_hub::client::{Reply, Report};
use agent_communication_hub::envelope::Envelope;
use agent_communication_hub::run::{
    begin_run, decide_body, run_step, Caller, RunAction, RunEvent, RunPhase, RunVerb,
};
use agent_communication_hub::client::SendRequest;
use agent_communication_hub::wire::{ClientLine, ServerLine, WireError};

fn caller() -> Caller {
    Caller { name: "mneme".to_string(), token_file: "mneme.token".to_string(), port: 46110 }
}

fn sending(body: &str) -> RunVerb {
    RunVerb::Send {
        to: "datastore".to_string(),
        kind: "task".to_string(),
        correlation_id: Some("e0".to_string()),
        body: body.to_string(),
    }
}

fn awaiting() -> RunVerb {
    RunVerb::Await {
        reply_to: Some("e1".to_string()),
        kind: Some("result".to_string()),
        timeout_secs: Some(300),
    }
}

fn envelope() -> Envelope {
    Envelope {
        id: "e1".to_string(),
        from: "mneme".to_string(),
        to: "datastore".to_string(),
        ts: "2026-07-20T21:04:00Z".to_string(),
        kind: "task".to_string(),
        correlation_id: None,
        body: serde_json::Value::Null,
    }
}

fn replied(line: ServerLine) -> RunEvent {
    RunEvent::Replied(Reply::Line(line))
}

fn token() -> RunEvent {
    RunEvent::Token(Ok("t1\n".to_string()))
}

/// Feeds the events in turn and gives the last turn and every line written.
fn run(verb: RunVerb, events: Vec<RunEvent>) -> (RunPhase, RunAction, Vec<ClientLine>, usize) {
    let mut lines = Vec::new();
    let mut connections = 0;
    let (mut phase, mut action) = begin_run(caller(), verb);
    for event in events {
        match action {
            RunAction::Write(line) => lines.push(line),
            RunAction::Connect { port } => {
                assert_eq!(port, 46110);
                connections += 1;
            }
            _ => {}
        }
        (phase, action) = run_step(phase, event);
    }
    (phase, action, lines, connections)
}

fn report_of(verb: RunVerb, events: Vec<RunEvent>) -> Report {
    match run(verb, events) {
        (RunPhase::Finished, RunAction::Finish(report), _, _) => report,
        other => panic!("{other:?}"),
    }
}

#[test]
fn a_send_run_goes_from_body_to_receipt() {
    let events = vec![
        RunEvent::Composed(envelope()),
        token(),
        RunEvent::Connected(Ok(())),
        RunEvent::Written,
        replied(ServerLine::Okay {}),
        RunEvent::Written,
        replied(ServerLine::Accepted { id: "e1".to_string() }),
    ];
    let (_, action, lines, connections) = run(sending("{}"), events);
    match action {
        RunAction::Finish(report) => {
            assert_eq!(report.exit_code, 0);
            assert_eq!(report.stdout, "e1\n");
            assert_eq!(report.stderr, "");
        }
        other => panic!("{other:?}"),
    }
    assert_eq!(connections, 1);
    assert_eq!(lines.len(), 2);
    match &lines[0] {
        ClientLine::Hello { name, token } => {
            assert_eq!(name, "mneme");
            assert_eq!(token, "t1");
        }
        other => panic!("{other:?}"),
    }
    match &lines[1] {
        ClientLine::Send(sent) => assert_eq!(sent.id, "e1"),
        other => panic!("{other:?}"),
    }
}

#[test]
fn an_await_run_prints_its_envelope() {
    let events = vec![
        token(),
        RunEvent::Connected(Ok(())),
        RunEvent::Written,
        replied(ServerLine::Okay {}),
        RunEvent::Written,
        replied(ServerLine::Envelope(envelope())),
        RunEvent::Serialized(Ok("{\"id\":\"e1\"}".to_string())),
    ];
    let (_, action, lines, _) = run(awaiting(), events);
    match action {
        RunAction::Finish(report) => {
            assert_eq!(report.exit_code, 0);
            assert_eq!(report.stdout, "{\"id\":\"e1\"}\n");
        }
        other => panic!("{other:?}"),
    }
    match &lines[1] {
        ClientLine::Await { reply_to, kind, timeout_secs } => {
            assert_eq!(reply_to.as_deref(), Some("e1"));
            assert_eq!(kind.as_deref(), Some("result"));
            assert_eq!(*timeout_secs, Some(300));
        }
        other => panic!("{other:?}"),
    }
}

#[test]
fn an_await_run_reports_its_timeout() {
    let events = vec![
        token(),
        RunEvent::Connected(Ok(())),
        RunEvent::Written,
        replied(ServerLine::Okay {}),
        RunEvent::Written,
        replied(ServerLine::Timeout {}),
    ];
    let report = report_of(awaiting(), events);
    assert_eq!(report.exit_code, 2);
    assert_eq!(report.stdout, "");
    assert_eq!(report.stderr, "");
}

#[test]
fn a_malformed_body_fails_without_a_connection() {
    let reason = serde_json::from_str::<serde_json::Value>("{oops").unwrap_err();
    let stderr = format!("agent-hub: body is not valid JSON: {reason}\n");
    let report = report_of(sending("{oops"), vec![]);
    assert_eq!(report.exit_code, 1);
    assert_eq!(report.stderr, stderr);
    let (_, action, lines, connections) =
        run(sending("-"), vec![RunEvent::Stdin(Ok("{oops".to_string()))]);
    match action {
        RunAction::Finish(report) => assert_eq!(report.stderr, stderr),
        other => panic!("{other:?}"),
    }
    assert_eq!((lines.len(), connections), (0, 0));
}

#[test]
fn a_body_from_stdin_is_composed() {
    let (phase, action, _, _) =
        run(sending("-"), vec![RunEvent::Stdin(Ok("[1]".to_string()))]);
    assert!(matches!(phase, RunPhase::Composing { .. }));
    match action {
        RunAction::Compose { request, body } => {
            assert_eq!(request.as_name, "mneme");
            assert_eq!(request.to, "datastore");
            assert_eq!(request.kind, "task");
            assert_eq!(request.correlation_id, Some("e0".to_string()));
            assert_eq!(body, serde_json::Value::Array(vec![serde_json::Value::from(1)]));
        }
        other => panic!("{other:?}"),
    }
    let report = report_of(sending("-"), vec![RunEvent::Stdin(Err("closed".to_string()))]);
    assert_eq!(report.stderr, "agent-hub: cannot read body from stdin: closed\n");
}

#[test]
fn the_body_decides_on_a_send_run() {
    let request = SendRequest {
        as_name: "mneme".to_string(),
        to: "datastore".to_string(),
        kind: "task".to_string(),
        correlation_id: None,
    };
    let (phase, action) = decide_body(caller(), request, Ok(serde_json::Value::Null));
    assert!(matches!(phase, RunPhase::Composing { .. }));
    assert!(matches!(action, RunAction::Compose { .. }));
}

#[test]
fn failures_on_the_way_are_reported() {
    let stderr = |events| {
        let report = report_of(awaiting(), events);
        assert_eq!(report.exit_code, 1);
        assert_eq!(report.stdout, "");
        report.stderr
    };
    assert_eq!(
        stderr(vec![RunEvent::Token(Err("denied".to_string()))]),
        "agent-hub: cannot read token file mneme.token: denied\n"
    );
    assert_eq!(
        stderr(vec![token(), RunEvent::Connected(Err("refused".to_string()))]),
        "agent-hub: cannot connect to hub at 127.0.0.1:46110: refused\n"
    );
    let connected = || vec![token(), RunEvent::Connected(Ok(()))];
    let mut events = connected();
    events.push(RunEvent::WriteFailed("broken pipe".to_string()));
    assert_eq!(stderr(events), "agent-hub: cannot write to hub: broken pipe\n");
    let mut events = connected();
    events.push(RunEvent::Unsendable(WireError::Serialize { source: "bad".to_string() }));
    assert_eq!(stderr(events), "agent-hub: cannot serialize wire line: bad\n");
    let mut events = connected();
    events.push(RunEvent::Written);
    events.push(replied(ServerLine::Error { message: "first line must be hello".to_string() }));
    assert_eq!(stderr(events), "agent-hub: hub error: first line must be hello\n");
    let mut events = connected();
    events.push(RunEvent::Written);
    events.push(RunEvent::Replied(Reply::Closed));
    assert_eq!(
        stderr(events),
        "agent-hub: hub closed the connection before replying (expected ok)\n"
    );
}

#[test]
fn a_finished_run_does_nothing_more() {
    let (phase, action) = run_step(RunPhase::Finished, RunEvent::Written);
    assert!(matches!(phase, RunPhase::Finished));
    assert!(matches!(action, RunAction::Stop));
    let (phase, action, _, _) = run(awaiting(), vec![RunEvent::Written]);
    assert!(matches!(phase, RunPhase::Finished));
    assert!(matches!(action, RunAction::Stop));
}
