use agent_communication_hub::audit::{AuditEvent, AuthFailureReason};
use agent_communication_hub::envelope::{Envelope, EnvelopeError};
use agent_communication_hub::hub::Submission;
use agent_communication_hub::line::ReadLineError;
use agent_communication_hub::roster::{self, Roster};
use agent_communication_hub::session::{
    begin, decide_send, describe_auth_refusal, step, Action, Event, HandoffOutcome, Heard, Phase,
};
use agent_communication_hub::timestamp::Timestamp;
use agent_communication_hub::wire::{ClientLine, ServerLine, WireCause, WireError};

const NOW: Timestamp = Timestamp { secs: 1_000, nanos: 5 };
const PEER: &str = "127.0.0.1:50000";

fn roster() -> Roster {
    let text = "[agents]\nmneme = \"t1\"\ndatastore = \"t2\"\n";
    match roster::load("r", Ok(text.to_string()), None) {
        Ok(roster) => roster,
        Err(error) => panic!("{error:?}"),
    }
}

fn after(phase: Phase, event: Event) -> (Phase, Action) {
    step(&roster(), PEER, NOW, phase, event)
}

fn heard(line: ClientLine) -> Event {
    Event::Heard(Heard::Line(line))
}

fn hello(name: &str, token: &str) -> Event {
    heard(ClientLine::Hello { name: name.to_string(), token: token.to_string() })
}

fn wait(reply_to: Option<&str>, kind: Option<&str>, timeout_secs: Option<u64>) -> Event {
    heard(ClientLine::Await {
        reply_to: reply_to.map(str::to_string),
        kind: kind.map(str::to_string),
        timeout_secs,
    })
}

fn envelope() -> Envelope {
    Envelope {
        id: "e1".to_string(),
        from: "somebody else".to_string(),
        to: "nobody-yet".to_string(),
        ts: "2026-07-20T21:04:00Z".to_string(),
        kind: "unheard-of".to_string(),
        correlation_id: Some("e0".to_string()),
        body: serde_json::Value::Bool(true),
    }
}

fn recorded(submission: Submission) -> Envelope {
    match submission.record(NOW) {
        AuditEvent::Accepted { envelope, .. } => envelope,
        other => panic!("{other:?}"),
    }
}

fn verb(name: &str) -> Phase {
    Phase::Verb { name: name.to_string() }
}

fn error_of(turn: (Phase, Action)) -> String {
    match turn {
        (Phase::Ending, Action::Write(ServerLine::Error { message })) => message,
        other => panic!("{other:?}"),
    }
}

fn closes(turn: (Phase, Action)) -> bool {
    matches!(turn, (Phase::Closed, Action::Close))
}

#[test]
fn the_right_token_is_welcomed_then_owes_a_verb() {
    let (phase, action) = after(Phase::Hello, hello("mneme", "t1"));
    assert!(matches!(action, Action::Write(ServerLine::Okay {})));
    let (phase, action) = after(phase, Event::Written);
    assert!(matches!(action, Action::Read));
    match phase {
        Phase::Verb { name } => assert_eq!(name, "mneme"),
        other => panic!("{other:?}"),
    }
}

#[test]
fn a_wrong_token_is_recorded_and_refused() {
    match after(Phase::Hello, hello("mneme", "t2")) {
        (
            Phase::Ending,
            Action::Refuse {
                record: AuditEvent::AuthFailure { ts, peer, name, reason },
                line: ServerLine::Error { message },
            },
        ) => {
            assert_eq!(ts, NOW);
            assert_eq!(peer, PEER);
            assert_eq!(name, "mneme");
            assert_eq!(reason, AuthFailureReason::TokenMismatch);
            assert_eq!(message, "authentication failed for \"mneme\": token mismatch");
        }
        other => panic!("{other:?}"),
    }
}

#[test]
fn an_unknown_name_is_recorded_and_refused() {
    match after(Phase::Hello, hello("no\nbody", "t2")) {
        (
            Phase::Ending,
            Action::Refuse {
                record: AuditEvent::AuthFailure { name, reason, .. },
                line: ServerLine::Error { message },
            },
        ) => {
            assert_eq!(name, "no\nbody");
            assert_eq!(reason, AuthFailureReason::UnknownName);
            assert_eq!(message, "authentication failed for \"no\\nbody\": unknown agent name");
        }
        other => panic!("{other:?}"),
    }
}

#[test]
fn the_refusal_line_is_spelled_out() {
    assert_eq!(
        describe_auth_refusal("\"x\"", AuthFailureReason::UnknownName),
        "authentication failed for \"x\": unknown agent name"
    );
}

#[test]
fn two_wrong_tokens_are_answered_alike() {
    let one = after(Phase::Hello, hello("mneme", "secret-one"));
    let two = after(Phase::Hello, hello("mneme", "secret-two"));
    assert_eq!(format!("{one:?}"), format!("{two:?}"));
    assert!(!format!("{one:?}").contains("secret"));
}

#[test]
fn the_first_line_must_be_hello() {
    let send = after(Phase::Hello, heard(ClientLine::Send(envelope())));
    assert_eq!(error_of(send), "first line must be hello");
    let awaiting = after(Phase::Hello, wait(None, None, None));
    assert_eq!(error_of(awaiting), "first line must be hello");
}

#[test]
fn unreadable_and_malformed_lines_are_named_by_phase() {
    let too_long = || Event::Heard(Heard::Unreadable(ReadLineError::TooLong));
    let malformed =
        || Event::Heard(Heard::Malformed(WireError::Parse {
            cause: WireCause::NoSuchLine,
            line: 1,
            column: 19,
        }));
    let refused = "invalid wire line: not a line of this protocol at line 1 column 19";
    assert_eq!(
        error_of(after(Phase::Hello, too_long())),
        "invalid hello line: line exceeds 1048576 byte limit"
    );
    assert_eq!(
        error_of(after(verb("mneme"), too_long())),
        "invalid verb line: line exceeds 1048576 byte limit"
    );
    assert_eq!(error_of(after(Phase::Hello, malformed())), refused);
    assert_eq!(error_of(after(verb("mneme"), malformed())), refused);
}

#[test]
fn a_peer_that_says_nothing_is_left_without_a_word() {
    assert!(closes(after(Phase::Hello, Event::Heard(Heard::Nothing))));
    assert!(closes(after(verb("mneme"), Event::Heard(Heard::Nothing))));
}

#[test]
fn a_second_hello_is_refused() {
    assert_eq!(
        error_of(after(verb("mneme"), hello("mneme", "t1"))),
        "duplicate hello: connection is already authenticated"
    );
}

#[test]
fn a_sent_envelope_is_stamped_and_otherwise_untouched() {
    let (phase, action) = after(verb("mneme"), heard(ClientLine::Send(envelope())));
    match action {
        Action::Commit(submission) => {
            let sent = recorded(submission);
            assert_eq!(sent.from, "mneme");
            assert_eq!(sent.id, "e1");
            assert_eq!(sent.to, "nobody-yet");
            assert_eq!(sent.ts, "2026-07-20T21:04:00Z");
            assert_eq!(sent.kind, "unheard-of");
            assert_eq!(sent.correlation_id, Some("e0".to_string()));
            assert_eq!(sent.body, serde_json::Value::Bool(true));
        }
        other => panic!("{other:?}"),
    }
    match after(phase, Event::Committed(Ok(()))) {
        (Phase::Ending, Action::Write(ServerLine::Accepted { id })) => assert_eq!(id, "e1"),
        other => panic!("{other:?}"),
    }
}

#[test]
fn the_claimed_sender_makes_no_difference() {
    let mut other = envelope();
    other.from = "datastore".to_string();
    let one = after(verb("mneme"), heard(ClientLine::Send(envelope())));
    let two = after(verb("mneme"), heard(ClientLine::Send(other)));
    assert_eq!(format!("{one:?}"), format!("{two:?}"));
}

#[test]
fn an_invalid_envelope_is_refused_with_its_defect() {
    let mut broken = envelope();
    broken.to = String::new();
    assert_eq!(
        error_of(after(verb("mneme"), heard(ClientLine::Send(broken)))),
        "invalid envelope: envelope to is empty"
    );
    let mut broken = envelope();
    broken.ts = "noon".to_string();
    let reason = chrono::DateTime::parse_from_rfc3339("noon").unwrap_err();
    assert_eq!(
        error_of(after(verb("mneme"), heard(ClientLine::Send(broken)))),
        format!("invalid envelope: envelope ts \"noon\" is not RFC 3339: {reason}")
    );
}

#[test]
fn the_verdict_decides_on_a_send() {
    let turn = decide_send("mneme", envelope(), Err(EnvelopeError::EmptyKind));
    assert_eq!(error_of(turn), "invalid envelope: envelope kind is empty");
    match decide_send("mneme", envelope(), Ok(())) {
        (Phase::Committing { id }, Action::Commit(submission)) => {
            assert_eq!(id, "e1");
            assert_eq!(recorded(submission).from, "mneme");
        }
        other => panic!("{other:?}"),
    }
}

#[test]
fn an_uncommitted_envelope_is_not_accepted() {
    let phase = Phase::Committing { id: "e1".to_string() };
    assert_eq!(
        error_of(after(phase, Event::Committed(Err("disk full".to_string())))),
        "envelope not accepted: disk full"
    );
}

#[test]
fn an_await_is_registered_under_the_authenticated_name() {
    let (phase, action) = after(verb("mneme"), wait(Some("e1"), Some("result"), Some(300)));
    match action {
        Action::Enlist { name, filter } => {
            assert_eq!(name, "mneme");
            assert_eq!(filter.reply_to, Some("e1".to_string()));
            assert_eq!(filter.kind, Some("result".to_string()));
        }
        other => panic!("{other:?}"),
    }
    let (phase, action) = after(phase, Event::Parked);
    assert!(matches!(action, Action::Wait { timeout_secs: Some(300) }));
    assert!(matches!(phase, Phase::Parked { .. }));
}

#[test]
fn empty_conditions_of_an_await_are_refused() {
    assert_eq!(
        error_of(after(verb("mneme"), wait(Some(""), Some(""), None))),
        "invalid await: replyTo is empty; omit it or use an envelope id"
    );
    assert_eq!(
        error_of(after(verb("mneme"), wait(None, Some(""), None))),
        "invalid await: kind is empty; omit it or use an envelope kind"
    );
}

#[test]
fn a_timeout_is_told_and_nothing_is_delivered() {
    let phase = Phase::Parked { name: "mneme".to_string(), timeout_secs: Some(300) };
    let (phase, action) = after(phase, Event::Handoff(HandoffOutcome::TimedOut));
    assert!(matches!(action, Action::Write(ServerLine::Timeout {})));
    assert!(closes(after(phase, Event::Written)));
}

#[test]
fn a_lost_handoff_is_an_internal_error() {
    let phase = Phase::Parked { name: "mneme".to_string(), timeout_secs: Some(300) };
    assert_eq!(
        error_of(after(phase, Event::Handoff(HandoffOutcome::ChannelLost))),
        "internal error: await handoff lost"
    );
}

#[test]
fn a_written_envelope_is_recorded_as_delivered() {
    let phase = Phase::Enlisting { name: "mneme".to_string(), timeout_secs: None };
    let (phase, action) = after(phase, Event::Taken(envelope()));
    match action {
        Action::Deliver(ServerLine::Envelope(sent)) => {
            assert_eq!(sent.id, "e1");
            assert_eq!(sent.from, "somebody else");
            assert_eq!(sent.body, serde_json::Value::Bool(true));
        }
        other => panic!("{other:?}"),
    }
    match after(phase, Event::Written) {
        (Phase::Ending, Action::Record(AuditEvent::Delivery { ts, id, to, peer })) => {
            assert_eq!(ts, NOW);
            assert_eq!(id, "e1");
            assert_eq!(to, "mneme");
            assert_eq!(peer, PEER);
        }
        other => panic!("{other:?}"),
    }
}

#[test]
fn an_envelope_goes_back_only_if_no_byte_of_it_went_out() {
    let parked = || Phase::Parked { name: "mneme".to_string(), timeout_secs: Some(300) };
    let handoff = || Event::Handoff(HandoffOutcome::Delivered(envelope()));
    let (phase, _) = after(parked(), handoff());
    match after(phase, Event::WriteFailed { accepted: 0 }) {
        (Phase::Ending, Action::Return(returned)) => {
            assert_eq!(returned.id, "e1");
            assert_eq!(returned.body, serde_json::Value::Bool(true));
        }
        other => panic!("{other:?}"),
    }
    let (phase, _) = after(parked(), handoff());
    assert!(closes(after(phase, Event::WriteFailed { accepted: 1 })));
}

#[test]
fn an_ok_line_that_does_not_go_out_ends_the_conversation() {
    let phase = Phase::Welcome { name: "mneme".to_string() };
    assert!(closes(after(phase, Event::WriteFailed { accepted: 3 })));
}

#[test]
fn the_end_is_final() {
    assert!(closes(after(Phase::Ending, Event::Done)));
    assert!(closes(after(Phase::Ending, hello("mneme", "t1"))));
    assert!(closes(after(Phase::Closed, hello("mneme", "t1"))));
}

#[test]
fn out_of_place_events_close() {
    assert!(closes(after(Phase::Hello, Event::Committed(Ok(())))));
    assert!(closes(after(verb("mneme"), Event::Taken(envelope()))));
    assert!(closes(after(Phase::Committing { id: "x".to_string() }, Event::Written)));
}

#[test]
fn a_connection_runs_one_verb() {
    let (phase, _) = after(Phase::Hello, hello("mneme", "t1"));
    let (phase, _) = after(phase, Event::Written);
    let (phase, action) = after(phase, heard(ClientLine::Send(envelope())));
    assert!(matches!(action, Action::Commit(_)));
    let (phase, _) = after(phase, Event::Committed(Ok(())));
    let (phase, action) = after(phase, heard(ClientLine::Send(envelope())));
    assert!(closes((phase, action)));
}

#[test]
fn an_envelope_that_cannot_be_serialized_goes_back() {
    let phase = Phase::Delivering { name: "mneme".to_string(), envelope: envelope() };
    match after(phase, Event::Unsendable) {
        (Phase::Ending, Action::Return(returned)) => {
            assert_eq!(returned.id, "e1");
            assert_eq!(returned.body, serde_json::Value::Bool(true));
        }
        other => panic!("{other:?}"),
    }
}

#[test]
fn a_connection_is_recorded_before_anything_is_read() {
    let (phase, action) = begin(PEER, NOW);
    match action {
        Action::Record(AuditEvent::Connection { ts, peer }) => {
            assert_eq!(ts, NOW);
            assert_eq!(peer, PEER);
        }
        other => panic!("{other:?}"),
    }
    let (phase, action) = after(phase, Event::Done);
    assert!(matches!(phase, Phase::Hello));
    assert!(matches!(action, Action::Read));
}

#[test]
fn an_await_without_a_timeout_never_times_out() {
    let (phase, _) = after(verb("mneme"), wait(None, None, None));
    let (phase, action) = after(phase, Event::Parked);
    assert!(matches!(action, Action::Wait { timeout_secs: None }));
    assert!(closes(after(phase, Event::Handoff(HandoffOutcome::TimedOut))));
}
