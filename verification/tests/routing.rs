use agent_communication_hub::envelope::Envelope;
use agent_communication_hub::audit::AuditEvent;
use agent_communication_hub::hub::{AwaitStart, Filter, HubState, SendOutcome, Submission};
use agent_communication_hub::session::{handed_over, time_out, HandoffOutcome};
use agent_communication_hub::timestamp::Timestamp;
use tokio::sync::oneshot::Receiver;

fn envelope(id: &str, to: &str, kind: &str, answers: Option<&str>) -> Envelope {
    Envelope {
        id: id.to_string(),
        from: "mneme".to_string(),
        to: to.to_string(),
        ts: "2026-07-20T21:04:00Z".to_string(),
        kind: kind.to_string(),
        correlation_id: answers.map(str::to_string),
        body: serde_json::Value::String(id.to_string()),
    }
}

fn submit(id: &str, to: &str, kind: &str, answers: Option<&str>) -> Submission {
    Submission::new(envelope(id, to, kind, answers))
}

fn filter(reply_to: Option<&str>, kind: Option<&str>) -> Filter {
    Filter { reply_to: reply_to.map(str::to_string), kind: kind.map(str::to_string) }
}

fn any() -> Filter {
    filter(None, None)
}

fn send(hub: &mut HubState, envelope: Envelope) -> SendOutcome {
    hub.commit_send(Ok(()), Submission::new(envelope)).unwrap().outcome
}

fn park(hub: &mut HubState, name: &str, filter: Filter) -> (u64, Receiver<Envelope>) {
    match hub.start_await(name, filter) {
        AwaitStart::Parked { waiter_id, rx } => (waiter_id, rx),
        AwaitStart::Immediate(envelope) => panic!("{envelope:?}"),
    }
}

fn take(hub: &mut HubState, name: &str, filter: Filter) -> String {
    match hub.start_await(name, filter) {
        AwaitStart::Immediate(envelope) => envelope.id,
        AwaitStart::Parked { .. } => panic!("nothing was queued"),
    }
}

fn got(rx: &mut Receiver<Envelope>) -> Option<String> {
    rx.try_recv().ok().map(|envelope| envelope.id)
}

#[test]
fn queued_envelopes_come_out_in_the_order_they_were_sent() {
    let mut hub = HubState::new();
    assert_eq!(send(&mut hub, envelope("a", "ds", "task", None)), SendOutcome::Queued(1));
    assert_eq!(send(&mut hub, envelope("b", "ds", "task", None)), SendOutcome::Queued(2));
    assert_eq!(send(&mut hub, envelope("c", "ds", "task", None)), SendOutcome::Queued(3));
    assert_eq!(take(&mut hub, "ds", any()), "a");
    assert_eq!(take(&mut hub, "ds", any()), "b");
    assert_eq!(take(&mut hub, "ds", any()), "c");
    assert!(hub.take_queued("ds", &any()).is_none());
}

#[test]
fn queues_are_separate_by_name() {
    let mut hub = HubState::new();
    assert_eq!(send(&mut hub, envelope("a", "ds", "task", None)), SendOutcome::Queued(1));
    assert_eq!(send(&mut hub, envelope("b", "other", "task", None)), SendOutcome::Queued(1));
    assert_eq!(take(&mut hub, "other", any()), "b");
    assert_eq!(take(&mut hub, "ds", any()), "a");
}

#[test]
fn a_filtered_await_takes_from_the_middle() {
    let mut hub = HubState::new();
    send(&mut hub, envelope("a", "ds", "task", None));
    send(&mut hub, envelope("b", "ds", "result", Some("q1")));
    send(&mut hub, envelope("c", "ds", "result", Some("q2")));
    send(&mut hub, envelope("d", "ds", "task", Some("q2")));
    assert_eq!(take(&mut hub, "ds", filter(Some("q2"), Some("task"))), "d");
    assert_eq!(take(&mut hub, "ds", filter(Some("q2"), None)), "c");
    assert_eq!(take(&mut hub, "ds", filter(None, Some("result"))), "b");
    assert_eq!(take(&mut hub, "ds", any()), "a");
}

#[test]
fn a_filter_without_match_parks_although_something_is_queued() {
    let mut hub = HubState::new();
    send(&mut hub, envelope("a", "ds", "task", None));
    let (_, mut rx) = park(&mut hub, "ds", filter(Some("q1"), None));
    assert_eq!(got(&mut rx), None);
    assert_eq!(
        send(&mut hub, envelope("b", "ds", "result", Some("q1"))),
        SendOutcome::HandedOff
    );
    assert_eq!(got(&mut rx), Some("b".to_string()));
    assert_eq!(take(&mut hub, "ds", any()), "a");
}

#[test]
fn a_parked_await_is_handed_the_next_envelope() {
    let mut hub = HubState::new();
    let (_, mut rx) = park(&mut hub, "ds", any());
    assert_eq!(send(&mut hub, envelope("a", "ds", "task", None)), SendOutcome::HandedOff);
    assert_eq!(send(&mut hub, envelope("b", "ds", "task", None)), SendOutcome::Queued(1));
    assert_eq!(got(&mut rx), Some("a".to_string()));
    assert_eq!(got(&mut rx), None);
}

#[test]
fn the_most_specific_waiter_wins_then_the_oldest() {
    let mut hub = HubState::new();
    let (_, mut plain) = park(&mut hub, "ds", any());
    let (_, mut of_kind) = park(&mut hub, "ds", filter(None, Some("result")));
    let (_, mut reply) = park(&mut hub, "ds", filter(Some("q"), None));
    let (_, mut reply_later) = park(&mut hub, "ds", filter(Some("q"), None));
    let (_, mut both) = park(&mut hub, "ds", filter(Some("q"), Some("result")));
    for id in ["1", "2", "3", "4", "5"] {
        assert_eq!(
            send(&mut hub, envelope(id, "ds", "result", Some("q"))),
            SendOutcome::HandedOff
        );
    }
    assert_eq!(got(&mut both), Some("1".to_string()));
    assert_eq!(got(&mut reply), Some("2".to_string()));
    assert_eq!(got(&mut reply_later), Some("3".to_string()));
    assert_eq!(got(&mut of_kind), Some("4".to_string()));
    assert_eq!(got(&mut plain), Some("5".to_string()));
}

#[test]
fn every_condition_of_a_filter_must_hold() {
    let both = filter(Some("q"), Some("result"));
    assert!(both.passes(&envelope("1", "ds", "result", Some("q"))));
    assert!(!both.passes(&envelope("1", "ds", "task", Some("q"))));
    assert!(!both.passes(&envelope("1", "ds", "result", Some("other"))));
    assert!(!both.passes(&envelope("1", "ds", "result", None)));
    assert!(any().passes(&envelope("1", "ds", "result", None)));
}

#[test]
fn waiters_that_are_gone_are_skipped_and_dropped() {
    let mut hub = HubState::new();
    let (first, rx) = park(&mut hub, "ds", filter(None, Some("task")));
    drop(rx);
    let (second, rx) = park(&mut hub, "ds", any());
    drop(rx);
    let (third, mut alive) = park(&mut hub, "ds", any());
    let routed = hub.commit_send(Ok(()), submit("a", "ds", "task", None)).unwrap();
    assert_eq!(routed.outcome, SendOutcome::HandedOff);
    assert_eq!(routed.purged, vec![first, second]);
    assert_eq!(got(&mut alive), Some("a".to_string()));
    assert!(!hub.remove_waiter("ds", first));
    assert!(!hub.remove_waiter("ds", third));
}

#[test]
fn with_every_waiter_gone_the_envelope_queues() {
    let mut hub = HubState::new();
    let (only, rx) = park(&mut hub, "ds", any());
    drop(rx);
    let routed = hub.commit_send(Ok(()), submit("a", "ds", "task", None)).unwrap();
    assert_eq!(routed.outcome, SendOutcome::Queued(1));
    assert_eq!(routed.purged, vec![only]);
    assert_eq!(take(&mut hub, "ds", any()), "a");
}

#[test]
fn what_is_not_audited_is_not_accepted() {
    let mut hub = HubState::new();
    let (id, mut rx) = park(&mut hub, "ds", any());
    let refused = hub.commit_send(Err("disk full".to_string()), submit("a", "ds", "task", None));
    assert_eq!(refused.unwrap_err(), "disk full");
    assert_eq!(got(&mut rx), None);
    assert!(hub.remove_waiter("ds", id));
    assert!(hub.take_queued("ds", &any()).is_none());
}

#[test]
fn a_returned_envelope_goes_to_the_front() {
    let mut hub = HubState::new();
    send(&mut hub, envelope("a", "ds", "task", None));
    send(&mut hub, envelope("b", "ds", "task", None));
    let taken = hub.take_queued("ds", &any()).unwrap();
    assert_eq!(taken.id, "a");
    let routed = hub.return_to_routing(taken);
    assert_eq!(routed.outcome, SendOutcome::Queued(2));
    assert!(routed.purged.is_empty());
    assert_eq!(take(&mut hub, "ds", any()), "a");
    assert_eq!(take(&mut hub, "ds", any()), "b");
}

#[test]
fn a_returned_envelope_goes_to_the_next_waiter() {
    let mut hub = HubState::new();
    send(&mut hub, envelope("a", "ds", "task", None));
    let taken = hub.take_queued("ds", &any()).unwrap();
    let (_, mut rx) = park(&mut hub, "ds", any());
    assert_eq!(hub.return_to_routing(taken).outcome, SendOutcome::HandedOff);
    assert_eq!(got(&mut rx), Some("a".to_string()));
}

#[test]
fn a_timeout_removes_its_own_waiter_and_nothing_else() {
    let mut hub = HubState::new();
    send(&mut hub, envelope("queued", "ds", "task", None));
    let (first, _first_rx) = park(&mut hub, "ds", filter(Some("q"), None));
    let (second, mut second_rx) = park(&mut hub, "ds", filter(Some("q"), None));
    assert!(matches!(time_out(&mut hub, "ds", first), Some(HandoffOutcome::TimedOut)));
    assert!(time_out(&mut hub, "ds", first).is_none());
    assert_eq!(
        send(&mut hub, envelope("reply", "ds", "result", Some("q"))),
        SendOutcome::HandedOff
    );
    assert_eq!(got(&mut second_rx), Some("reply".to_string()));
    assert!(time_out(&mut hub, "ds", second).is_none());
    assert_eq!(take(&mut hub, "ds", any()), "queued");
}

#[test]
fn a_handoff_that_comes_first_beats_the_timeout() {
    let mut hub = HubState::new();
    let (id, mut rx) = park(&mut hub, "ds", any());
    send(&mut hub, envelope("a", "ds", "task", None));
    assert!(time_out(&mut hub, "ds", id).is_none());
    match handed_over(rx.try_recv().ok()) {
        HandoffOutcome::Delivered(envelope) => assert_eq!(envelope.id, "a"),
        other => panic!("{other:?}"),
    }
}

#[test]
fn a_lost_channel_is_reported() {
    assert!(matches!(handed_over(None), HandoffOutcome::ChannelLost));
}

#[test]
fn timeouts_of_others_or_of_nobody_change_nothing() {
    let mut hub = HubState::new();
    let (id, mut rx) = park(&mut hub, "ds", any());
    assert!(!hub.remove_waiter("other", id));
    assert!(!hub.remove_waiter("ds", id + 1));
    assert_eq!(send(&mut hub, envelope("a", "ds", "task", None)), SendOutcome::HandedOff);
    assert_eq!(got(&mut rx), Some("a".to_string()));
}

#[test]
fn waiter_ids_are_never_given_twice() {
    let mut hub = HubState::new();
    let (first, _rx) = park(&mut hub, "ds", any());
    assert!(hub.remove_waiter("ds", first));
    let (second, _rx) = park(&mut hub, "ds", any());
    let (third, _rx) = park(&mut hub, "other", any());
    assert_eq!((first, second, third), (0, 1, 2));
    assert!(hub.can_park());
}

#[test]
fn each_envelope_reaches_one_consumer() {
    let mut hub = HubState::new();
    let (_, mut one) = park(&mut hub, "ds", any());
    let (_, mut two) = park(&mut hub, "ds", any());
    send(&mut hub, envelope("a", "ds", "task", None));
    send(&mut hub, envelope("b", "ds", "task", None));
    send(&mut hub, envelope("c", "ds", "task", None));
    assert_eq!(got(&mut one), Some("a".to_string()));
    assert_eq!(got(&mut two), Some("b".to_string()));
    assert_eq!(take(&mut hub, "ds", any()), "c");
    assert!(hub.take_queued("ds", &any()).is_none());
}

#[test]
fn the_body_arrives_as_it_was_sent() {
    let mut hub = HubState::new();
    send(&mut hub, envelope("a", "ds", "task", Some("q")));
    let taken = hub.take_queued("ds", &any()).unwrap();
    assert_eq!(taken.body, serde_json::Value::String("a".to_string()));
    assert_eq!(taken.from, "mneme");
    assert_eq!(taken.correlation_id, Some("q".to_string()));
}

#[test]
fn many_names_can_come_and_go() {
    let mut hub = HubState::new();
    for round in 0..3 {
        for n in 0..40 {
            let name = format!("agent-{n}");
            let id = format!("{round}-{n}");
            assert_eq!(
                send(&mut hub, envelope(&id, &name, "task", None)),
                SendOutcome::Queued(1)
            );
        }
        for n in (0..40).rev() {
            let name = format!("agent-{n}");
            assert_eq!(take(&mut hub, &name, any()), format!("{round}-{n}"));
        }
    }
}

#[test]
fn commits_around_a_return_keep_their_order() {
    let mut hub = HubState::new();
    send(&mut hub, envelope("a", "ds", "task", None));
    send(&mut hub, envelope("b", "ds", "result", None));
    let taken = hub.take_queued("ds", &filter(None, Some("result"))).unwrap();
    send(&mut hub, envelope("c", "ds", "task", None));
    hub.return_to_routing(taken);
    send(&mut hub, envelope("d", "ds", "task", None));
    let order: Vec<String> = (0..4).map(|_| take(&mut hub, "ds", any())).collect();
    assert_eq!(order, ["b", "a", "c", "d"]);
}

#[test]
fn what_is_recorded_is_what_is_routed() {
    let mut hub = HubState::new();
    let now = Timestamp { secs: 5, nanos: 7 };
    let submission = submit("a", "ds", "task", Some("q"));
    assert_eq!(submission.id(), "a");
    let recorded = match submission.record(now) {
        AuditEvent::Accepted { ts, envelope } => {
            assert_eq!(ts, now);
            envelope
        }
        other => panic!("{other:?}"),
    };
    hub.commit_send(Ok(()), submission).unwrap();
    let routed = hub.take_queued("ds", &any()).unwrap();
    assert_eq!(format!("{recorded:?}"), format!("{routed:?}"));
}

#[test]
fn a_waiter_leaves_once_and_for_a_reason() {
    let mut hub = HubState::new();
    let (timed, mut timed_rx) = park(&mut hub, "ds", any());
    let (handed, mut handed_rx) = park(&mut hub, "ds", any());
    let (gone, gone_rx) = park(&mut hub, "ds", any());
    drop(gone_rx);
    assert!(time_out(&mut hub, "ds", timed).is_some());
    let routed = hub.commit_send(Ok(()), submit("a", "ds", "task", None)).unwrap();
    assert!(routed.purged.is_empty());
    let routed = hub.commit_send(Ok(()), submit("b", "ds", "task", None)).unwrap();
    assert_eq!(routed.purged, vec![gone]);
    assert_eq!(got(&mut timed_rx), None);
    assert_eq!(got(&mut handed_rx), Some("a".to_string()));
    for id in [timed, handed, gone] {
        assert!(time_out(&mut hub, "ds", id).is_none());
    }
}
