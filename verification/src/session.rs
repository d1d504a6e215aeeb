//! One connection, from the hub's side.
//!
//! A conversation is a hello line, then exactly one verb, then the end. [`begin`]
//! opens it and [`step`] makes its decisions: from where the conversation stands and what just happened
//! it gives the next phase and the one thing to do. The server does that thing,
//! sockets, files and clocks included, and comes back with what came of it.

use vstd::prelude::*;
use vstd::string::*;

use crate::audit::{AuditEvent, AuditEventView, AuthFailureReason};
use crate::envelope::{text_option, Envelope, EnvelopeError, EnvelopeErrorView, EnvelopeView};
use crate::history::Move;
use crate::hub::{Filter, FilterView, HubState, Submission};
use crate::line::{ReadLineError, ReadLineErrorView};
use crate::roster::{auth_failure, Roster};
use crate::text::{debug_text, prefixed, quoted};
use crate::timestamp::{rfc3339_refusal, Timestamp};
use crate::wire::{
    ClientLine, ClientLineView, ServerLine, ServerLineView, WireError, WireErrorView,
};

verus! {

/// Where a conversation stands.
#[derive(Debug)]
pub enum Phase {
    /// The connection is new; it is being recorded.
    Opening,
    /// The peer owes its hello line.
    Hello,
    /// `name` is authenticated; the ok line is on its way.
    Welcome { name: String },
    /// `name` owes its verb line.
    Verb { name: String },
    /// The envelope with this id is being committed.
    Committing { id: String },
    /// An `await` of `name` is being registered.
    Enlisting { name: String, timeout_secs: Option<u64> },
    /// A waiter of `name` is parked.
    Parked { name: String, timeout_secs: Option<u64> },
    /// `envelope` is being written to `name`, who awaited it.
    Delivering { name: String, envelope: Envelope },
    /// The last thing is being done.
    Ending,
    /// Nothing is left to do.
    Closed,
}

/// The contents of a [`Phase`].
pub enum PhaseView {
    Opening,
    Hello,
    Welcome { name: Seq<char> },
    Verb { name: Seq<char> },
    Committing { id: Seq<char> },
    Enlisting { name: Seq<char>, timeout_secs: Option<u64> },
    Parked { name: Seq<char>, timeout_secs: Option<u64> },
    Delivering { name: Seq<char>, envelope: EnvelopeView },
    Ending,
    Closed,
}

impl View for Phase {
    type V = PhaseView;

    open spec fn view(&self) -> PhaseView {
        match *self {
            Phase::Opening => PhaseView::Opening,
            Phase::Hello => PhaseView::Hello,
            Phase::Welcome { name } => PhaseView::Welcome { name: name@ },
            Phase::Verb { name } => PhaseView::Verb { name: name@ },
            Phase::Committing { id } => PhaseView::Committing { id: id@ },
            Phase::Enlisting { name, timeout_secs } => PhaseView::Enlisting {
                name: name@,
                timeout_secs,
            },
            Phase::Parked { name, timeout_secs } => PhaseView::Parked {
                name: name@,
                timeout_secs,
            },
            Phase::Delivering { name, envelope } => PhaseView::Delivering {
                name: name@,
                envelope: envelope@,
            },
            Phase::Ending => PhaseView::Ending,
            Phase::Closed => PhaseView::Closed,
        }
    }
}

/// What came of waiting for a line from the peer.
#[derive(Debug)]
pub enum Heard {
    /// The peer closed before the line began.
    Nothing,
    /// No line could be read.
    Unreadable(ReadLineError),
    /// A line was read that is no client line.
    Malformed(WireError),
    Line(ClientLine),
}

/// The contents of a [`Heard`].
pub enum HeardView {
    Nothing,
    Unreadable(ReadLineErrorView),
    Malformed(WireErrorView),
    Line(ClientLineView),
}

impl View for Heard {
    type V = HeardView;

    open spec fn view(&self) -> HeardView {
        match *self {
            Heard::Nothing => HeardView::Nothing,
            Heard::Unreadable(error) => HeardView::Unreadable(error@),
            Heard::Malformed(error) => HeardView::Malformed(error@),
            Heard::Line(line) => HeardView::Line(line@),
        }
    }
}

/// What ended a parked waiter's wait.
#[derive(Debug)]
pub enum HandoffOutcome {
    /// A send handed this envelope over.
    Delivered(Envelope),
    /// The hub-side timeout elapsed with the waiter still parked: nothing was
    /// consumed.
    TimedOut,
    /// The handoff channel closed without an envelope.
    ChannelLost,
}

/// The contents of a [`HandoffOutcome`].
pub enum HandoffOutcomeView {
    Delivered(EnvelopeView),
    TimedOut,
    ChannelLost,
}

impl View for HandoffOutcome {
    type V = HandoffOutcomeView;

    open spec fn view(&self) -> HandoffOutcomeView {
        match *self {
            HandoffOutcome::Delivered(envelope) => HandoffOutcomeView::Delivered(envelope@),
            HandoffOutcome::TimedOut => HandoffOutcomeView::TimedOut,
            HandoffOutcome::ChannelLost => HandoffOutcomeView::ChannelLost,
        }
    }
}

/// What came of the last action.
#[derive(Debug)]
pub enum Event {
    /// Of [`Action::Read`].
    Heard(Heard),
    /// The line went out whole.
    Written,
    /// The line did not go out whole; the socket had taken this many bytes of it.
    WriteFailed { accepted: usize },
    /// The line could not be serialized, so no byte of it went out.
    Unsendable,
    /// Of [`Action::Commit`]: accepted, or the cause why not.
    Committed(Result<(), String>),
    /// Of [`Action::Enlist`]: a queued envelope was taken.
    Taken(Envelope),
    /// Of [`Action::Enlist`]: a waiter was parked.
    Parked,
    /// Of [`Action::Wait`].
    Handoff(HandoffOutcome),
    /// The record was appended, or the envelope is back in routing.
    Done,
}

/// The contents of an [`Event`].
pub enum EventView {
    Heard(HeardView),
    Written,
    WriteFailed { accepted: usize },
    Unsendable,
    Committed(Result<(), Seq<char>>),
    Taken(EnvelopeView),
    Parked,
    Handoff(HandoffOutcomeView),
    Done,
}

impl View for Event {
    type V = EventView;

    open spec fn view(&self) -> EventView {
        match *self {
            Event::Heard(heard) => EventView::Heard(heard@),
            Event::Written => EventView::Written,
            Event::WriteFailed { accepted } => EventView::WriteFailed { accepted },
            Event::Unsendable => EventView::Unsendable,
            Event::Committed(result) => EventView::Committed(
                match result {
                    Ok(_) => Ok(()),
                    Err(cause) => Err(cause@),
                },
            ),
            Event::Taken(envelope) => EventView::Taken(envelope@),
            Event::Parked => EventView::Parked,
            Event::Handoff(outcome) => EventView::Handoff(outcome@),
            Event::Done => EventView::Done,
        }
    }
}

/// The one thing to do next.
#[derive(Debug)]
pub enum Action {
    /// Read and parse one line.
    Read,
    /// Write this line.
    Write(ServerLine),
    /// Append this authentication failure to the audit log, then write this line.
    Refuse { record: AuditEvent, line: ServerLine },
    /// Append the record of this submission to the audit log, then commit it.
    Commit(Submission),
    /// Take an envelope queued for `name` that passes the filter, or park a waiter.
    Enlist { name: String, filter: Filter },
    /// Wait until the parked waiter is handed an envelope or this many seconds have
    /// gone by; without a number, for as long as it takes.
    Wait { timeout_secs: Option<u64> },
    /// Write this envelope line, minding how many bytes of it the socket takes.
    Deliver(ServerLine),
    /// Append this connection or delivery to the audit log.
    Record(AuditEvent),
    /// Return this envelope to routing.
    Return(Envelope),
    /// Close the connection.
    Close,
}

/// The contents of an [`Action`].
pub enum ActionView {
    Read,
    Write(ServerLineView),
    Refuse { record: AuditEventView, line: ServerLineView },
    Commit(EnvelopeView),
    Enlist { name: Seq<char>, filter: FilterView },
    Wait { timeout_secs: Option<u64> },
    Deliver(ServerLineView),
    Record(AuditEventView),
    Return(EnvelopeView),
    Close,
}

impl View for Action {
    type V = ActionView;

    open spec fn view(&self) -> ActionView {
        match *self {
            Action::Read => ActionView::Read,
            Action::Write(line) => ActionView::Write(line@),
            Action::Refuse { record, line } => ActionView::Refuse {
                record: record@,
                line: line@,
            },
            Action::Commit(submission) => ActionView::Commit(submission@),
            Action::Enlist { name, filter } => ActionView::Enlist {
                name: name@,
                filter: filter@,
            },
            Action::Wait { timeout_secs } => ActionView::Wait { timeout_secs },
            Action::Deliver(line) => ActionView::Deliver(line@),
            Action::Record(record) => ActionView::Record(record@),
            Action::Return(envelope) => ActionView::Return(envelope@),
            Action::Close => ActionView::Close,
        }
    }
}

/// What every decision of one connection rests on beside its phase.
pub struct Setting {
    /// Agent name -> token.
    pub agents: Map<Seq<char>, Seq<char>>,
    /// The peer's address.
    pub peer: Seq<char>,
}

/// The hub sends one error line and ends the conversation.
pub open spec fn refused(message: Seq<char>) -> (PhaseView, ActionView) {
    (PhaseView::Ending, ActionView::Write(ServerLineView::Error { message }))
}

/// The conversation ends without another line.
pub open spec fn closed() -> (PhaseView, ActionView) {
    (PhaseView::Closed, ActionView::Close)
}

/// The line for a failed authentication, with the asserted name quoted.
pub open spec fn auth_refusal_text(quotation: Seq<char>, reason: AuthFailureReason) -> Seq<char> {
    "authentication failed for "@ + quotation + ": "@ + reason.text()
}

/// What follows the wait for a hello line.
pub open spec fn after_hello(setting: Setting, now: Timestamp, heard: HeardView) -> (
    PhaseView,
    ActionView,
) {
    match heard {
        HeardView::Nothing => closed(),
        HeardView::Unreadable(error) => refused("invalid hello line: "@ + error.text()),
        HeardView::Malformed(error) => refused(error.text()),
        HeardView::Line(ClientLineView::Hello { name, token }) => match auth_failure(
            setting.agents,
            name,
            token,
        ) {
            None => (
                PhaseView::Welcome { name },
                ActionView::Write(ServerLineView::Okay {  }),
            ),
            Some(reason) => (
                PhaseView::Ending,
                ActionView::Refuse {
                    record: AuditEventView::AuthFailure { ts: now, peer: setting.peer, name, reason },
                    line: ServerLineView::Error {
                        message: auth_refusal_text(debug_text(name), reason),
                    },
                },
            ),
        },
        HeardView::Line(_) => refused("first line must be hello"@),
    }
}

/// What follows a send line from `name`, where `defect` is what validation has
/// against its envelope.
pub open spec fn after_send(
    name: Seq<char>,
    envelope: EnvelopeView,
    defect: Option<EnvelopeErrorView>,
) -> (PhaseView, ActionView) {
    match defect {
        Some(error) => refused("invalid envelope: "@ + error.text()),
        None => (
            PhaseView::Committing { id: envelope.id },
            ActionView::Commit(envelope.stamped(name)),
        ),
    }
}

/// What follows an await line from `name`.
pub open spec fn after_await(
    name: Seq<char>,
    reply_to: Option<Seq<char>>,
    kind: Option<Seq<char>>,
    timeout_secs: Option<u64>,
) -> (PhaseView, ActionView) {
    if reply_to == Some(Seq::<char>::empty()) {
        refused("invalid await: replyTo is empty; omit it or use an envelope id"@)
    } else if kind == Some(Seq::<char>::empty()) {
        refused("invalid await: kind is empty; omit it or use an envelope kind"@)
    } else {
        (
            PhaseView::Enlisting { name, timeout_secs },
            ActionView::Enlist { name, filter: FilterView { reply_to, kind } },
        )
    }
}

/// What follows the wait for the verb line of `name`.
pub open spec fn after_verb(name: Seq<char>, heard: HeardView) -> (PhaseView, ActionView) {
    match heard {
        HeardView::Nothing => closed(),
        HeardView::Unreadable(error) => refused("invalid verb line: "@ + error.text()),
        HeardView::Malformed(error) => refused(error.text()),
        HeardView::Line(ClientLineView::Send(envelope)) => after_send(
            name,
            envelope,
            envelope.defect(),
        ),
        HeardView::Line(ClientLineView::Await { reply_to, kind, timeout_secs }) => after_await(
            name,
            reply_to,
            kind,
            timeout_secs,
        ),
        HeardView::Line(ClientLineView::Hello { .. }) => refused(
            "duplicate hello: connection is already authenticated"@,
        ),
    }
}

/// `name` is about to be sent `envelope`.
pub open spec fn delivering(name: Seq<char>, envelope: EnvelopeView) -> (PhaseView, ActionView) {
    (
        PhaseView::Delivering { name, envelope },
        ActionView::Deliver(ServerLineView::Envelope(envelope)),
    )
}

/// The whole conversation: the next phase and action from a phase and an event. An
/// event that is no outcome of the phase's action closes the connection.
pub open spec fn next(setting: Setting, now: Timestamp, phase: PhaseView, event: EventView) -> (
    PhaseView,
    ActionView,
) {
    match (phase, event) {
        (PhaseView::Opening, EventView::Done) => (PhaseView::Hello, ActionView::Read),
        (PhaseView::Hello, EventView::Heard(heard)) => after_hello(setting, now, heard),
        (PhaseView::Welcome { name }, EventView::Written) => (
            PhaseView::Verb { name },
            ActionView::Read,
        ),
        (PhaseView::Verb { name }, EventView::Heard(heard)) => after_verb(name, heard),
        (PhaseView::Committing { id }, EventView::Committed(Ok(_))) => (
            PhaseView::Ending,
            ActionView::Write(ServerLineView::Accepted { id }),
        ),
        (PhaseView::Committing { id: _ }, EventView::Committed(Err(cause))) => refused(
            "envelope not accepted: "@ + cause,
        ),
        (PhaseView::Enlisting { name, .. }, EventView::Taken(envelope)) => delivering(
            name,
            envelope,
        ),
        (PhaseView::Enlisting { name, timeout_secs }, EventView::Parked) => (
            PhaseView::Parked { name, timeout_secs },
            ActionView::Wait { timeout_secs },
        ),
        (
            PhaseView::Parked { name, .. },
            EventView::Handoff(HandoffOutcomeView::Delivered(envelope)),
        ) => delivering(name, envelope),
        (
            PhaseView::Parked { timeout_secs: Some(_), .. },
            EventView::Handoff(HandoffOutcomeView::TimedOut),
        ) => (PhaseView::Ending, ActionView::Write(ServerLineView::Timeout {  })),
        (PhaseView::Parked { .. }, EventView::Handoff(HandoffOutcomeView::ChannelLost)) => refused(
            "internal error: await handoff lost"@,
        ),
        (PhaseView::Delivering { name, envelope }, EventView::Written) => (
            PhaseView::Ending,
            ActionView::Record(
                AuditEventView::Delivery {
                    ts: now,
                    id: envelope.id,
                    to: name,
                    peer: setting.peer,
                },
            ),
        ),
        (PhaseView::Delivering { envelope, .. }, EventView::WriteFailed { accepted: 0 }) => (
            PhaseView::Ending,
            ActionView::Return(envelope),
        ),
        (PhaseView::Delivering { envelope, .. }, EventView::Unsendable) => (
            PhaseView::Ending,
            ActionView::Return(envelope),
        ),
        _ => closed(),
    }
}

fn refuse(message: String) -> (turn: (Phase, Action))
    ensures
        (turn.0@, turn.1@) == refused(message@),
{
    (Phase::Ending, Action::Write(ServerLine::Error { message }))
}

fn close() -> (turn: (Phase, Action))
    ensures
        (turn.0@, turn.1@) == closed(),
{
    (Phase::Closed, Action::Close)
}

/// Writes the line for a failed authentication of a name that is already quoted.
pub fn describe_auth_refusal(quotation: &str, reason: AuthFailureReason) -> (text: String)
    ensures
        text@ == auth_refusal_text(quotation@, reason),
        text@ == "authentication failed for "@ + quotation@ + ": "@ + match reason {
            AuthFailureReason::UnknownName => "unknown agent name"@,
            AuthFailureReason::TokenMismatch => "token mismatch"@,
        },
{
    let mut text = "authentication failed for ".to_string();
    text.append(quotation);
    text.append(": ");
    text.append(reason.to_string().as_str());
    text
}

fn decide_hello(roster: &Roster, peer: &str, now: Timestamp, heard: Heard) -> (turn: (
    Phase,
    Action,
))
    requires
        roster.agents.wf(),
    ensures
        (turn.0@, turn.1@) == after_hello(Setting { agents: roster@, peer: peer@ }, now, heard@),
{
    match heard {
        Heard::Nothing => close(),
        Heard::Unreadable(error) => refuse(
            prefixed("invalid hello line: ", error.to_string().as_str()),
        ),
        Heard::Malformed(error) => refuse(error.to_string()),
        Heard::Line(line) => match line {
            ClientLine::Hello { name, token } => match roster.authenticate(name.as_str(), &token) {
                None => (Phase::Welcome { name }, Action::Write(ServerLine::Okay {  })),
                Some(reason) => {
                    let message = describe_auth_refusal(quoted(name.as_str()).as_str(), reason);
                    let record = AuditEvent::AuthFailure {
                        ts: now,
                        peer: peer.to_string(),
                        name,
                        reason,
                    };
                    (Phase::Ending, Action::Refuse { record, line: ServerLine::Error { message } })
                },
            },
            _ => refuse("first line must be hello".to_string()),
        },
    }
}

/// Answers a send line from `name`, given the verdict on its envelope: a valid
/// envelope is stamped with the authenticated name and committed, whatever sender
/// it claimed.
pub fn decide_send(name: &str, envelope: Envelope, verdict: Result<(), EnvelopeError>) -> (turn: (
    Phase,
    Action,
))
    ensures
        (turn.0@, turn.1@) == after_send(
            name@,
            envelope@,
            match verdict {
                Ok(_) => None,
                Err(error) => Some(error@),
            },
        ),
        match verdict {
            Ok(_) => {
                &&& turn.0@ == (PhaseView::Committing { id: envelope.id@ })
                &&& turn.1 matches Action::Commit(submission)
                &&& submission@.from == name@
                &&& submission@.id == envelope.id@
                &&& submission@.to == envelope.to@
                &&& submission@.ts == envelope.ts@
                &&& submission@.kind == envelope.kind@
                &&& submission@.correlation_id == envelope@.correlation_id
                &&& submission@.body == envelope.body
            },
            Err(error) => {
                &&& turn.0 is Ending
                &&& turn.1 matches Action::Write(ServerLine::Error { message })
                &&& message@ == "invalid envelope: "@ + error@.text()
            },
        },
{
    match verdict {
        Err(error) => refuse(prefixed("invalid envelope: ", error.to_string().as_str())),
        Ok(_) => {
            let mut stamped = envelope;
            stamped.from = name.to_string();
            (Phase::Committing { id: stamped.id.clone() }, Action::Commit(Submission::new(stamped)))
        },
    }
}

fn is_blank(text: &Option<String>) -> (blank: bool)
    ensures
        blank == (text_option(*text) == Some(Seq::<char>::empty())),
{
    match text {
        Some(t) => {
            let blank = t.as_str().is_empty();
            assert(blank ==> t@ =~= Seq::<char>::empty());
            blank
        },
        None => false,
    }
}

fn decide_await(
    name: String,
    reply_to: Option<String>,
    kind: Option<String>,
    timeout_secs: Option<u64>,
) -> (turn: (Phase, Action))
    ensures
        (turn.0@, turn.1@) == after_await(
            name@,
            text_option(reply_to),
            text_option(kind),
            timeout_secs,
        ),
{
    if is_blank(&reply_to) {
        return refuse(
            "invalid await: replyTo is empty; omit it or use an envelope id".to_string(),
        );
    }
    if is_blank(&kind) {
        return refuse(
            "invalid await: kind is empty; omit it or use an envelope kind".to_string(),
        );
    }
    let filter = Filter { reply_to, kind };
    (Phase::Enlisting { name: name.clone(), timeout_secs }, Action::Enlist { name, filter })
}

fn decide_verb(name: String, heard: Heard) -> (turn: (Phase, Action))
    ensures
        (turn.0@, turn.1@) == after_verb(name@, heard@),
{
    match heard {
        Heard::Nothing => close(),
        Heard::Unreadable(error) => refuse(
            prefixed("invalid verb line: ", error.to_string().as_str()),
        ),
        Heard::Malformed(error) => refuse(error.to_string()),
        Heard::Line(line) => match line {
            ClientLine::Send(envelope) => {
                let verdict = envelope.validate();
                decide_send(name.as_str(), envelope, verdict)
            },
            ClientLine::Await { reply_to, kind, timeout_secs } => decide_await(
                name,
                reply_to,
                kind,
                timeout_secs,
            ),
            ClientLine::Hello { .. } => refuse(
                "duplicate hello: connection is already authenticated".to_string(),
            ),
        },
    }
}

fn deliver(name: String, envelope: Envelope) -> (turn: (Phase, Action))
    ensures
        (turn.0@, turn.1@) == delivering(name@, envelope@),
{
    let line = ServerLine::Envelope(envelope.clone());
    (Phase::Delivering { name, envelope }, Action::Deliver(line))
}

/// How a conversation begins: the connection is recorded before anything is read.
pub open spec fn opening(peer: Seq<char>, opened: Timestamp) -> (PhaseView, ActionView) {
    (PhaseView::Opening, ActionView::Record(AuditEventView::Connection { ts: opened, peer }))
}

/// Begins the conversation with the peer at this address.
pub fn begin(peer: &str, now: Timestamp) -> (turn: (Phase, Action))
    ensures
        (turn.0@, turn.1@) == opening(peer@, now),
        turn.0 is Opening,
        turn.1@ == ActionView::Record(AuditEventView::Connection { ts: now, peer: peer@ }),
{
    (Phase::Opening, Action::Record(AuditEvent::Connection { ts: now, peer: peer.to_string() }))
}

/// Decides what follows `event` in `phase`. `now` is the hub's clock; it only dates
/// audit records.
pub fn step(roster: &Roster, peer: &str, now: Timestamp, phase: Phase, event: Event) -> (turn: (
    Phase,
    Action,
))
    requires
        roster.agents.wf(),
    ensures
        (turn.0@, turn.1@) == next(
            Setting { agents: roster@, peer: peer@ },
            now,
            phase@,
            event@,
        ),
{
    match (phase, event) {
        (Phase::Opening, Event::Done) => (Phase::Hello, Action::Read),
        (Phase::Hello, Event::Heard(heard)) => decide_hello(roster, peer, now, heard),
        (Phase::Welcome { name }, Event::Written) => (Phase::Verb { name }, Action::Read),
        (Phase::Verb { name }, Event::Heard(heard)) => decide_verb(name, heard),
        (Phase::Committing { id }, Event::Committed(result)) => match result {
            Ok(_) => (Phase::Ending, Action::Write(ServerLine::Accepted { id })),
            Err(cause) => refuse(prefixed("envelope not accepted: ", cause.as_str())),
        },
        (Phase::Enlisting { name, .. }, Event::Taken(envelope)) => deliver(name, envelope),
        (Phase::Enlisting { name, timeout_secs }, Event::Parked) => (
            Phase::Parked { name, timeout_secs },
            Action::Wait { timeout_secs },
        ),
        (Phase::Parked { name, timeout_secs }, Event::Handoff(outcome)) => match outcome {
            HandoffOutcome::Delivered(envelope) => deliver(name, envelope),
            HandoffOutcome::TimedOut => if timeout_secs.is_some() {
                (Phase::Ending, Action::Write(ServerLine::Timeout {  }))
            } else {
                close()
            },
            HandoffOutcome::ChannelLost => refuse(
                "internal error: await handoff lost".to_string(),
            ),
        },
        (Phase::Delivering { name, envelope }, Event::Written) => {
            let record = AuditEvent::Delivery {
                ts: now,
                id: envelope.id,
                to: name,
                peer: peer.to_string(),
            };
            (Phase::Ending, Action::Record(record))
        },
        (Phase::Delivering { name: _, envelope }, Event::WriteFailed { accepted }) => {
            if accepted == 0 {
                (Phase::Ending, Action::Return(envelope))
            } else {
                close()
            }
        },
        (Phase::Delivering { name: _, envelope }, Event::Unsendable) => (
            Phase::Ending,
            Action::Return(envelope),
        ),
        _ => close(),
    }
}

/// Ends a wait whose channel resolved: with an envelope, or without one.
pub fn handed_over(received: Option<Envelope>) -> (outcome: HandoffOutcome)
    ensures
        outcome@ == match received {
            Some(envelope) => HandoffOutcomeView::Delivered(envelope@),
            None => HandoffOutcomeView::ChannelLost,
        },
        received matches Some(envelope) ==> (outcome matches HandoffOutcome::Delivered(given)
            && given@ == envelope@),
        received is None ==> outcome is ChannelLost,
{
    match received {
        Some(envelope) => HandoffOutcome::Delivered(envelope),
        None => HandoffOutcome::ChannelLost,
    }
}

/// Settles the race between a waiter's timer and a send that matches it. A waiter
/// that is still parked leaves, and the wait timed out: no envelope left a queue,
/// none can reach the waiter any more, and every other waiter stays. `None` says
/// that the waiter had left already. A waiter leaves only by its own timeout, by
/// being handed an envelope, or by being found without its receiving half; so
/// whoever still holds that half has the envelope in the channel.
pub fn time_out(state: &mut HubState, name: &str, waiter_id: u64) -> (outcome: Option<
    HandoffOutcome,
>)
    requires
        old(state).wf(),
    ensures
        final(state).wf(),
        match outcome {
            Some(ended) => {
                &&& ended@ == HandoffOutcomeView::TimedOut
                &&& old(state)@.is_parked(name@, waiter_id)
                &&& old(state)@.loses_only(waiter_id, final(state)@)
                &&& exists|at: int|
                    {
                        &&& #[trigger] (Move::TimedOut { name: name@, at }).leads(
                            old(state)@,
                            final(state)@,
                        )
                        &&& (Move::TimedOut { name: name@, at }).times_out(old(state)@, waiter_id)
                    }
            },
            None => {
                &&& !old(state)@.is_parked(name@, waiter_id)
                &&& final(state)@ == old(state)@
            },
        },
        outcome is Some <==> exists|i: int|
            0 <= i < old(state)@.parked_at(name@).len() && (#[trigger] old(state)@.parked_at(
                name@,
            )[i]).id == waiter_id,
        outcome is Some ==> outcome->0 is TimedOut,
        outcome is Some ==> exists|i: int|
            {
                &&& 0 <= i < old(state)@.parked_at(name@).len()
                &&& (#[trigger] old(state)@.parked_at(name@)[i]).id == waiter_id
                &&& final(state)@.parked_at(name@) == old(state)@.parked_at(name@).remove(i)
            },
        final(state)@.queues == old(state)@.queues,
        final(state)@.next_waiter_id == old(state)@.next_waiter_id,
        forall|other: Seq<char>|
            other != name@ ==> #[trigger] final(state)@.parked_at(other) == old(state)@.parked_at(
                other,
            ),
{
    let ghost before = state@;
    proof {
        state.lemma_routing_invariant();
    }
    if state.remove_waiter(name, waiter_id) {
        proof {
            let at = choose|i: int|
                {
                    &&& 0 <= i < before.parked_at(name@).len()
                    &&& #[trigger] before.parked_at(name@)[i].id == waiter_id
                    &&& state@ == before.with_parked(name@, before.parked_at(name@).remove(i))
                };
            before.lemma_removal_is_exact(name@, at);
            assert((Move::TimedOut { name: name@, at }).leads(before, state@));
        }
        Some(HandoffOutcome::TimedOut)
    } else {
        None
    }
}

/// How far a conversation still is from its end.
pub open spec fn distance(phase: PhaseView) -> nat {
    match phase {
        PhaseView::Opening => 8,
        PhaseView::Hello => 7,
        PhaseView::Welcome { .. } => 6,
        PhaseView::Verb { .. } => 5,
        PhaseView::Committing { .. } => 4,
        PhaseView::Enlisting { .. } => 4,
        PhaseView::Parked { .. } => 3,
        PhaseView::Delivering { .. } => 2,
        PhaseView::Ending => 1,
        PhaseView::Closed => 0,
    }
}

/// Whoever is authenticated in `phase`.
pub open spec fn identity(phase: PhaseView) -> Option<Seq<char>> {
    match phase {
        PhaseView::Welcome { name } => Some(name),
        PhaseView::Verb { name } => Some(name),
        PhaseView::Enlisting { name, .. } => Some(name),
        PhaseView::Parked { name, .. } => Some(name),
        PhaseView::Delivering { name, .. } => Some(name),
        _ => None,
    }
}

/// Where a conversation that began at `opened` stands after `events`, each with the
/// time it came at.
pub open spec fn turn_after(
    setting: Setting,
    opened: Timestamp,
    events: Seq<(Timestamp, EventView)>,
) -> (PhaseView, ActionView)
    decreases events.len(),
{
    if events.len() == 0 {
        opening(setting.peer, opened)
    } else {
        next(
            setting,
            events.last().0,
            turn_after(setting, opened, events.drop_last()).0,
            events.last().1,
        )
    }
}

/// Whether among `events` is a hello line with the roster's token for `name`.
pub open spec fn authenticated(
    setting: Setting,
    events: Seq<(Timestamp, EventView)>,
    name: Seq<char>,
) -> bool {
    &&& setting.agents.contains_key(name)
    &&& exists|k: int|
        0 <= k < events.len() && (#[trigger] events[k]).1 == EventView::Heard(
            HeardView::Line(ClientLineView::Hello { name, token: setting.agents[name] }),
        )
}

/// Every turn brings the end closer, and the end is final.
pub proof fn lemma_conversation_ends(
    setting: Setting,
    now: Timestamp,
    phase: PhaseView,
    event: EventView,
)
    ensures
        distance(next(setting, now, phase, event).0) < distance(phase) || phase
            == PhaseView::Closed,
        phase == PhaseView::Closed ==> next(setting, now, phase, event) == closed(),
        next(setting, now, phase, event).1 == ActionView::Close <==> next(
            setting,
            now,
            phase,
            event,
        ).0 == PhaseView::Closed,
{
}

proof fn lemma_distance_falls(
    setting: Setting,
    opened: Timestamp,
    events: Seq<(Timestamp, EventView)>,
    m: int,
    n: int,
)
    requires
        0 <= m < n <= events.len(),
    ensures
        ({
            let earlier = turn_after(setting, opened, events.take(m)).0;
            let later = turn_after(setting, opened, events.take(n)).0;
            distance(later) < distance(earlier) || later == PhaseView::Closed
        }),
    decreases n - m,
{
    let before = turn_after(setting, opened, events.take(n - 1)).0;
    let last = events[n - 1];
    assert(events.take(n).drop_last() =~= events.take(n - 1));
    assert(events.take(n).last() == last);
    lemma_conversation_ends(setting, last.0, before, last.1);
    if m < n - 1 {
        lemma_distance_falls(setting, opened, events, m, n - 1);
    }
}

/// After eight events, whatever they were, the connection is closed.
pub proof fn lemma_conversation_is_short(setting: Setting, opened: Timestamp, events: Seq<(Timestamp, EventView)>)
    ensures
        events.len() >= 8 ==> turn_after(setting, opened, events).0 == PhaseView::Closed,
        distance(turn_after(setting, opened, events).0) + events.len() <= 8 || turn_after(
            setting,
            opened,
            events,
        ).0 == PhaseView::Closed,
    decreases events.len(),
{
    if events.len() > 0 {
        lemma_conversation_is_short(setting, opened, events.drop_last());
        lemma_conversation_ends(
            setting,
            events.last().0,
            turn_after(setting, opened, events.drop_last()).0,
            events.last().1,
        );
    }
}

/// A connection runs at most one verb: once an envelope was committed or an await
/// registered, neither happens again.
pub proof fn lemma_one_verb_per_connection(
    setting: Setting,
    opened: Timestamp,
    events: Seq<(Timestamp, EventView)>,
    m: int,
    n: int,
)
    requires
        0 <= m < n <= events.len(),
        ({
            let earlier = turn_after(setting, opened, events.take(m)).1;
            earlier is Commit || earlier is Enlist
        }),
    ensures
        ({
            let later = turn_after(setting, opened, events.take(n)).1;
            !(later is Commit) && !(later is Enlist)
        }),
{
    lemma_verb_turns(setting, opened, events.take(m));
    lemma_verb_turns(setting, opened, events.take(n));
    lemma_distance_falls(setting, opened, events, m, n);
}

proof fn lemma_verb_turns(setting: Setting, opened: Timestamp, events: Seq<(Timestamp, EventView)>)
    ensures
        ({
            let (phase, action) = turn_after(setting, opened, events);
            &&& action is Commit <==> phase is Committing
            &&& action is Enlist <==> phase is Enlisting
            &&& action is Deliver <==> phase is Delivering
        }),
{
}

/// An await consumes at most one envelope: a connection is never sent a second.
pub proof fn lemma_one_delivery_per_connection(
    setting: Setting,
    opened: Timestamp,
    events: Seq<(Timestamp, EventView)>,
    m: int,
    n: int,
)
    requires
        0 <= m < n <= events.len(),
        turn_after(setting, opened, events.take(m)).1 is Deliver,
    ensures
        !(turn_after(setting, opened, events.take(n)).1 is Deliver),
{
    lemma_verb_turns(setting, opened, events.take(m));
    lemma_verb_turns(setting, opened, events.take(n));
    lemma_distance_falls(setting, opened, events, m, n);
}

proof fn lemma_identity_is_proved(setting: Setting, opened: Timestamp, events: Seq<(Timestamp, EventView)>)
    ensures
        identity(turn_after(setting, opened, events).0) matches Some(name) ==> authenticated(
            setting,
            events,
            name,
        ),
    decreases events.len(),
{
    if events.len() > 0 {
        let init = events.drop_last();
        let before = turn_after(setting, opened, init).0;
        let after = turn_after(setting, opened, events).0;
        lemma_identity_is_proved(setting, opened, init);
        if let Some(name) = identity(after) {
            if before is Hello {
                assert(events[events.len() - 1].1 == EventView::Heard(
                    HeardView::Line(ClientLineView::Hello { name, token: setting.agents[name] }),
                ));
            } else {
                assert(identity(before) == Some(name));
                let k = choose|k: int|
                    0 <= k < init.len() && (#[trigger] init[k]).1 == EventView::Heard(
                        HeardView::Line(
                            ClientLineView::Hello { name, token: setting.agents[name] },
                        ),
                    );
                assert(events[k] == init[k]);
            }
        }
    }
}

/// No one speaks or listens as anyone they did not authenticate as: the sender of a
/// committed envelope, and the name whose envelopes an await takes, have shown the
/// roster's token for that name on this connection.
pub proof fn lemma_identity_is_no_claim(setting: Setting, opened: Timestamp, events: Seq<(Timestamp, EventView)>)
    ensures
        match turn_after(setting, opened, events).1 {
            ActionView::Commit(envelope) => authenticated(setting, events, envelope.from),
            ActionView::Enlist { name, .. } => authenticated(setting, events, name),
            _ => true,
        },
{
    lemma_identity_is_proved(setting, opened, events);
    if events.len() > 0 {
        let init = events.drop_last();
        lemma_identity_is_proved(setting, opened, init);
        if let ActionView::Commit(envelope) = turn_after(setting, opened, events).1 {
            assert(identity(turn_after(setting, opened, init).0) == Some(envelope.from));
            let name = envelope.from;
            let k = choose|k: int|
                0 <= k < init.len() && (#[trigger] init[k]).1 == EventView::Heard(
                    HeardView::Line(ClientLineView::Hello { name, token: setting.agents[name] }),
                );
            assert(events[k] == init[k]);
        }
    }
}

/// The hub changes nothing of an envelope but its sender, which becomes the
/// authenticated name. Any destination and any kind will do, as long as validation
/// has nothing against them.
pub proof fn lemma_only_the_sender_is_stamped(
    setting: Setting,
    now: Timestamp,
    name: Seq<char>,
    envelope: EnvelopeView,
)
    requires
        envelope.defect() is None,
    ensures
        ({
            let turn = next(
                setting,
                now,
                PhaseView::Verb { name },
                EventView::Heard(HeardView::Line(ClientLineView::Send(envelope))),
            );
            &&& turn.1 matches ActionView::Commit(sent)
            &&& sent.from == name
            &&& sent.id == envelope.id
            &&& sent.to == envelope.to
            &&& sent.ts == envelope.ts
            &&& sent.kind == envelope.kind
            &&& sent.correlation_id == envelope.correlation_id
            &&& sent.body == envelope.body
        }),
{
}

/// The sender a client writes into its envelope makes no difference.
pub proof fn lemma_claimed_sender_is_ignored(
    setting: Setting,
    now: Timestamp,
    name: Seq<char>,
    envelope: EnvelopeView,
    claim: Seq<char>,
)
    ensures
        next(
            setting,
            now,
            PhaseView::Verb { name },
            EventView::Heard(HeardView::Line(ClientLineView::Send(envelope))),
        ) == next(
            setting,
            now,
            PhaseView::Verb { name },
            EventView::Heard(HeardView::Line(ClientLineView::Send(envelope.stamped(claim)))),
        ),
{
    let other = envelope.stamped(claim);
    assert(other.stamped(name) == envelope.stamped(name));
    assert(other.defect() == envelope.defect());
}

/// A wrong token leaves no trace: whatever it was, the reply and the audit record
/// are the same.
pub proof fn lemma_tokens_leave_no_trace(
    setting: Setting,
    now: Timestamp,
    name: Seq<char>,
    token: Seq<char>,
    other: Seq<char>,
)
    requires
        auth_failure(setting.agents, name, token) is Some,
        auth_failure(setting.agents, name, other) is Some,
    ensures
        after_hello(setting, now, HeardView::Line(ClientLineView::Hello { name, token }))
            == after_hello(
            setting,
            now,
            HeardView::Line(ClientLineView::Hello { name, token: other }),
        ),
{
}

/// After an error line, a timeout line or an acceptance the conversation is over:
/// whatever happens next, the connection closes.
pub proof fn lemma_final_lines_are_final(
    setting: Setting,
    now: Timestamp,
    phase: PhaseView,
    event: EventView,
    later: Timestamp,
    then_event: EventView,
)
    requires
        match next(setting, now, phase, event).1 {
            ActionView::Write(line) => line !is Okay,
            ActionView::Refuse { .. } => true,
            _ => false,
        },
    ensures
        next(setting, later, next(setting, now, phase, event).0, then_event) == closed(),
{
}

/// What is delivered is the envelope that routing gave, whole. If no byte of it goes
/// out, the same envelope goes back to routing; if all of it does, its delivery is
/// recorded under its id; only a partial write loses it.
pub proof fn lemma_delivery_is_faithful(
    setting: Setting,
    now: Timestamp,
    name: Seq<char>,
    timeout_secs: Option<u64>,
    envelope: EnvelopeView,
    from_queue: bool,
)
    ensures
        ({
            let turn = if from_queue {
                next(
                    setting,
                    now,
                    PhaseView::Enlisting { name, timeout_secs },
                    EventView::Taken(envelope),
                )
            } else {
                next(
                    setting,
                    now,
                    PhaseView::Parked { name, timeout_secs },
                    EventView::Handoff(HandoffOutcomeView::Delivered(envelope)),
                )
            };
            &&& turn.1 == ActionView::Deliver(ServerLineView::Envelope(envelope))
            &&& next(setting, now, turn.0, EventView::WriteFailed { accepted: 0 }).1
                == ActionView::Return(envelope)
            &&& next(setting, now, turn.0, EventView::Unsendable).1 == ActionView::Return(envelope)
            &&& next(setting, now, turn.0, EventView::Written).1 == ActionView::Record(
                AuditEventView::Delivery {
                    ts: now,
                    id: envelope.id,
                    to: name,
                    peer: setting.peer,
                },
            )
            &&& forall|accepted: usize|
                accepted > 0 ==> #[trigger] next(
                    setting,
                    now,
                    turn.0,
                    EventView::WriteFailed { accepted },
                ) == closed()
        }),
{
}

/// An acceptance names the envelope that was committed, and none is sent for an
/// envelope that was not.
pub proof fn lemma_acceptance_is_earned(
    setting: Setting,
    now: Timestamp,
    name: Seq<char>,
    envelope: EnvelopeView,
    committed: Result<(), Seq<char>>,
)
    requires
        envelope.defect() is None,
    ensures
        ({
            let sent = after_send(name, envelope, envelope.defect());
            let reply = next(setting, now, sent.0, EventView::Committed(committed)).1;
            match committed {
                Ok(_) => reply == ActionView::Write(ServerLineView::Accepted { id: envelope.id }),
                Err(cause) => reply == ActionView::Write(
                    ServerLineView::Error { message: "envelope not accepted: "@ + cause },
                ),
            }
        }),
{
}

/// A connection that was sent an error has had nothing accepted: an envelope that
/// it committed, if it got that far, was refused.
pub proof fn lemma_refused_means_not_accepted(
    setting: Setting,
    opened: Timestamp,
    events: Seq<(Timestamp, EventView)>,
    m: int,
    n: int,
)
    requires
        0 <= m < n <= events.len(),
        turn_after(setting, opened, events.take(m)).1 is Commit,
        match turn_after(setting, opened, events.take(n)).1 {
            ActionView::Write(line) => line is Error,
            ActionView::Refuse { .. } => true,
            _ => false,
        },
    ensures
        events[m].1 matches EventView::Committed(Err(_)),
{
    lemma_verb_turns(setting, opened, events.take(m));
    assert(events.take(m + 1).drop_last() =~= events.take(m));
    assert(events.take(m + 1).last() == events[m]);
    if m + 1 < n {
        lemma_distance_falls(setting, opened, events, m + 1, n);
        assert(turn_after(setting, opened, events.take(n)).0 == PhaseView::Closed);
        lemma_closed_turns(setting, opened, events.take(n));
    }
}

proof fn lemma_closed_turns(setting: Setting, opened: Timestamp, events: Seq<(Timestamp, EventView)>)
    ensures
        turn_after(setting, opened, events).0 == PhaseView::Closed ==> turn_after(setting, opened, events).1
            == ActionView::Close,
{
}

/// A connection that was sent the timeout line was never sent an envelope.
pub proof fn lemma_timeout_means_no_delivery(
    setting: Setting,
    opened: Timestamp,
    events: Seq<(Timestamp, EventView)>,
    m: int,
    n: int,
)
    requires
        0 <= m <= n <= events.len(),
        turn_after(setting, opened, events.take(n)).1 == ActionView::Write(ServerLineView::Timeout {  }),
    ensures
        !(turn_after(setting, opened, events.take(m)).1 is Deliver),
{
    if m < n {
        lemma_verb_turns(setting, opened, events.take(m));
        assert(events.take(n).drop_last() =~= events.take(n - 1));
        assert(turn_after(setting, opened, events.take(n - 1)).0 is Parked);
        if m < n - 1 {
            lemma_distance_falls(setting, opened, events, m, n - 1);
        }
    }
}

/// A connection is recorded first of all, and only once.
pub proof fn lemma_connection_is_recorded_first(
    setting: Setting,
    opened: Timestamp,
    events: Seq<(Timestamp, EventView)>,
)
    ensures
        match turn_after(setting, opened, events).1 {
            ActionView::Record(AuditEventView::Connection { ts, peer }) => {
                &&& events.len() == 0
                &&& ts == opened
                &&& peer == setting.peer
            },
            _ => events.len() > 0,
        },
{
}

/// Whether among `events` is an await line with a timeout.
pub open spec fn asked_for_timeout(events: Seq<(Timestamp, EventView)>) -> bool {
    exists|k: int|
        0 <= k < events.len() && is_timed_await((#[trigger] events[k]).1)
}

/// Whether the event is an await line with a timeout.
pub open spec fn is_timed_await(event: EventView) -> bool {
    match event {
        EventView::Heard(
            HeardView::Line(ClientLineView::Await { timeout_secs: Some(_), .. }),
        ) => true,
        _ => false,
    }
}

/// The timeout that the phase carries.
pub open spec fn pending_timeout(phase: PhaseView) -> Option<u64> {
    match phase {
        PhaseView::Enlisting { timeout_secs, .. } => timeout_secs,
        PhaseView::Parked { timeout_secs, .. } => timeout_secs,
        _ => None,
    }
}

proof fn lemma_timeouts_are_asked_for(
    setting: Setting,
    opened: Timestamp,
    events: Seq<(Timestamp, EventView)>,
)
    ensures
        pending_timeout(turn_after(setting, opened, events).0) is Some ==> asked_for_timeout(events),
    decreases events.len(),
{
    if events.len() > 0 {
        let init = events.drop_last();
        let before = turn_after(setting, opened, init).0;
        lemma_timeouts_are_asked_for(setting, opened, init);
        if pending_timeout(turn_after(setting, opened, events).0) is Some {
            if before is Verb {
                assert(is_timed_await(events[events.len() - 1].1));
            } else {
                assert(pending_timeout(before) is Some);
                let k = choose|k: int| 0 <= k < init.len() && is_timed_await((#[trigger] init[k]).1);
                assert(events[k] == init[k]);
            }
        }
    }
}

/// An await without a timeout waits for as long as it takes: neither is a wait
/// bounded nor a timeout line sent unless an await line asked for a timeout.
pub proof fn lemma_no_timeout_unless_asked_for(
    setting: Setting,
    opened: Timestamp,
    events: Seq<(Timestamp, EventView)>,
)
    ensures
        match turn_after(setting, opened, events).1 {
            ActionView::Wait { timeout_secs: Some(_) } => asked_for_timeout(events),
            ActionView::Write(ServerLineView::Timeout {  }) => asked_for_timeout(events),
            _ => true,
        },
{
    lemma_timeouts_are_asked_for(setting, opened, events);
    if events.len() > 0 {
        let init = events.drop_last();
        lemma_timeouts_are_asked_for(setting, opened, init);
        if turn_after(setting, opened, events).1 == ActionView::Write(
            ServerLineView::Timeout {  },
        ) {
            assert(pending_timeout(turn_after(setting, opened, init).0) is Some);
            let k = choose|k: int| 0 <= k < init.len() && is_timed_await((#[trigger] init[k]).1);
            assert(events[k] == init[k]);
        }
    }
}

/// Who gets past the hello line: exactly those who present the token that the roster
/// has for their name. Anyone else is recorded with the name they gave and the reason,
/// told the reason, and shut out.
pub proof fn lemma_hello_is_decided_by_the_roster(
    setting: Setting,
    now: Timestamp,
    name: Seq<char>,
    token: Seq<char>,
)
    ensures
        ({
            let turn = next(
                setting,
                now,
                PhaseView::Hello,
                EventView::Heard(HeardView::Line(ClientLineView::Hello { name, token })),
            );
            &&& setting.agents.contains_key(name) && setting.agents[name] == token ==> turn == (
                PhaseView::Welcome { name },
                ActionView::Write(ServerLineView::Okay {  }),
            )
            &&& !setting.agents.contains_key(name) ==> turn == (
                PhaseView::Ending,
                ActionView::Refuse {
                    record: AuditEventView::AuthFailure {
                        ts: now,
                        peer: setting.peer,
                        name,
                        reason: AuthFailureReason::UnknownName,
                    },
                    line: ServerLineView::Error {
                        message: "authentication failed for "@ + debug_text(name) + ": "@
                            + "unknown agent name"@,
                    },
                },
            )
            &&& setting.agents.contains_key(name) && setting.agents[name] != token ==> turn == (
                PhaseView::Ending,
                ActionView::Refuse {
                    record: AuditEventView::AuthFailure {
                        ts: now,
                        peer: setting.peer,
                        name,
                        reason: AuthFailureReason::TokenMismatch,
                    },
                    line: ServerLineView::Error {
                        message: "authentication failed for "@ + debug_text(name) + ": "@
                            + "token mismatch"@,
                    },
                },
            )
        }),
{
}

/// What a welcomed peer may do next is one verb. The peer's name stays what it
/// authenticated as.
pub proof fn lemma_welcome_leads_to_one_verb(setting: Setting, now: Timestamp, name: Seq<char>)
    ensures
        next(setting, now, PhaseView::Opening, EventView::Done) == (
            PhaseView::Hello,
            ActionView::Read,
        ),
        next(setting, now, PhaseView::Welcome { name }, EventView::Written) == (
            PhaseView::Verb { name },
            ActionView::Read,
        ),
{
}

/// Whatever is heard in place of a hello line or a verb line is answered with one
/// error line that says what is wrong, and the conversation ends. A peer that just
/// closes is not answered.
pub proof fn lemma_wrong_lines_are_answered(
    setting: Setting,
    now: Timestamp,
    name: Seq<char>,
    unreadable: ReadLineErrorView,
    malformed: WireErrorView,
    line: ClientLineView,
)
    ensures
        ({
            let hello = PhaseView::Hello;
            let verb = PhaseView::Verb { name };
            let nothing = EventView::Heard(HeardView::Nothing);
            let unread = EventView::Heard(HeardView::Unreadable(unreadable));
            let unparsed = EventView::Heard(HeardView::Malformed(malformed));
            let heard = EventView::Heard(HeardView::Line(line));
            &&& next(setting, now, hello, nothing) == (PhaseView::Closed, ActionView::Close)
            &&& next(setting, now, verb, nothing) == (PhaseView::Closed, ActionView::Close)
            &&& next(setting, now, hello, unread) == (
                PhaseView::Ending,
                ActionView::Write(
                    ServerLineView::Error { message: "invalid hello line: "@ + unreadable.text() },
                ),
            )
            &&& next(setting, now, verb, unread) == (
                PhaseView::Ending,
                ActionView::Write(
                    ServerLineView::Error { message: "invalid verb line: "@ + unreadable.text() },
                ),
            )
            &&& next(setting, now, hello, unparsed) == (
                PhaseView::Ending,
                ActionView::Write(ServerLineView::Error { message: malformed.text() }),
            )
            &&& next(setting, now, verb, unparsed) == (
                PhaseView::Ending,
                ActionView::Write(ServerLineView::Error { message: malformed.text() }),
            )
            &&& line !is Hello ==> next(setting, now, hello, heard) == (
                PhaseView::Ending,
                ActionView::Write(ServerLineView::Error { message: "first line must be hello"@ }),
            )
            &&& line is Hello ==> next(setting, now, verb, heard) == (
                PhaseView::Ending,
                ActionView::Write(
                    ServerLineView::Error {
                        message: "duplicate hello: connection is already authenticated"@,
                    },
                ),
            )
        }),
{
}

/// A send line is committed exactly if its id, destination and kind are not empty, its
/// timestamp is one, and its correlation id, if it has one, is not empty. Otherwise it
/// is answered with one error line, and nothing is committed.
pub proof fn lemma_valid_envelopes_are_committed(
    setting: Setting,
    now: Timestamp,
    name: Seq<char>,
    envelope: EnvelopeView,
)
    ensures
        ({
            let turn = next(
                setting,
                now,
                PhaseView::Verb { name },
                EventView::Heard(HeardView::Line(ClientLineView::Send(envelope))),
            );
            if envelope.id.len() > 0 && envelope.to.len() > 0 && envelope.kind.len() > 0
                && rfc3339_refusal(envelope.ts) is None && envelope.correlation_id != Some(
                Seq::<char>::empty(),
            ) {
                turn == (
                    PhaseView::Committing { id: envelope.id },
                    ActionView::Commit(EnvelopeView { from: name, ..envelope }),
                )
            } else {
                &&& envelope.defect() is Some
                &&& turn == (
                    PhaseView::Ending,
                    ActionView::Write(
                        ServerLineView::Error {
                            message: "invalid envelope: "@ + envelope.defect()->0.text(),
                        },
                    ),
                )
            }
        }),
{
}

/// An await line becomes an await of the peer's own name with exactly the conditions
/// of the line, and if nothing is queued the wait is bounded by exactly the timeout of
/// the line. Only an empty condition is refused.
pub proof fn lemma_await_is_what_was_asked_for(
    setting: Setting,
    now: Timestamp,
    later: Timestamp,
    name: Seq<char>,
    reply_to: Option<Seq<char>>,
    kind: Option<Seq<char>>,
    timeout_secs: Option<u64>,
)
    ensures
        ({
            let turn = next(
                setting,
                now,
                PhaseView::Verb { name },
                EventView::Heard(
                    HeardView::Line(ClientLineView::Await { reply_to, kind, timeout_secs }),
                ),
            );
            if reply_to is Some && reply_to->0.len() == 0 {
                turn == (
                    PhaseView::Ending,
                    ActionView::Write(
                        ServerLineView::Error {
                            message:
                                "invalid await: replyTo is empty; omit it or use an envelope id"@,
                        },
                    ),
                )
            } else if kind is Some && kind->0.len() == 0 {
                turn == (
                    PhaseView::Ending,
                    ActionView::Write(
                        ServerLineView::Error {
                            message: "invalid await: kind is empty; omit it or use an envelope kind"@,
                        },
                    ),
                )
            } else {
                &&& turn.1 matches ActionView::Enlist { name: whose, filter }
                &&& whose == name
                &&& filter.reply_to == reply_to
                &&& filter.kind == kind
                &&& next(setting, later, turn.0, EventView::Parked).1 == ActionView::Wait {
                    timeout_secs,
                }
            }
        }),
{
    assert(reply_to is Some && reply_to->0.len() == 0 ==> reply_to->0 =~= Seq::<char>::empty());
    assert(kind is Some && kind->0.len() == 0 ==> kind->0 =~= Seq::<char>::empty());
}

/// How a wait ends: with the envelope that came, with the timeout line if there was a
/// timeout to elapse, or with an error if the channel was lost.
pub proof fn lemma_waits_end_as_they_should(
    setting: Setting,
    now: Timestamp,
    name: Seq<char>,
    timeout_secs: Option<u64>,
    envelope: EnvelopeView,
)
    ensures
        ({
            let parked = PhaseView::Parked { name, timeout_secs };
            &&& next(setting, now, PhaseView::Enlisting { name, timeout_secs }, EventView::Parked)
                == (parked, ActionView::Wait { timeout_secs })
            &&& next(
                setting,
                now,
                parked,
                EventView::Handoff(HandoffOutcomeView::Delivered(envelope)),
            ) == (
                PhaseView::Delivering { name, envelope },
                ActionView::Deliver(ServerLineView::Envelope(envelope)),
            )
            &&& next(
                setting,
                now,
                PhaseView::Enlisting { name, timeout_secs },
                EventView::Taken(envelope),
            ) == (
                PhaseView::Delivering { name, envelope },
                ActionView::Deliver(ServerLineView::Envelope(envelope)),
            )
            &&& timeout_secs is Some ==> next(
                setting,
                now,
                parked,
                EventView::Handoff(HandoffOutcomeView::TimedOut),
            ) == (PhaseView::Ending, ActionView::Write(ServerLineView::Timeout {  }))
            &&& next(setting, now, parked, EventView::Handoff(HandoffOutcomeView::ChannelLost)) == (
                PhaseView::Ending,
                ActionView::Write(
                    ServerLineView::Error { message: "internal error: await handoff lost"@ },
                ),
            )
        }),
{
}

/// An event that does not answer what was being done closes the connection: no line
/// goes out, and nothing is committed, registered or returned.
pub proof fn lemma_other_events_close(
    setting: Setting,
    now: Timestamp,
    phase: PhaseView,
    event: EventView,
)
    requires
        match phase {
            PhaseView::Opening => event !is Done,
            PhaseView::Hello => event !is Heard,
            PhaseView::Welcome { .. } => event !is Written,
            PhaseView::Verb { .. } => event !is Heard,
            PhaseView::Committing { .. } => event !is Committed,
            PhaseView::Enlisting { .. } => event !is Taken && event !is Parked,
            PhaseView::Parked { timeout_secs, .. } => event !is Handoff || timeout_secs is None
                && event == EventView::Handoff(HandoffOutcomeView::TimedOut),
            PhaseView::Delivering { .. } => event !is Written && event !is WriteFailed
                && event !is Unsendable,
            PhaseView::Ending => true,
            PhaseView::Closed => true,
        },
    ensures
        next(setting, now, phase, event) == (PhaseView::Closed, ActionView::Close),
{
}

/// Over a whole conversation: what is committed is the envelope of the send line just
/// heard, but for its sender; what is accepted is what was committed, and only after
/// the commit succeeded.
pub proof fn lemma_commits_are_heard(
    setting: Setting,
    opened: Timestamp,
    events: Seq<(Timestamp, EventView)>,
)
    ensures
        match turn_after(setting, opened, events).1 {
            ActionView::Commit(sent) => {
                &&& events.len() > 0
                &&& events.last().1 matches EventView::Heard(
                    HeardView::Line(ClientLineView::Send(envelope)),
                )
                &&& sent.id == envelope.id
                &&& sent.to == envelope.to
                &&& sent.ts == envelope.ts
                &&& sent.kind == envelope.kind
                &&& sent.correlation_id == envelope.correlation_id
                &&& sent.body == envelope.body
            },
            ActionView::Write(ServerLineView::Accepted { id }) => {
                &&& events.len() > 0
                &&& events.last().1 matches EventView::Committed(Ok(_))
                &&& turn_after(setting, opened, events.drop_last()).1 matches ActionView::Commit(
                    sent,
                )
                &&& sent.id == id
            },
            _ => true,
        },
{
    if events.len() > 0 {
        let init = events.drop_last();
        lemma_verb_turns(setting, opened, init);
        if init.len() > 0 {
            lemma_committing_id(setting, opened, init);
        }
    }
}

proof fn lemma_committing_id(
    setting: Setting,
    opened: Timestamp,
    events: Seq<(Timestamp, EventView)>,
)
    ensures
        turn_after(setting, opened, events).0 matches PhaseView::Committing { id } ==> (turn_after(
            setting,
            opened,
            events,
        ).1 matches ActionView::Commit(sent) && sent.id == id),
{
}

/// Over a whole conversation: what is delivered is what was just taken from the queue
/// or handed over; what is recorded as delivered, or returned, is what was being
/// delivered, recorded after the write went through and returned after it did not
/// begin.
pub proof fn lemma_deliveries_are_accounted_for(
    setting: Setting,
    opened: Timestamp,
    events: Seq<(Timestamp, EventView)>,
)
    ensures
        match turn_after(setting, opened, events).1 {
            ActionView::Deliver(line) => {
                &&& events.len() > 0
                &&& line matches ServerLineView::Envelope(envelope)
                &&& events.last().1 == EventView::Taken(envelope) || events.last().1
                    == EventView::Handoff(HandoffOutcomeView::Delivered(envelope))
            },
            ActionView::Record(AuditEventView::Delivery { ts, id, to: _, peer }) => {
                &&& events.len() > 0
                &&& events.last() == (ts, EventView::Written)
                &&& peer == setting.peer
                &&& turn_after(setting, opened, events.drop_last()).1 matches ActionView::Deliver(
                    ServerLineView::Envelope(envelope),
                )
                &&& id == envelope.id
            },
            ActionView::Return(envelope) => {
                &&& events.len() > 0
                &&& events.last().1 == (EventView::WriteFailed { accepted: 0 })
                    || events.last().1 == EventView::Unsendable
                &&& turn_after(setting, opened, events.drop_last()).1 == ActionView::Deliver(
                    ServerLineView::Envelope(envelope),
                )
            },
            _ => true,
        },
{
    if events.len() > 0 {
        lemma_delivering_envelope(setting, opened, events.drop_last());
    }
}

proof fn lemma_delivering_envelope(
    setting: Setting,
    opened: Timestamp,
    events: Seq<(Timestamp, EventView)>,
)
    ensures
        turn_after(setting, opened, events).0 matches PhaseView::Delivering { envelope, .. }
            ==> turn_after(setting, opened, events).1 == ActionView::Deliver(
            ServerLineView::Envelope(envelope),
        ),
{
}

/// Before its verb line a conversation has heard no await line.
proof fn lemma_no_await_before_the_verb(
    setting: Setting,
    opened: Timestamp,
    events: Seq<(Timestamp, EventView)>,
    j: int,
)
    requires
        0 <= j < events.len(),
        events[j].1 matches EventView::Heard(HeardView::Line(line)) && line is Await,
    ensures
        ({
            let phase = turn_after(setting, opened, events).0;
            phase !is Opening && phase !is Hello && phase !is Welcome && phase !is Verb
        }),
    decreases events.len(),
{
    let init = events.drop_last();
    if j < init.len() {
        assert(init[j] == events[j]);
        lemma_no_await_before_the_verb(setting, opened, init, j);
    }
}

/// A conversation that waits or delivers registered the await line it heard.
proof fn lemma_await_is_remembered(
    setting: Setting,
    opened: Timestamp,
    events: Seq<(Timestamp, EventView)>,
    j: int,
    reply_to: Option<Seq<char>>,
    kind: Option<Seq<char>>,
    timeout_secs: Option<u64>,
)
    requires
        0 <= j < events.len(),
        events[j].1 == EventView::Heard(
            HeardView::Line(ClientLineView::Await { reply_to, kind, timeout_secs }),
        ),
    ensures
        ({
            let phase = turn_after(setting, opened, events).0;
            &&& phase is Enlisting || phase is Parked || phase is Delivering ==> (turn_after(
                setting,
                opened,
                events.take(j + 1),
            ).1 matches ActionView::Enlist { filter, .. } && filter.reply_to == reply_to
                && filter.kind == kind)
            &&& phase matches PhaseView::Enlisting { timeout_secs: t, .. } ==> t == timeout_secs
            &&& phase matches PhaseView::Parked { timeout_secs: t, .. } ==> t == timeout_secs
        }),
    decreases events.len(),
{
    let init = events.drop_last();
    if j < init.len() {
        assert(init[j] == events[j]);
        assert(init.take(j + 1) =~= events.take(j + 1));
        lemma_await_is_remembered(setting, opened, init, j, reply_to, kind, timeout_secs);
        lemma_no_await_before_the_verb(setting, opened, init, j);
    } else {
        assert(events.take(j + 1) =~= events);
        let before = turn_after(setting, opened, init).0;
        let last = events.last();
        if let PhaseView::Verb { name } = before {
            lemma_await_is_what_was_asked_for(
                setting,
                last.0,
                last.0,
                name,
                reply_to,
                kind,
                timeout_secs,
            );
        }
    }
}

/// An await line gets what it asked for, from end to end. As long as routing takes and
/// hands over only envelopes that pass the filter it was given, every envelope that the
/// connection is sent has the correlation id and the kind that its await line gave,
/// and every wait is bounded by the timeout that the line gave.
pub proof fn lemma_awaited_envelopes_match_the_line(
    setting: Setting,
    opened: Timestamp,
    events: Seq<(Timestamp, EventView)>,
    j: int,
    reply_to: Option<Seq<char>>,
    kind: Option<Seq<char>>,
    timeout_secs: Option<u64>,
)
    requires
        0 <= j < events.len(),
        events[j].1 == EventView::Heard(
            HeardView::Line(ClientLineView::Await { reply_to, kind, timeout_secs }),
        ),
        turn_after(setting, opened, events.take(j + 1)).1 matches ActionView::Enlist { filter, .. }
            ==> forall|k: int|
            j < k < events.len() ==> match (#[trigger] events[k]).1 {
                EventView::Taken(envelope) => filter.passes(envelope),
                EventView::Handoff(HandoffOutcomeView::Delivered(envelope)) => filter.passes(
                    envelope,
                ),
                _ => true,
            },
    ensures
        match turn_after(setting, opened, events).1 {
            ActionView::Deliver(ServerLineView::Envelope(envelope)) => {
                &&& reply_to is Some ==> envelope.correlation_id == reply_to
                &&& kind is Some ==> envelope.kind == kind->0
            },
            ActionView::Deliver(_) => false,
            ActionView::Wait { timeout_secs: bound } => bound == timeout_secs,
            _ => true,
        },
{
    lemma_await_is_remembered(setting, opened, events, j, reply_to, kind, timeout_secs);
    lemma_verb_turns(setting, opened, events);
    lemma_deliveries_are_accounted_for(setting, opened, events);
    if let ActionView::Deliver(ServerLineView::Envelope(envelope)) = turn_after(
        setting,
        opened,
        events,
    ).1 {
        let last = events.len() - 1;
        assert(events[last] == events.last());
        assert(j < last);
    }
}

/// The contents of what happens to a conversation leave nothing out.
pub proof fn lemma_contents_of_events(
    heard: Heard,
    outcome: HandoffOutcome,
    envelope: Envelope,
    cause: String,
    accepted: usize,
)
    ensures
        match heard {
            Heard::Nothing => heard@ == HeardView::Nothing,
            Heard::Unreadable(error) => heard@ == HeardView::Unreadable(error@),
            Heard::Malformed(error) => heard@ == HeardView::Malformed(error@),
            Heard::Line(line) => heard@ == HeardView::Line(line@),
        },
        match outcome {
            HandoffOutcome::Delivered(e) => outcome@ == HandoffOutcomeView::Delivered(e@),
            HandoffOutcome::TimedOut => outcome@ == HandoffOutcomeView::TimedOut,
            HandoffOutcome::ChannelLost => outcome@ == HandoffOutcomeView::ChannelLost,
        },
        Event::Heard(heard)@ == EventView::Heard(heard@),
        Event::Written@ == EventView::Written,
        (Event::WriteFailed { accepted })@ == (EventView::WriteFailed { accepted }),
        Event::Unsendable@ == EventView::Unsendable,
        Event::Committed(Ok(()))@ matches EventView::Committed(Ok(_)),
        Event::Committed(Err(cause))@ == EventView::Committed(Err(cause@)),
        Event::Taken(envelope)@ == EventView::Taken(envelope@),
        Event::Parked@ == EventView::Parked,
        Event::Handoff(outcome)@ == EventView::Handoff(outcome@),
        Event::Done@ == EventView::Done,
{
}

/// The contents of what a conversation does leave nothing out.
pub proof fn lemma_contents_of_actions(action: Action)
    ensures
        match action {
            Action::Read => action@ == ActionView::Read,
            Action::Write(line) => action@ == ActionView::Write(line@),
            Action::Refuse { record, line } => action@ == (ActionView::Refuse {
                record: record@,
                line: line@,
            }),
            Action::Commit(submission) => action@ == ActionView::Commit(submission@),
            Action::Enlist { name, filter } => action@ == (ActionView::Enlist {
                name: name@,
                filter: filter@,
            }),
            Action::Wait { timeout_secs } => action@ == (ActionView::Wait { timeout_secs }),
            Action::Deliver(line) => action@ == ActionView::Deliver(line@),
            Action::Record(record) => action@ == ActionView::Record(record@),
            Action::Return(envelope) => action@ == ActionView::Return(envelope@),
            Action::Close => action@ == ActionView::Close,
        },
{
}

} // verus!
