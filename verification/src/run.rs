//! One run of the client, from its command line to its exit code.
//!
//! A run resolves the body it is to send, reads the token, connects, says hello,
//! issues its one verb and reports. [`begin_run`] opens it and [`run_step`] makes
//! its decisions: from where the run stands and what just happened it gives the next
//! phase and the one thing to do.

use vstd::prelude::*;
use vstd::string::*;

use crate::client::{
    await_answered, body_from_stdin, delivered, greeted, hello_line, json_value, line_in, read_body,
    read_reply, read_token, report, report_of, result_view, send_answered, unexpected, ClientError,
    ClientErrorView, Outcome, OutcomeView, Reply, ReplyView, Report, ReportView, SendRequest,
    SendRequestView,
};
use crate::envelope::{text_option, Envelope, EnvelopeView};
use crate::text::{
    decimal, decimal_text, lemma_trimmed_end, prefixed, trimmed_end, white_space,
};
use crate::wire::{ClientLine, ClientLineView, ServerLineView, WireError, WireErrorView};

verus! {

/// Who runs the client, and which hub it is to talk to.
#[derive(Debug)]
pub struct Caller {
    /// The name to authenticate as.
    pub name: String,
    /// The file that holds the token.
    pub token_file: String,
    /// The hub's port on 127.0.0.1.
    pub port: u16,
}

/// The contents of a [`Caller`].
pub struct CallerView {
    pub name: Seq<char>,
    pub token_file: Seq<char>,
    pub port: u16,
}

impl View for Caller {
    type V = CallerView;

    open spec fn view(&self) -> CallerView {
        CallerView { name: self.name@, token_file: self.token_file@, port: self.port }
    }
}

/// The verb of a run.
#[derive(Debug)]
pub enum RunVerb {
    /// Submit one envelope. `body` is JSON, or `-` for JSON from stdin.
    Send { to: String, kind: String, correlation_id: Option<String>, body: String },
    /// Wait for one envelope.
    Await { reply_to: Option<String>, kind: Option<String>, timeout_secs: Option<u64> },
}

/// The contents of a [`RunVerb`].
pub enum RunVerbView {
    Send {
        to: Seq<char>,
        kind: Seq<char>,
        correlation_id: Option<Seq<char>>,
        body: Seq<char>,
    },
    Await { reply_to: Option<Seq<char>>, kind: Option<Seq<char>>, timeout_secs: Option<u64> },
}

impl View for RunVerb {
    type V = RunVerbView;

    open spec fn view(&self) -> RunVerbView {
        match *self {
            RunVerb::Send { to, kind, correlation_id, body } => RunVerbView::Send {
                to: to@,
                kind: kind@,
                correlation_id: text_option(correlation_id),
                body: body@,
            },
            RunVerb::Await { reply_to, kind, timeout_secs } => RunVerbView::Await {
                reply_to: text_option(reply_to),
                kind: text_option(kind),
                timeout_secs,
            },
        }
    }
}

/// Where a run stands.
#[derive(Debug)]
pub enum RunPhase {
    /// The body is being read from stdin.
    ReadingBody { caller: Caller, request: SendRequest },
    /// The envelope is being assembled.
    Composing { caller: Caller },
    /// The token file is being read; `line` is the verb line.
    ReadingToken { caller: Caller, line: ClientLine },
    /// The connection is being made; `hello` goes out first, then `line`.
    Connecting { port: u16, hello: ClientLine, line: ClientLine },
    /// The hello line is on its way.
    SayingHello { line: ClientLine },
    /// The hub owes its ok line.
    AwaitingOkay { line: ClientLine },
    /// The verb line is on its way.
    Asking { sending: bool },
    /// The hub owes its answer.
    AwaitingAnswer { sending: bool },
    /// The delivered envelope is being turned into JSON.
    Printing,
    /// Nothing is left to do.
    Finished,
}

/// The contents of a [`RunPhase`].
pub enum RunPhaseView {
    ReadingBody { caller: CallerView, request: SendRequestView },
    Composing { caller: CallerView },
    ReadingToken { caller: CallerView, line: ClientLineView },
    Connecting { port: u16, hello: ClientLineView, line: ClientLineView },
    SayingHello { line: ClientLineView },
    AwaitingOkay { line: ClientLineView },
    Asking { sending: bool },
    AwaitingAnswer { sending: bool },
    Printing,
    Finished,
}

impl View for RunPhase {
    type V = RunPhaseView;

    open spec fn view(&self) -> RunPhaseView {
        match *self {
            RunPhase::ReadingBody { caller, request } => RunPhaseView::ReadingBody {
                caller: caller@,
                request: request@,
            },
            RunPhase::Composing { caller } => RunPhaseView::Composing { caller: caller@ },
            RunPhase::ReadingToken { caller, line } => RunPhaseView::ReadingToken {
                caller: caller@,
                line: line@,
            },
            RunPhase::Connecting { port, hello, line } => RunPhaseView::Connecting {
                port,
                hello: hello@,
                line: line@,
            },
            RunPhase::SayingHello { line } => RunPhaseView::SayingHello { line: line@ },
            RunPhase::AwaitingOkay { line } => RunPhaseView::AwaitingOkay { line: line@ },
            RunPhase::Asking { sending } => RunPhaseView::Asking { sending },
            RunPhase::AwaitingAnswer { sending } => RunPhaseView::AwaitingAnswer { sending },
            RunPhase::Printing => RunPhaseView::Printing,
            RunPhase::Finished => RunPhaseView::Finished,
        }
    }
}

/// What came of the last action.
#[derive(Debug)]
pub enum RunEvent {
    /// Of [`RunAction::ReadStdin`].
    Stdin(Result<String, String>),
    /// Of [`RunAction::Compose`].
    Composed(Envelope),
    /// Of [`RunAction::ReadToken`]: the file's text.
    Token(Result<String, String>),
    /// Of [`RunAction::Connect`].
    Connected(Result<(), String>),
    /// The line went out.
    Written,
    /// The line could not be serialized.
    Unsendable(WireError),
    /// The line did not go out.
    WriteFailed(String),
    /// Of [`RunAction::ReadReply`].
    Replied(Reply),
    /// Of [`RunAction::Serialize`].
    Serialized(Result<String, String>),
}

/// The contents of a [`RunEvent`].
pub enum RunEventView {
    Stdin(Result<Seq<char>, Seq<char>>),
    Composed(EnvelopeView),
    Token(Result<Seq<char>, Seq<char>>),
    Connected(Result<(), Seq<char>>),
    Written,
    Unsendable(WireErrorView),
    WriteFailed(Seq<char>),
    Replied(ReplyView),
    Serialized(Result<Seq<char>, Seq<char>>),
}

/// The contents of a text, or of the reason why there is none.
pub open spec fn text_result(text: Result<String, String>) -> Result<Seq<char>, Seq<char>> {
    match text {
        Ok(t) => Ok(t@),
        Err(source) => Err(source@),
    }
}

impl View for RunEvent {
    type V = RunEventView;

    open spec fn view(&self) -> RunEventView {
        match *self {
            RunEvent::Stdin(text) => RunEventView::Stdin(text_result(text)),
            RunEvent::Composed(envelope) => RunEventView::Composed(envelope@),
            RunEvent::Token(file) => RunEventView::Token(text_result(file)),
            RunEvent::Connected(result) => RunEventView::Connected(
                match result {
                    Ok(_) => Ok(()),
                    Err(source) => Err(source@),
                },
            ),
            RunEvent::Written => RunEventView::Written,
            RunEvent::Unsendable(error) => RunEventView::Unsendable(error@),
            RunEvent::WriteFailed(source) => RunEventView::WriteFailed(source@),
            RunEvent::Replied(reply) => RunEventView::Replied(reply@),
            RunEvent::Serialized(json) => RunEventView::Serialized(text_result(json)),
        }
    }
}

/// The one thing to do next.
#[derive(Debug)]
pub enum RunAction {
    /// Read stdin to its end.
    ReadStdin,
    /// Assemble the envelope for this request and body.
    Compose { request: SendRequest, body: serde_json::Value },
    /// Read the token file at this path.
    ReadToken { path: String },
    /// Connect to the hub at this port on 127.0.0.1.
    Connect { port: u16 },
    /// Write this line to the hub.
    Write(ClientLine),
    /// Read and parse the hub's next line.
    ReadReply,
    /// Turn this envelope into JSON.
    Serialize(Envelope),
    /// Print, and exit.
    Finish(Report),
    /// Nothing.
    Stop,
}

/// The contents of a [`RunAction`].
pub enum RunActionView {
    ReadStdin,
    Compose { request: SendRequestView, body: serde_json::Value },
    ReadToken { path: Seq<char> },
    Connect { port: u16 },
    Write(ClientLineView),
    ReadReply,
    Serialize(EnvelopeView),
    Finish(ReportView),
    Stop,
}

impl View for RunAction {
    type V = RunActionView;

    open spec fn view(&self) -> RunActionView {
        match *self {
            RunAction::ReadStdin => RunActionView::ReadStdin,
            RunAction::Compose { request, body } => RunActionView::Compose {
                request: request@,
                body,
            },
            RunAction::ReadToken { path } => RunActionView::ReadToken { path: path@ },
            RunAction::Connect { port } => RunActionView::Connect { port },
            RunAction::Write(line) => RunActionView::Write(line@),
            RunAction::ReadReply => RunActionView::ReadReply,
            RunAction::Serialize(envelope) => RunActionView::Serialize(envelope@),
            RunAction::Finish(report) => RunActionView::Finish(report@),
            RunAction::Stop => RunActionView::Stop,
        }
    }
}

/// The run is over, with this result.
pub open spec fn finished(result: Result<OutcomeView, ClientErrorView>) -> (
    RunPhaseView,
    RunActionView,
) {
    (RunPhaseView::Finished, RunActionView::Finish(report_of(result)))
}

/// The run failed.
pub open spec fn failed(error: ClientErrorView) -> (RunPhaseView, RunActionView) {
    finished(Err(error))
}

/// What follows once the body is there, or is not.
pub open spec fn after_body(
    caller: CallerView,
    request: SendRequestView,
    body: Result<serde_json::Value, ClientErrorView>,
) -> (RunPhaseView, RunActionView) {
    match body {
        Ok(value) => (
            RunPhaseView::Composing { caller },
            RunActionView::Compose { request, body: value },
        ),
        Err(error) => failed(error),
    }
}

/// The body in a text, or what is wrong with it.
pub open spec fn body_in(text: Result<Seq<char>, Seq<char>>) -> Result<
    serde_json::Value,
    ClientErrorView,
> {
    match text {
        Err(source) => Err(ClientErrorView::BodyStdin { source }),
        Ok(given) => match json_value(given) {
            Ok(value) => Ok(value),
            Err(source) => Err(ClientErrorView::BodyNotJson { source }),
        },
    }
}

/// The token is read next, for a run that will send `line`.
pub open spec fn reading_token(caller: CallerView, line: ClientLineView) -> (
    RunPhaseView,
    RunActionView,
) {
    (
        RunPhaseView::ReadingToken { caller, line },
        RunActionView::ReadToken { path: caller.token_file },
    )
}

/// How a run begins: a body is resolved before anything else.
pub open spec fn run_start(caller: CallerView, verb: RunVerbView) -> (RunPhaseView, RunActionView) {
    match verb {
        RunVerbView::Send { to, kind, correlation_id, body } => {
            let request = SendRequestView { as_name: caller.name, to, kind, correlation_id };
            if body == "-"@ {
                (RunPhaseView::ReadingBody { caller, request }, RunActionView::ReadStdin)
            } else {
                after_body(caller, request, body_in(Ok(body)))
            }
        },
        RunVerbView::Await { reply_to, kind, timeout_secs } => reading_token(
            caller,
            ClientLineView::Await { reply_to, kind, timeout_secs },
        ),
    }
}

/// The hub's address for a port.
pub open spec fn loopback(port: u16) -> Seq<char> {
    "127.0.0.1:"@ + decimal_text(port as nat)
}

/// What follows a write, where `sent` follows one that went out.
pub open spec fn after_write(
    event: RunEventView,
    sent: (RunPhaseView, RunActionView),
) -> (RunPhaseView, RunActionView) {
    match event {
        RunEventView::Written => sent,
        RunEventView::Unsendable(source) => failed(ClientErrorView::Wire { source }),
        RunEventView::WriteFailed(source) => failed(ClientErrorView::SocketWrite { source }),
        _ => (RunPhaseView::Finished, RunActionView::Stop),
    }
}

/// What follows the hub's answer to the hello line.
pub open spec fn after_hello_reply(line: ClientLineView, reply: ReplyView) -> (
    RunPhaseView,
    RunActionView,
) {
    match line_in("ok"@, reply) {
        Err(error) => failed(error),
        Ok(ServerLineView::Okay {  }) => (
            RunPhaseView::Asking { sending: line is Send },
            RunActionView::Write(line),
        ),
        Ok(other) => failed(unexpected("ok"@, other)),
    }
}

/// What follows the hub's answer to a send line.
pub open spec fn after_send_reply(reply: ReplyView) -> (RunPhaseView, RunActionView) {
    match line_in("accepted"@, reply) {
        Err(error) => failed(error),
        Ok(ServerLineView::Accepted { id }) => finished(Ok(OutcomeView::Printed(id.push('\n')))),
        Ok(other) => failed(unexpected("accepted"@, other)),
    }
}

/// What follows the hub's answer to an await line.
pub open spec fn after_await_reply(reply: ReplyView) -> (RunPhaseView, RunActionView) {
    match line_in("envelope or timeout"@, reply) {
        Err(error) => failed(error),
        Ok(ServerLineView::Envelope(envelope)) => (
            RunPhaseView::Printing,
            RunActionView::Serialize(envelope),
        ),
        Ok(ServerLineView::Timeout {  }) => finished(Ok(OutcomeView::TimedOut)),
        Ok(other) => failed(unexpected("envelope or timeout"@, other)),
    }
}

/// The whole run: the next phase and action from a phase and an event. An event that
/// is no outcome of the phase's action stops the run.
pub open spec fn run_next(phase: RunPhaseView, event: RunEventView) -> (
    RunPhaseView,
    RunActionView,
) {
    match (phase, event) {
        (RunPhaseView::ReadingBody { caller, request }, RunEventView::Stdin(text)) => after_body(
            caller,
            request,
            body_in(text),
        ),
        (RunPhaseView::Composing { caller }, RunEventView::Composed(envelope)) => reading_token(
            caller,
            ClientLineView::Send(envelope),
        ),
        (RunPhaseView::ReadingToken { caller, line }, RunEventView::Token(file)) => match file {
            Err(source) => failed(
                ClientErrorView::TokenFile { path: caller.token_file, source },
            ),
            Ok(raw) => (
                RunPhaseView::Connecting {
                    port: caller.port,
                    hello: ClientLineView::Hello { name: caller.name, token: trimmed_end(raw) },
                    line,
                },
                RunActionView::Connect { port: caller.port },
            ),
        },
        (RunPhaseView::Connecting { port, hello, line }, RunEventView::Connected(result)) =>
            match result {
            Err(source) => failed(ClientErrorView::Connect { addr: loopback(port), source }),
            Ok(_) => (RunPhaseView::SayingHello { line }, RunActionView::Write(hello)),
        },
        (RunPhaseView::SayingHello { line }, event) => after_write(
            event,
            (RunPhaseView::AwaitingOkay { line }, RunActionView::ReadReply),
        ),
        (RunPhaseView::AwaitingOkay { line }, RunEventView::Replied(reply)) => after_hello_reply(
            line,
            reply,
        ),
        (RunPhaseView::Asking { sending }, event) => after_write(
            event,
            (RunPhaseView::AwaitingAnswer { sending }, RunActionView::ReadReply),
        ),
        (RunPhaseView::AwaitingAnswer { sending }, RunEventView::Replied(reply)) => if sending {
            after_send_reply(reply)
        } else {
            after_await_reply(reply)
        },
        (RunPhaseView::Printing, RunEventView::Serialized(json)) => match json {
            Ok(text) => finished(Ok(OutcomeView::Printed(text.push('\n')))),
            Err(source) => failed(
                ClientErrorView::Wire { source: WireErrorView::Serialize { source } },
            ),
        },
        _ => (RunPhaseView::Finished, RunActionView::Stop),
    }
}

fn finish(result: Result<Outcome, ClientError>) -> (turn: (RunPhase, RunAction))
    ensures
        (turn.0@, turn.1@) == finished(result_view(result)),
{
    (RunPhase::Finished, RunAction::Finish(report(result)))
}

fn stop() -> (turn: (RunPhase, RunAction))
    ensures
        (turn.0@, turn.1@) == (RunPhaseView::Finished, RunActionView::Stop),
{
    (RunPhase::Finished, RunAction::Stop)
}

/// Goes on with a body, or ends the run without one.
pub fn decide_body(
    caller: Caller,
    request: SendRequest,
    body: Result<serde_json::Value, ClientError>,
) -> (turn: (RunPhase, RunAction))
    ensures
        (turn.0@, turn.1@) == after_body(
            caller@,
            request@,
            match body {
                Ok(value) => Ok(value),
                Err(error) => Err(error@),
            },
        ),
{
    match body {
        Ok(body) => (RunPhase::Composing { caller }, RunAction::Compose { request, body }),
        Err(error) => finish(Err(error)),
    }
}

fn read_token_next(caller: Caller, line: ClientLine) -> (turn: (RunPhase, RunAction))
    ensures
        (turn.0@, turn.1@) == reading_token(caller@, line@),
{
    let path = caller.token_file.clone();
    (RunPhase::ReadingToken { caller, line }, RunAction::ReadToken { path })
}

fn decide_write(event: RunEvent, sent: RunPhase) -> (turn: (RunPhase, RunAction))
    ensures
        (turn.0@, turn.1@) == after_write(event@, (sent@, RunActionView::ReadReply)),
{
    match event {
        RunEvent::Written => (sent, RunAction::ReadReply),
        RunEvent::Unsendable(source) => finish(Err(ClientError::Wire { source })),
        RunEvent::WriteFailed(source) => finish(Err(ClientError::SocketWrite { source })),
        _ => stop(),
    }
}

fn decide_hello_reply(line: ClientLine, reply: Reply) -> (turn: (RunPhase, RunAction))
    ensures
        (turn.0@, turn.1@) == after_hello_reply(line@, reply@),
{
    let received = match read_reply("ok", reply) {
        Ok(received) => received,
        Err(error) => {
            return finish(Err(error));
        },
    };
    match greeted(received) {
        Ok(_) => {
            let sending = matches!(line, ClientLine::Send(_));
            (RunPhase::Asking { sending }, RunAction::Write(line))
        },
        Err(error) => finish(Err(error)),
    }
}

fn decide_send_reply(reply: Reply) -> (turn: (RunPhase, RunAction))
    ensures
        (turn.0@, turn.1@) == after_send_reply(reply@),
{
    match read_reply("accepted", reply) {
        Ok(received) => finish(send_answered(received)),
        Err(error) => finish(Err(error)),
    }
}

fn decide_await_reply(reply: Reply) -> (turn: (RunPhase, RunAction))
    ensures
        (turn.0@, turn.1@) == after_await_reply(reply@),
{
    let received = match read_reply("envelope or timeout", reply) {
        Ok(received) => received,
        Err(error) => {
            return finish(Err(error));
        },
    };
    match await_answered(received) {
        Ok(Some(envelope)) => (RunPhase::Printing, RunAction::Serialize(envelope)),
        Ok(None) => finish(Ok(Outcome::TimedOut)),
        Err(error) => finish(Err(error)),
    }
}

/// Begins a run.
pub fn begin_run(caller: Caller, verb: RunVerb) -> (turn: (RunPhase, RunAction))
    ensures
        (turn.0@, turn.1@) == run_start(caller@, verb@),
{
    match verb {
        RunVerb::Send { to, kind, correlation_id, body } => {
            let request = SendRequest { as_name: caller.name.clone(), to, kind, correlation_id };
            if body_from_stdin(body.as_str()) {
                (RunPhase::ReadingBody { caller, request }, RunAction::ReadStdin)
            } else {
                decide_body(caller, request, read_body(Ok(body)))
            }
        },
        RunVerb::Await { reply_to, kind, timeout_secs } => read_token_next(
            caller,
            ClientLine::Await { reply_to, kind, timeout_secs },
        ),
    }
}

/// Decides what follows `event` in `phase`.
pub fn run_step(phase: RunPhase, event: RunEvent) -> (turn: (RunPhase, RunAction))
    ensures
        (turn.0@, turn.1@) == run_next(phase@, event@),
{
    match (phase, event) {
        (RunPhase::ReadingBody { caller, request }, RunEvent::Stdin(text)) => decide_body(
            caller,
            request,
            read_body(text),
        ),
        (RunPhase::Composing { caller }, RunEvent::Composed(envelope)) => read_token_next(
            caller,
            ClientLine::Send(envelope),
        ),
        (RunPhase::ReadingToken { caller, line }, RunEvent::Token(file)) => match read_token(
            caller.token_file.as_str(),
            file,
        ) {
            Ok(token) => {
                let hello = hello_line(caller.name.as_str(), token);
                let port = caller.port;
                (RunPhase::Connecting { port, hello, line }, RunAction::Connect { port })
            },
            Err(error) => finish(Err(error)),
        },
        (RunPhase::Connecting { port, hello, line }, RunEvent::Connected(result)) => match result {
            Ok(_) => (RunPhase::SayingHello { line }, RunAction::Write(hello)),
            Err(source) => {
                let addr = prefixed("127.0.0.1:", decimal(port as usize).as_str());
                finish(Err(ClientError::Connect { addr, source }))
            },
        },
        (RunPhase::SayingHello { line }, event) => decide_write(
            event,
            RunPhase::AwaitingOkay { line },
        ),
        (RunPhase::AwaitingOkay { line }, RunEvent::Replied(reply)) => decide_hello_reply(
            line,
            reply,
        ),
        (RunPhase::Asking { sending }, event) => decide_write(
            event,
            RunPhase::AwaitingAnswer { sending },
        ),
        (RunPhase::AwaitingAnswer { sending }, RunEvent::Replied(reply)) => if sending {
            decide_send_reply(reply)
        } else {
            decide_await_reply(reply)
        },
        (RunPhase::Printing, RunEvent::Serialized(json)) => finish(delivered(json)),
        _ => stop(),
    }
}

/// Where a run stands after `events`.
pub open spec fn run_after(caller: CallerView, verb: RunVerbView, events: Seq<RunEventView>) -> (
    RunPhaseView,
    RunActionView,
)
    decreases events.len(),
{
    if events.len() == 0 {
        run_start(caller, verb)
    } else {
        run_next(run_after(caller, verb, events.drop_last()).0, events.last())
    }
}

/// How far a run still is from its end.
pub open spec fn run_distance(phase: RunPhaseView) -> nat {
    match phase {
        RunPhaseView::ReadingBody { .. } => 9,
        RunPhaseView::Composing { .. } => 8,
        RunPhaseView::ReadingToken { .. } => 7,
        RunPhaseView::Connecting { .. } => 6,
        RunPhaseView::SayingHello { .. } => 5,
        RunPhaseView::AwaitingOkay { .. } => 4,
        RunPhaseView::Asking { .. } => 3,
        RunPhaseView::AwaitingAnswer { .. } => 2,
        RunPhaseView::Printing => 1,
        RunPhaseView::Finished => 0,
    }
}

/// Every turn brings the end closer, and after the end nothing is done.
pub proof fn lemma_runs_end(phase: RunPhaseView, event: RunEventView)
    ensures
        run_distance(run_next(phase, event).0) < run_distance(phase) || phase
            == RunPhaseView::Finished,
        phase == RunPhaseView::Finished ==> run_next(phase, event) == (
            RunPhaseView::Finished,
            RunActionView::Stop,
        ),
{
}

proof fn lemma_run_distance_falls(
    caller: CallerView,
    verb: RunVerbView,
    events: Seq<RunEventView>,
    m: int,
    n: int,
)
    requires
        0 <= m < n <= events.len(),
    ensures
        ({
            let earlier = run_after(caller, verb, events.take(m)).0;
            let later = run_after(caller, verb, events.take(n)).0;
            run_distance(later) < run_distance(earlier) || later == RunPhaseView::Finished
        }),
    decreases n - m,
{
    let before = run_after(caller, verb, events.take(n - 1)).0;
    assert(events.take(n).drop_last() =~= events.take(n - 1));
    assert(events.take(n).last() == events[n - 1]);
    lemma_runs_end(before, events[n - 1]);
    if m < n - 1 {
        lemma_run_distance_falls(caller, verb, events, m, n - 1);
    }
}

/// Whether the body of the run is there: the one given is JSON, or the one that came
/// from stdin. An await has none to resolve.
pub open spec fn body_resolved(verb: RunVerbView, events: Seq<RunEventView>) -> bool {
    match verb {
        RunVerbView::Send { body, .. } => {
            ||| body != "-"@ && json_value(body) is Ok
            ||| exists|k: int| 0 <= k < events.len() && is_json_body(#[trigger] events[k])
        },
        RunVerbView::Await { .. } => true,
    }
}

/// Whether stdin gave a JSON body.
pub open spec fn is_json_body(event: RunEventView) -> bool {
    match event {
        RunEventView::Stdin(Ok(text)) => json_value(text) is Ok,
        _ => false,
    }
}

proof fn lemma_body_comes_first(caller: CallerView, verb: RunVerbView, events: Seq<RunEventView>)
    ensures
        ({
            let phase = run_after(caller, verb, events).0;
            phase is ReadingBody || phase is Finished || body_resolved(verb, events)
        }),
    decreases events.len(),
{
    if events.len() > 0 {
        let init = events.drop_last();
        lemma_body_comes_first(caller, verb, init);
        let before = run_after(caller, verb, init).0;
        let after = run_after(caller, verb, events).0;
        if !(after is ReadingBody) && !(after is Finished) {
            if before is ReadingBody {
                assert(is_json_body(events[events.len() - 1]));
            } else {
                if let RunVerbView::Send { body, .. } = verb {
                    if !(body != "-"@ && json_value(body) is Ok) {
                        let k = choose|k: int|
                            0 <= k < init.len() && is_json_body(#[trigger] init[k]);
                        assert(events[k] == init[k]);
                    }
                }
            }
        }
    }
}

/// A body that is no JSON fails without a connection: none is made before the body is
/// there.
pub proof fn lemma_no_connection_without_body(
    caller: CallerView,
    verb: RunVerbView,
    events: Seq<RunEventView>,
)
    ensures
        run_after(caller, verb, events).1 is Connect ==> body_resolved(verb, events),
        run_after(caller, verb, events).1 is Write ==> body_resolved(verb, events),
{
    lemma_body_comes_first(caller, verb, events);
}

/// Whether the line is the hello line of this caller.
pub open spec fn is_hello_of(line: ClientLineView, caller: CallerView) -> bool {
    match line {
        ClientLineView::Hello { name, .. } => name == caller.name,
        _ => false,
    }
}

proof fn lemma_lines_of_a_run(caller: CallerView, verb: RunVerbView, events: Seq<RunEventView>)
    ensures
        ({
            let (phase, action) = run_after(caller, verb, events);
            &&& match phase {
                RunPhaseView::ReadingBody { caller: c, .. } => c == caller,
                RunPhaseView::Composing { caller: c } => c == caller,
                RunPhaseView::ReadingToken { caller: c, line } => c == caller && !(line is Hello),
                RunPhaseView::Connecting { hello, line, .. } => is_hello_of(hello, caller) && !(
                line is Hello),
                RunPhaseView::SayingHello { line } => !(line is Hello),
                RunPhaseView::AwaitingOkay { line } => !(line is Hello),
                _ => true,
            }
            &&& action matches RunActionView::Write(line) ==> {
                ||| phase is SayingHello && is_hello_of(line, caller)
                ||| phase is Asking && !(line is Hello)
            }
            &&& phase is SayingHello ==> action is Write
        }),
    decreases events.len(),
{
    if events.len() > 0 {
        lemma_lines_of_a_run(caller, verb, events.drop_last());
    }
}

/// A run writes at most two lines: the caller's hello line first, then one verb line.
pub proof fn lemma_hello_then_one_verb(
    caller: CallerView,
    verb: RunVerbView,
    events: Seq<RunEventView>,
    m: int,
    n: int,
)
    requires
        0 <= m < n <= events.len(),
        run_after(caller, verb, events.take(m)).1 is Write,
        run_after(caller, verb, events.take(n)).1 is Write,
    ensures
        run_after(caller, verb, events.take(m)).1 matches RunActionView::Write(line) && is_hello_of(
            line,
            caller,
        ),
        run_after(caller, verb, events.take(n)).1 matches RunActionView::Write(line) && !(
        line is Hello),
{
    lemma_lines_of_a_run(caller, verb, events.take(m));
    lemma_lines_of_a_run(caller, verb, events.take(n));
    lemma_run_distance_falls(caller, verb, events, m, n);
}

/// A verb line goes out only after the hello line did and the hub answered it with
/// ok.
pub proof fn lemma_no_verb_before_welcome(
    caller: CallerView,
    verb: RunVerbView,
    events: Seq<RunEventView>,
)
    requires
        run_after(caller, verb, events).1 matches RunActionView::Write(line) && !(line is Hello),
    ensures
        events.len() >= 2,
        events.last() == RunEventView::Replied(ReplyView::Line(ServerLineView::Okay {  })),
        events[events.len() - 2] == RunEventView::Written,
        run_after(caller, verb, events.take(events.len() - 2)).1 matches RunActionView::Write(line)
            && is_hello_of(line, caller),
{
    lemma_lines_of_a_run(caller, verb, events);
    let one = events.drop_last();
    assert(run_after(caller, verb, one).0 is AwaitingOkay);
    let two = one.drop_last();
    lemma_lines_of_a_run(caller, verb, one);
    lemma_lines_of_a_run(caller, verb, two);
    assert(run_after(caller, verb, two).0 is SayingHello);
    assert(events.take(events.len() - 2) =~= two);
    assert(one.last() == events[events.len() - 2]);
}

/// The contents of a caller and of a verb leave nothing out.
pub proof fn lemma_contents_of_a_run(caller: Caller, verb: RunVerb)
    ensures
        caller@.name == caller.name@,
        caller@.token_file == caller.token_file@,
        caller@.port == caller.port,
        match verb {
            RunVerb::Send { to, kind, correlation_id, body } => {
                &&& verb@ matches RunVerbView::Send { to: t, kind: k, correlation_id: c, body: b }
                &&& t == to@
                &&& k == kind@
                &&& b == body@
                &&& correlation_id matches Some(id) ==> c == Some(id@)
                &&& correlation_id is None ==> c is None
            },
            RunVerb::Await { reply_to, kind, timeout_secs } => {
                &&& verb@ matches RunVerbView::Await { reply_to: r, kind: k, timeout_secs: t }
                &&& reply_to matches Some(id) ==> r == Some(id@)
                &&& reply_to is None ==> r is None
                &&& kind matches Some(wanted) ==> k == Some(wanted@)
                &&& kind is None ==> k is None
                &&& t == timeout_secs
            },
        },
{
}

/// The contents of what happens to a run leave nothing out.
pub proof fn lemma_contents_of_run_events(
    text: String,
    source: String,
    envelope: Envelope,
    error: WireError,
    reply: Reply,
)
    ensures
        RunEvent::Stdin(Ok(text))@ == RunEventView::Stdin(Ok(text@)),
        RunEvent::Stdin(Err(source))@ == RunEventView::Stdin(Err(source@)),
        RunEvent::Composed(envelope)@ == RunEventView::Composed(envelope@),
        RunEvent::Token(Ok(text))@ == RunEventView::Token(Ok(text@)),
        RunEvent::Token(Err(source))@ == RunEventView::Token(Err(source@)),
        RunEvent::Connected(Ok(()))@ matches RunEventView::Connected(Ok(_)),
        RunEvent::Connected(Err(source))@ == RunEventView::Connected(Err(source@)),
        RunEvent::Written@ == RunEventView::Written,
        RunEvent::Unsendable(error)@ == RunEventView::Unsendable(error@),
        RunEvent::WriteFailed(source)@ == RunEventView::WriteFailed(source@),
        RunEvent::Replied(reply)@ == RunEventView::Replied(reply@),
        RunEvent::Serialized(Ok(text))@ == RunEventView::Serialized(Ok(text@)),
        RunEvent::Serialized(Err(source))@ == RunEventView::Serialized(Err(source@)),
{
}

proof fn lemma_request_is_kept(caller: CallerView, verb: RunVerbView, events: Seq<RunEventView>)
    ensures
        run_after(caller, verb, events).0 matches RunPhaseView::ReadingBody {
            caller: who,
            request,
        } ==> {
            &&& events.len() == 0
            &&& who == caller
            &&& request.as_name == caller.name
            &&& verb matches RunVerbView::Send { to, kind, correlation_id, body }
            &&& request.to == to
            &&& request.kind == kind
            &&& request.correlation_id == correlation_id
            &&& body == "-"@
        },
{
}

/// A send run composes the envelope it was asked for: from the caller's name and
/// exactly the verb's destination, kind and correlation id, with the JSON value of the
/// body given, or of all of stdin if the body given is `-`.
pub proof fn lemma_composes_what_was_asked_for(
    caller: CallerView,
    verb: RunVerbView,
    events: Seq<RunEventView>,
)
    ensures
        run_after(caller, verb, events).1 matches RunActionView::Compose { request, body: value }
            ==> {
            &&& verb matches RunVerbView::Send { to, kind, correlation_id, body }
            &&& request.as_name == caller.name
            &&& request.to == to
            &&& request.kind == kind
            &&& request.correlation_id == correlation_id
            &&& if body == "-"@ {
                &&& events.len() == 1
                &&& events[0] matches RunEventView::Stdin(Ok(text))
                &&& json_value(text) == Ok::<_, Seq<char>>(value)
            } else {
                &&& events.len() == 0
                &&& json_value(body) == Ok::<_, Seq<char>>(value)
            }
        },
{
    if events.len() > 0 {
        lemma_request_is_kept(caller, verb, events.drop_last());
    }
}

/// A body that is there and is JSON is composed: the run does not end before.
pub proof fn lemma_bodies_are_taken(
    caller: CallerView,
    to: Seq<char>,
    kind: Seq<char>,
    correlation_id: Option<Seq<char>>,
    body: Seq<char>,
    text: Result<Seq<char>, Seq<char>>,
)
    ensures
        ({
            let turn = run_after(
                caller,
                RunVerbView::Send { to, kind, correlation_id, body },
                Seq::empty(),
            );
            let request = SendRequestView { as_name: caller.name, to, kind, correlation_id };
            if body == "-"@ {
                &&& turn.1 == RunActionView::ReadStdin
                &&& match text {
                    Ok(given) => match json_value(given) {
                        Ok(value) => run_next(turn.0, RunEventView::Stdin(text)).1
                            == RunActionView::Compose { request, body: value },
                        Err(source) => run_next(turn.0, RunEventView::Stdin(text)).1
                            == RunActionView::Finish(
                            ReportView {
                                exit_code: 1,
                                stdout: Seq::empty(),
                                stderr: ("agent-hub: "@ + ("body is not valid JSON: "@
                                    + source)).push('\n'),
                            },
                        ),
                    },
                    Err(source) => run_next(turn.0, RunEventView::Stdin(text)).1
                        == RunActionView::Finish(
                        ReportView {
                            exit_code: 1,
                            stdout: Seq::empty(),
                            stderr: ("agent-hub: "@ + ("cannot read body from stdin: "@
                                + source)).push('\n'),
                        },
                    ),
                }
            } else {
                match json_value(body) {
                    Ok(value) => turn.1 == RunActionView::Compose { request, body: value },
                    Err(source) => turn.1 == RunActionView::Finish(
                        ReportView {
                            exit_code: 1,
                            stdout: Seq::empty(),
                            stderr: ("agent-hub: "@ + ("body is not valid JSON: "@ + source)).push(
                                '\n',
                            ),
                        },
                    ),
                }
            }
        }),
{
}

/// Whether `line` is the verb line that this run is to send after `events`.
spec fn is_verb_line(
    caller: CallerView,
    verb: RunVerbView,
    events: Seq<RunEventView>,
    line: ClientLineView,
) -> bool {
    match line {
        ClientLineView::Send(envelope) => {
            &&& verb is Send
            &&& exists|k: int|
                {
                    &&& 0 <= k < events.len()
                    &&& #[trigger] events[k] == RunEventView::Composed(envelope)
                    &&& run_after(caller, verb, events.take(k)).1 is Compose
                }
        },
        ClientLineView::Await { reply_to, kind, timeout_secs } => verb == (RunVerbView::Await {
            reply_to,
            kind,
            timeout_secs,
        }),
        ClientLineView::Hello { .. } => false,
    }
}

/// Whether `line` is a hello line with the token that this run read.
spec fn is_hello_line(caller: CallerView, events: Seq<RunEventView>, line: ClientLineView) -> bool {
    &&& line matches ClientLineView::Hello { name, token }
    &&& name == caller.name
    &&& exists|k: int|
        {
            &&& 0 <= k < events.len()
            &&& #[trigger] events[k] matches RunEventView::Token(Ok(raw))
            &&& token == trimmed_end(raw)
        }
}

proof fn lemma_line_stays(
    caller: CallerView,
    verb: RunVerbView,
    events: Seq<RunEventView>,
    line: ClientLineView,
)
    requires
        events.len() > 0,
    ensures
        is_verb_line(caller, verb, events.drop_last(), line) ==> is_verb_line(
            caller,
            verb,
            events,
            line,
        ),
        is_hello_line(caller, events.drop_last(), line) ==> is_hello_line(caller, events, line),
{
    let init = events.drop_last();
    if is_verb_line(caller, verb, init, line) {
        if let ClientLineView::Send(envelope) = line {
            let k = choose|k: int|
                {
                    &&& 0 <= k < init.len()
                    &&& #[trigger] init[k] == RunEventView::Composed(envelope)
                    &&& run_after(caller, verb, init.take(k)).1 is Compose
                };
            assert(events[k] == init[k]);
            assert(init.take(k) =~= events.take(k));
        }
    }
    if is_hello_line(caller, init, line) {
        if let ClientLineView::Hello { token, .. } = line {
            let k = choose|k: int|
                {
                    &&& 0 <= k < init.len()
                    &&& #[trigger] init[k] matches RunEventView::Token(Ok(raw))
                    &&& token == trimmed_end(raw)
                };
            assert(events[k] == init[k]);
        }
    }
}

proof fn lemma_phases_of_a_run(caller: CallerView, verb: RunVerbView, events: Seq<RunEventView>)
    ensures
        ({
            let (phase, action) = run_after(caller, verb, events);
            match phase {
                RunPhaseView::ReadingBody { caller: who, .. } => {
                    &&& who == caller
                    &&& verb is Send
                    &&& action is ReadStdin
                },
                RunPhaseView::Composing { caller: who } => {
                    &&& who == caller
                    &&& verb is Send
                    &&& action is Compose
                },
                RunPhaseView::ReadingToken { caller: who, line } => {
                    &&& who == caller
                    &&& is_verb_line(caller, verb, events, line)
                    &&& action == RunActionView::ReadToken { path: caller.token_file }
                },
                RunPhaseView::Connecting { port, hello, line } => {
                    &&& port == caller.port
                    &&& is_hello_line(caller, events, hello)
                    &&& is_verb_line(caller, verb, events, line)
                    &&& action == RunActionView::Connect { port: caller.port }
                },
                RunPhaseView::SayingHello { line } => {
                    &&& is_verb_line(caller, verb, events, line)
                    &&& action matches RunActionView::Write(hello) && is_hello_line(
                        caller,
                        events,
                        hello,
                    )
                },
                RunPhaseView::AwaitingOkay { line } => {
                    &&& is_verb_line(caller, verb, events, line)
                    &&& action is ReadReply
                },
                RunPhaseView::Asking { sending } => {
                    &&& sending == (verb is Send)
                    &&& action matches RunActionView::Write(line) && is_verb_line(
                        caller,
                        verb,
                        events,
                        line,
                    )
                },
                RunPhaseView::AwaitingAnswer { sending } => {
                    &&& sending == (verb is Send)
                    &&& action is ReadReply
                },
                RunPhaseView::Printing => {
                    &&& verb is Await
                    &&& action is Serialize
                },
                RunPhaseView::Finished => action is Finish || action is Stop,
            }
        }),
    decreases events.len(),
{
    if events.len() > 0 {
        let init = events.drop_last();
        lemma_phases_of_a_run(caller, verb, init);
        let before = run_after(caller, verb, init).0;
        let last = events.len() - 1;
        assert(events[last] == events.last());
        assert(events.take(last) =~= init);
        match before {
            RunPhaseView::ReadingToken { line, .. } => {
                lemma_line_stays(caller, verb, events, line);
            },
            RunPhaseView::Connecting { hello, line, .. } => {
                lemma_line_stays(caller, verb, events, line);
                lemma_line_stays(caller, verb, events, hello);
            },
            RunPhaseView::SayingHello { line } => {
                lemma_line_stays(caller, verb, events, line);
            },
            RunPhaseView::AwaitingOkay { line } => {
                lemma_line_stays(caller, verb, events, line);
            },
            _ => {},
        }
    }
}

/// What a run does and writes is what the caller asked for. It reads the caller's
/// token file and connects to the caller's port. Its hello line has the caller's name
/// and the token file's text without the whitespace at its end. Its verb line is, for a
/// send, the envelope that was composed, and for an await, exactly the conditions and
/// the timeout of the verb.
pub proof fn lemma_a_run_does_what_was_asked_for(
    caller: CallerView,
    verb: RunVerbView,
    events: Seq<RunEventView>,
)
    ensures
        match run_after(caller, verb, events).1 {
            RunActionView::ReadToken { path } => path == caller.token_file,
            RunActionView::Connect { port } => port == caller.port,
            RunActionView::Write(ClientLineView::Hello { name, token }) => {
                &&& name == caller.name
                &&& exists|k: int|
                    {
                        &&& 0 <= k < events.len()
                        &&& #[trigger] events[k] matches RunEventView::Token(Ok(raw))
                        &&& token.is_prefix_of(raw)
                        &&& token.len() > 0 ==> !white_space(token.last())
                        &&& forall|i: int| token.len() <= i < raw.len() ==> white_space(#[trigger] raw[i])
                    }
            },
            RunActionView::Write(ClientLineView::Send(envelope)) => {
                &&& verb is Send
                &&& exists|k: int|
                    {
                        &&& 0 <= k < events.len()
                        &&& #[trigger] events[k] == RunEventView::Composed(envelope)
                        &&& run_after(caller, verb, events.take(k)).1 is Compose
                    }
            },
            RunActionView::Write(ClientLineView::Await { reply_to, kind, timeout_secs }) => verb
                == (RunVerbView::Await { reply_to, kind, timeout_secs }),
            _ => true,
        },
{
    lemma_phases_of_a_run(caller, verb, events);
    lemma_turns_write_in_two_phases(caller, verb, events);
    if let RunActionView::Write(ClientLineView::Hello { token, .. }) = run_after(
        caller,
        verb,
        events,
    ).1 {
        let k = choose|k: int|
            {
                &&& 0 <= k < events.len()
                &&& #[trigger] events[k] matches RunEventView::Token(Ok(raw))
                &&& token == trimmed_end(raw)
            };
        if let RunEventView::Token(Ok(raw)) = events[k] {
            lemma_trimmed_end(raw);
        }
    }
}

proof fn lemma_turns_write_in_two_phases(
    caller: CallerView,
    verb: RunVerbView,
    events: Seq<RunEventView>,
)
    ensures
        ({
            let (phase, action) = run_after(caller, verb, events);
            &&& action is Write ==> phase is SayingHello || phase is Asking
            &&& action is ReadToken ==> phase is ReadingToken
            &&& action is Connect ==> phase is Connecting
            &&& action is Serialize ==> phase is Printing
        }),
{
}

/// How a run goes on: token, connection, hello line, ok, verb line, answer. Each step
/// that succeeds leads to the next.
pub proof fn lemma_a_run_goes_on(
    caller: CallerView,
    port: u16,
    hello: ClientLineView,
    line: ClientLineView,
    raw: Seq<char>,
    sending: bool,
    envelope: EnvelopeView,
)
    ensures
        run_next(RunPhaseView::Composing { caller }, RunEventView::Composed(envelope)) == (
            RunPhaseView::ReadingToken { caller, line: ClientLineView::Send(envelope) },
            RunActionView::ReadToken { path: caller.token_file },
        ),
        ({
            let turn = run_next(
                RunPhaseView::ReadingToken { caller, line },
                RunEventView::Token(Ok(raw)),
            );
            &&& turn.1 == RunActionView::Connect { port: caller.port }
            &&& turn.0 matches RunPhaseView::Connecting { port: p, hello: h, line: l }
            &&& p == caller.port
            &&& l == line
            &&& h is Hello
        }),
        run_next(
            RunPhaseView::Connecting { port, hello, line },
            RunEventView::Connected(Ok(())),
        ) == (RunPhaseView::SayingHello { line }, RunActionView::Write(hello)),
        run_next(RunPhaseView::SayingHello { line }, RunEventView::Written) == (
            RunPhaseView::AwaitingOkay { line },
            RunActionView::ReadReply,
        ),
        run_next(
            RunPhaseView::AwaitingOkay { line },
            RunEventView::Replied(ReplyView::Line(ServerLineView::Okay {  })),
        ) == (RunPhaseView::Asking { sending: line is Send }, RunActionView::Write(line)),
        run_next(RunPhaseView::Asking { sending }, RunEventView::Written) == (
            RunPhaseView::AwaitingAnswer { sending },
            RunActionView::ReadReply,
        ),
        run_next(
            RunPhaseView::AwaitingAnswer { sending: false },
            RunEventView::Replied(ReplyView::Line(ServerLineView::Envelope(envelope))),
        ) == (RunPhaseView::Printing, RunActionView::Serialize(envelope)),
{
}

/// What a run that succeeds or times out leaves behind: a send prints the id that the
/// hub accepted, an await the JSON text of the envelope, each on one line, and exits
/// with zero; an await that timed out prints nothing and exits with two.
pub proof fn lemma_successes_are_printed(id: Seq<char>, json: Seq<char>)
    ensures
        run_next(
            RunPhaseView::AwaitingAnswer { sending: true },
            RunEventView::Replied(ReplyView::Line(ServerLineView::Accepted { id })),
        ) == (
            RunPhaseView::Finished,
            RunActionView::Finish(
                ReportView { exit_code: 0, stdout: id.push('\n'), stderr: Seq::empty() },
            ),
        ),
        run_next(RunPhaseView::Printing, RunEventView::Serialized(Ok(json))) == (
            RunPhaseView::Finished,
            RunActionView::Finish(
                ReportView { exit_code: 0, stdout: json.push('\n'), stderr: Seq::empty() },
            ),
        ),
        run_next(
            RunPhaseView::AwaitingAnswer { sending: false },
            RunEventView::Replied(ReplyView::Line(ServerLineView::Timeout {  })),
        ) == (
            RunPhaseView::Finished,
            RunActionView::Finish(
                ReportView { exit_code: 2, stdout: Seq::empty(), stderr: Seq::empty() },
            ),
        ),
{
}

/// A run exits with zero only on what it was run for: a send on the hub's acceptance,
/// an await on a delivered envelope. It exits with two only where an await timed out.
/// In every other case it exits with one, prints nothing and says on stderr why.
pub proof fn lemma_exit_codes_are_earned(
    caller: CallerView,
    verb: RunVerbView,
    events: Seq<RunEventView>,
)
    ensures
        run_after(caller, verb, events).1 matches RunActionView::Finish(report) ==> {
            ||| {
                &&& report.exit_code == 0
                &&& verb is Send
                &&& events.len() > 0
                &&& events.last() matches RunEventView::Replied(
                    ReplyView::Line(ServerLineView::Accepted { id }),
                )
                &&& report.stdout == id.push('\n')
                &&& report.stderr.len() == 0
            }
            ||| {
                &&& report.exit_code == 0
                &&& verb is Await
                &&& events.len() > 0
                &&& events.last() matches RunEventView::Serialized(Ok(json))
                &&& report.stdout == json.push('\n')
                &&& report.stderr.len() == 0
            }
            ||| {
                &&& report.exit_code == 2
                &&& verb is Await
                &&& events.len() > 0
                &&& events.last() == RunEventView::Replied(
                    ReplyView::Line(ServerLineView::Timeout {  }),
                )
                &&& report.stdout.len() == 0
                &&& report.stderr.len() == 0
            }
            ||| {
                &&& report.exit_code == 1
                &&& report.stdout.len() == 0
                &&& report.stderr.len() > 0
                &&& report.stderr.last() == '\n'
                &&& "agent-hub: "@.is_prefix_of(report.stderr)
            }
        },
        run_after(caller, verb, events).1 matches RunActionView::Serialize(envelope) ==> {
            &&& events.len() > 0
            &&& events.last() == RunEventView::Replied(
                ReplyView::Line(ServerLineView::Envelope(envelope)),
            )
        },
{
    lemma_phases_of_a_run(caller, verb, events);
    if events.len() > 0 {
        lemma_phases_of_a_run(caller, verb, events.drop_last());
    }
    if let RunActionView::Finish(report) = run_after(caller, verb, events).1 {
        let intro = "agent-hub: "@;
        if report.exit_code == 1 {
            assert(intro =~= report.stderr.take(intro.len() as int));
        }
    }
}

/// A run that fails says what failed and why, in the words of whoever knew.
pub proof fn lemma_failures_are_told(
    caller: CallerView,
    port: u16,
    hello: ClientLineView,
    line: ClientLineView,
    sending: bool,
    source: Seq<char>,
    error: WireErrorView,
)
    ensures
        ({
            let told = |text: Seq<char>|
                (
                    RunPhaseView::Finished,
                    RunActionView::Finish(
                        ReportView {
                            exit_code: 1,
                            stdout: Seq::empty(),
                            stderr: ("agent-hub: "@ + text).push('\n'),
                        },
                    ),
                );
            &&& run_next(
                RunPhaseView::ReadingToken { caller, line },
                RunEventView::Token(Err(source)),
            ) == told("cannot read token file "@ + caller.token_file + ": "@ + source)
            &&& run_next(
                RunPhaseView::Connecting { port, hello, line },
                RunEventView::Connected(Err(source)),
            ) == told(
                "cannot connect to hub at "@ + ("127.0.0.1:"@ + decimal_text(port as nat)) + ": "@
                    + source,
            )
            &&& run_next(RunPhaseView::SayingHello { line }, RunEventView::WriteFailed(source))
                == told("cannot write to hub: "@ + source)
            &&& run_next(RunPhaseView::Asking { sending }, RunEventView::WriteFailed(source))
                == told("cannot write to hub: "@ + source)
            &&& run_next(RunPhaseView::SayingHello { line }, RunEventView::Unsendable(error))
                == told(error.text())
            &&& run_next(RunPhaseView::Asking { sending }, RunEventView::Unsendable(error)) == told(
                error.text(),
            )
            &&& run_next(RunPhaseView::Printing, RunEventView::Serialized(Err(source))) == told(
                "cannot serialize wire line: "@ + source,
            )
        }),
{
}

/// An answer that is not the one due ends the run with one: the hub's own error word
/// for word, or which line was due and which came; so does a reply that could not be
/// read, could not be parsed or never came.
pub proof fn lemma_wrong_answers_are_told(
    line: ClientLineView,
    sending: bool,
    reply: ReplyView,
)
    ensures
        ({
            let told = |text: Seq<char>|
                (
                    RunPhaseView::Finished,
                    RunActionView::Finish(
                        ReportView {
                            exit_code: 1,
                            stdout: Seq::empty(),
                            stderr: ("agent-hub: "@ + text).push('\n'),
                        },
                    ),
                );
            let okay = RunPhaseView::AwaitingOkay { line };
            let answer = RunPhaseView::AwaitingAnswer { sending };
            let due = if sending {
                "accepted"@
            } else {
                "envelope or timeout"@
            };
            let heard = RunEventView::Replied(reply);
            match reply {
                ReplyView::Failed(source) => {
                    &&& run_next(okay, heard) == told("cannot read hub reply: "@ + source)
                    &&& run_next(answer, heard) == told("cannot read hub reply: "@ + source)
                },
                ReplyView::Closed => {
                    &&& run_next(okay, heard) == told(
                        "hub closed the connection before replying (expected "@ + "ok"@ + ")"@,
                    )
                    &&& run_next(answer, heard) == told(
                        "hub closed the connection before replying (expected "@ + due + ")"@,
                    )
                },
                ReplyView::Malformed(error) => {
                    &&& run_next(okay, heard) == told(error.text())
                    &&& run_next(answer, heard) == told(error.text())
                },
                ReplyView::Line(ServerLineView::Error { message }) => {
                    &&& run_next(okay, heard) == told("hub error: "@ + message)
                    &&& run_next(answer, heard) == told("hub error: "@ + message)
                },
                ReplyView::Line(ServerLineView::Okay {  }) => run_next(answer, heard) == told(
                    "protocol violation: expected "@ + due + ", hub sent "@ + "ok"@,
                ),
                ReplyView::Line(ServerLineView::Accepted { .. }) => {
                    &&& run_next(okay, heard) == told(
                        "protocol violation: expected "@ + "ok"@ + ", hub sent "@ + "accepted"@,
                    )
                    &&& !sending ==> run_next(answer, heard) == told(
                        "protocol violation: expected "@ + due + ", hub sent "@ + "accepted"@,
                    )
                },
                ReplyView::Line(ServerLineView::Envelope(_)) => {
                    &&& run_next(okay, heard) == told(
                        "protocol violation: expected "@ + "ok"@ + ", hub sent "@ + "envelope"@,
                    )
                    &&& sending ==> run_next(answer, heard) == told(
                        "protocol violation: expected "@ + due + ", hub sent "@ + "envelope"@,
                    )
                },
                ReplyView::Line(ServerLineView::Timeout {  }) => {
                    &&& run_next(okay, heard) == told(
                        "protocol violation: expected "@ + "ok"@ + ", hub sent "@ + "timeout"@,
                    )
                    &&& sending ==> run_next(answer, heard) == told(
                        "protocol violation: expected "@ + due + ", hub sent "@ + "timeout"@,
                    )
                },
            }
        }),
{
}

/// An event that does not answer what was being done stops the run, with nothing
/// written, printed or read any more.
pub proof fn lemma_other_events_stop(phase: RunPhaseView, event: RunEventView)
    requires
        match phase {
            RunPhaseView::ReadingBody { .. } => event !is Stdin,
            RunPhaseView::Composing { .. } => event !is Composed,
            RunPhaseView::ReadingToken { .. } => event !is Token,
            RunPhaseView::Connecting { .. } => event !is Connected,
            RunPhaseView::SayingHello { .. } => event !is Written && event !is Unsendable
                && event !is WriteFailed,
            RunPhaseView::AwaitingOkay { .. } => event !is Replied,
            RunPhaseView::Asking { .. } => event !is Written && event !is Unsendable
                && event !is WriteFailed,
            RunPhaseView::AwaitingAnswer { .. } => event !is Replied,
            RunPhaseView::Printing => event !is Serialized,
            RunPhaseView::Finished => true,
        },
    ensures
        run_next(phase, event) == (RunPhaseView::Finished, RunActionView::Stop),
{
}

/// The contents of what a run does leave nothing out.
pub proof fn lemma_contents_of_run_actions(action: RunAction)
    ensures
        match action {
            RunAction::ReadStdin => action@ == RunActionView::ReadStdin,
            RunAction::Compose { request, body } => action@ == (RunActionView::Compose {
                request: request@,
                body,
            }),
            RunAction::ReadToken { path } => action@ == (RunActionView::ReadToken { path: path@ }),
            RunAction::Connect { port } => action@ == (RunActionView::Connect { port }),
            RunAction::Write(line) => action@ == RunActionView::Write(line@),
            RunAction::ReadReply => action@ == RunActionView::ReadReply,
            RunAction::Serialize(envelope) => action@ == RunActionView::Serialize(envelope@),
            RunAction::Finish(report) => action@ == RunActionView::Finish(report@),
            RunAction::Stop => action@ == RunActionView::Stop,
        },
{
}

} // verus!
