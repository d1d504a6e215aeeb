//! The client's side of a conversation: what it sends, how it reads the hub's
//! replies, and what it reports to whoever called it.
//!
//! The client checks nothing that the hub checks; the hub's own messages reach the
//! caller unchanged.

use vstd::prelude::*;
use vstd::string::*;

use crate::envelope::{text_option, Envelope, EnvelopeView};
use crate::roster::auth_failure;
use crate::text::{
    lemma_trailing_newline_is_trimmed, lemma_trimmed_end, prefixed, trim_end, trimmed_end,
    white_space, with_newline,
};
use crate::timestamp::{
    render_utc_seconds, rfc3339_refusal, utc_seconds_text, LAST_RFC3339_SECOND, LAST_SECOND,
};
use crate::wire::{
    kind_text, server_line_kind, to_jsonl, ClientLine, ClientLineView, ServerLine, ServerLineView,
    WireError, WireErrorView,
};

verus! {

/// The verb succeeded.
pub const EXIT_SUCCESS: u8 = 0;

/// Connection, authentication, validation, usage or protocol failure: nothing was
/// queued or consumed.
pub const EXIT_FAILURE: u8 = 1;

/// The hub-side timeout of an `await`: nothing was consumed, the caller may try
/// again.
pub const EXIT_TIMEOUT: u8 = 2;

/// Why a client run failed. No variant holds a token.
#[derive(Debug)]
pub enum ClientError {
    /// The token file could not be read.
    TokenFile { path: String, source: String },
    /// Reading the body from stdin failed.
    BodyStdin { source: String },
    /// The body text is not JSON.
    BodyNotJson { source: String },
    /// No connection to the hub.
    Connect { addr: String, source: String },
    /// A wire line could not be serialized, or a hub line not parsed.
    Wire { source: WireError },
    /// Writing a line to the hub failed.
    SocketWrite { source: String },
    /// Reading the hub's reply failed.
    SocketRead { source: String },
    /// The hub closed the connection where it owed a reply.
    HubClosed { expected: &'static str },
    /// The hub answered with an error line; the message is the hub's own.
    Hub { message: String },
    /// The hub answered with a line that the protocol does not allow here.
    UnexpectedReply { expected: &'static str, got: &'static str },
}

/// The contents of a [`ClientError`].
pub enum ClientErrorView {
    TokenFile { path: Seq<char>, source: Seq<char> },
    BodyStdin { source: Seq<char> },
    BodyNotJson { source: Seq<char> },
    Connect { addr: Seq<char>, source: Seq<char> },
    Wire { source: WireErrorView },
    SocketWrite { source: Seq<char> },
    SocketRead { source: Seq<char> },
    HubClosed { expected: Seq<char> },
    Hub { message: Seq<char> },
    UnexpectedReply { expected: Seq<char>, got: Seq<char> },
}

impl View for ClientError {
    type V = ClientErrorView;

    open spec fn view(&self) -> ClientErrorView {
        match *self {
            ClientError::TokenFile { path, source } => ClientErrorView::TokenFile {
                path: path@,
                source: source@,
            },
            ClientError::BodyStdin { source } => ClientErrorView::BodyStdin { source: source@ },
            ClientError::BodyNotJson { source } => ClientErrorView::BodyNotJson { source: source@ },
            ClientError::Connect { addr, source } => ClientErrorView::Connect {
                addr: addr@,
                source: source@,
            },
            ClientError::Wire { source } => ClientErrorView::Wire { source: source@ },
            ClientError::SocketWrite { source } => ClientErrorView::SocketWrite { source: source@ },
            ClientError::SocketRead { source } => ClientErrorView::SocketRead { source: source@ },
            ClientError::HubClosed { expected } => ClientErrorView::HubClosed {
                expected: expected@,
            },
            ClientError::Hub { message } => ClientErrorView::Hub { message: message@ },
            ClientError::UnexpectedReply { expected, got } => ClientErrorView::UnexpectedReply {
                expected: expected@,
                got: got@,
            },
        }
    }
}

impl ClientErrorView {
    /// The failure in words: the boundary that failed, and its cause.
    pub open spec fn text(self) -> Seq<char> {
        match self {
            ClientErrorView::TokenFile { path, source } => "cannot read token file "@ + path
                + ": "@ + source,
            ClientErrorView::BodyStdin { source } => "cannot read body from stdin: "@ + source,
            ClientErrorView::BodyNotJson { source } => "body is not valid JSON: "@ + source,
            ClientErrorView::Connect { addr, source } => "cannot connect to hub at "@ + addr
                + ": "@ + source,
            ClientErrorView::Wire { source } => source.text(),
            ClientErrorView::SocketWrite { source } => "cannot write to hub: "@ + source,
            ClientErrorView::SocketRead { source } => "cannot read hub reply: "@ + source,
            ClientErrorView::HubClosed { expected } =>
                "hub closed the connection before replying (expected "@ + expected + ")"@,
            ClientErrorView::Hub { message } => "hub error: "@ + message,
            ClientErrorView::UnexpectedReply { expected, got } => "protocol violation: expected "@
                + expected + ", hub sent "@ + got,
        }
    }
}

impl ClientError {
    /// Renders the failure in words.
    pub fn to_string(&self) -> (text: String)
        ensures
            text@ == self@.text(),
            text@ == match self {
                ClientError::TokenFile { path, source } => "cannot read token file "@ + path@
                    + ": "@ + source@,
                ClientError::BodyStdin { source } => "cannot read body from stdin: "@ + source@,
                ClientError::BodyNotJson { source } => "body is not valid JSON: "@ + source@,
                ClientError::Connect { addr, source } => "cannot connect to hub at "@ + addr@
                    + ": "@ + source@,
                ClientError::Wire { source } => source@.text(),
                ClientError::SocketWrite { source } => "cannot write to hub: "@ + source@,
                ClientError::SocketRead { source } => "cannot read hub reply: "@ + source@,
                ClientError::HubClosed { expected } =>
                    "hub closed the connection before replying (expected "@ + expected@ + ")"@,
                ClientError::Hub { message } => "hub error: "@ + message@,
                ClientError::UnexpectedReply { expected, got } => "protocol violation: expected "@
                    + expected@ + ", hub sent "@ + got@,
            },
    {
        match self {
            ClientError::TokenFile { path, source } => {
                let mut text = prefixed("cannot read token file ", path.as_str());
                text.append(": ");
                text.append(source.as_str());
                text
            },
            ClientError::BodyStdin { source } => prefixed(
                "cannot read body from stdin: ",
                source.as_str(),
            ),
            ClientError::BodyNotJson { source } => prefixed(
                "body is not valid JSON: ",
                source.as_str(),
            ),
            ClientError::Connect { addr, source } => {
                let mut text = prefixed("cannot connect to hub at ", addr.as_str());
                text.append(": ");
                text.append(source.as_str());
                text
            },
            ClientError::Wire { source } => source.to_string(),
            ClientError::SocketWrite { source } => prefixed(
                "cannot write to hub: ",
                source.as_str(),
            ),
            ClientError::SocketRead { source } => prefixed(
                "cannot read hub reply: ",
                source.as_str(),
            ),
            ClientError::HubClosed { expected } => {
                let mut text = prefixed(
                    "hub closed the connection before replying (expected ",
                    expected,
                );
                text.append(")");
                text
            },
            ClientError::Hub { message } => prefixed("hub error: ", message.as_str()),
            ClientError::UnexpectedReply { expected, got } => {
                let mut text = prefixed("protocol violation: expected ", expected);
                text.append(", hub sent ");
                text.append(got);
                text
            },
        }
    }
}

/// Decides on the token file at `path` once it has been read, or could not be. The
/// token is the file's text without the whitespace at its end, since such files end
/// in a newline while the hub compares tokens exactly.
pub fn read_token(path: &str, file: Result<String, String>) -> (token: Result<
    String,
    ClientError,
>)
    ensures
        match file {
            Ok(raw) => token is Ok && token->Ok_0@ == trimmed_end(raw@),
            Err(source) => token is Err && token->Err_0@ == (ClientErrorView::TokenFile {
                path: path@,
                source: source@,
            }),
        },
        match file {
            Ok(raw) => {
                &&& token matches Ok(text)
                &&& text@.is_prefix_of(raw@)
                &&& text@.len() > 0 ==> !white_space(text@.last())
                &&& forall|i: int|
                    text@.len() <= i < raw@.len() ==> white_space(#[trigger] raw@[i])
            },
            Err(_) => token is Err,
        },
{
    proof {
        if file is Ok {
            lemma_trimmed_end(file->Ok_0@);
        }
    }
    match file {
        Ok(raw) => Ok(trim_end(raw.as_str())),
        Err(source) => Err(ClientError::TokenFile { path: path.to_string(), source }),
    }
}

/// Whether the body is to be read from stdin rather than taken as it stands.
pub fn body_from_stdin(given: &str) -> (stdin: bool)
    ensures
        stdin == (given@ == "-"@),
{
    given.to_string() == "-".to_string()
}

/// What serde_json makes of `text`: the JSON value, or what is wrong with it.
pub uninterp spec fn json_value(text: Seq<char>) -> Result<serde_json::Value, Seq<char>>;

/// Calls `serde_json::from_str` for a `serde_json::Value` and keeps only the error's
/// own message. The claim is that the outcome is a function of the text.
#[verifier::external_body]
fn parse_json(text: &str) -> (parsed: Result<serde_json::Value, String>)
    ensures
        match parsed {
            Ok(value) => json_value(text@) == Ok::<serde_json::Value, Seq<char>>(value),
            Err(message) => json_value(text@) == Err::<serde_json::Value, Seq<char>>(message@),
        },
{
    match serde_json::from_str(text) {
        Ok(value) => Ok(value),
        Err(source) => Err(source.to_string()),
    }
}

/// Decides on a body once its text is there, or could not be read from stdin: it
/// must be one JSON value.
pub fn read_body(text: Result<String, String>) -> (body: Result<serde_json::Value, ClientError>)
    ensures
        match text {
            Ok(given) => match json_value(given@) {
                Ok(value) => body == Ok::<serde_json::Value, ClientError>(value),
                Err(source) => body is Err && body->Err_0@ == (ClientErrorView::BodyNotJson {
                    source,
                }),
            },
            Err(source) => body is Err && body->Err_0@ == (ClientErrorView::BodyStdin {
                source: source@,
            }),
        },
{
    match text {
        Ok(given) => parsed_body(parse_json(given.as_str())),
        Err(source) => Err(ClientError::BodyStdin { source }),
    }
}

/// [`read_body`], with the outcome of parsing the text as an argument.
pub fn parsed_body(parsed: Result<serde_json::Value, String>) -> (body: Result<
    serde_json::Value,
    ClientError,
>)
    ensures
        match parsed {
            Ok(value) => body == Ok::<serde_json::Value, ClientError>(value),
            Err(source) => body is Err && body->Err_0@ == (ClientErrorView::BodyNotJson {
                source: source@,
            }),
        },
{
    match parsed {
        Ok(value) => Ok(value),
        Err(source) => Err(ClientError::BodyNotJson { source }),
    }
}

/// What the caller asks to have sent.
#[derive(Debug)]
pub struct SendRequest {
    /// The name the client authenticates as.
    pub as_name: String,
    pub to: String,
    pub kind: String,
    pub correlation_id: Option<String>,
}

/// The contents of a [`SendRequest`].
pub struct SendRequestView {
    pub as_name: Seq<char>,
    pub to: Seq<char>,
    pub kind: Seq<char>,
    pub correlation_id: Option<Seq<char>>,
}

impl View for SendRequest {
    type V = SendRequestView;

    open spec fn view(&self) -> SendRequestView {
        SendRequestView {
            as_name: self.as_name@,
            to: self.to@,
            kind: self.kind@,
            correlation_id: text_option(self.correlation_id),
        }
    }
}

/// Whether `c` is a lowercase hexadecimal digit.
pub open spec fn lower_hex(c: char) -> bool {
    '0' <= c <= '9' || 'a' <= c <= 'f'
}

/// Whether `text` is a random (version 4) UUID in its hyphenated lowercase form.
pub open spec fn is_uuid_v4(text: Seq<char>) -> bool {
    &&& text.len() == 36
    &&& text[8] == '-' && text[13] == '-' && text[18] == '-' && text[23] == '-'
    &&& text[14] == '4'
    &&& text[19] == '8' || text[19] == '9' || text[19] == 'a' || text[19] == 'b'
    &&& forall|i: int|
        0 <= i < 36 && i != 8 && i != 13 && i != 18 && i != 23 ==> lower_hex(#[trigger] text[i])
}

/// Calls `uuid::Uuid::new_v4` and formats the result, hyphenated and lowercase. Its
/// digits are random, so only its shape is claimed; that two ids differ is not.
#[verifier::external_body]
fn fresh_id() -> (id: String)
    ensures
        is_uuid_v4(id@),
{
    uuid::Uuid::new_v4().to_string()
}

/// The envelope for a request, with a given id, timestamp and body.
pub open spec fn composed(
    request: SendRequestView,
    id: Seq<char>,
    ts: Seq<char>,
    body: serde_json::Value,
) -> EnvelopeView {
    EnvelopeView {
        id,
        from: request.as_name,
        to: request.to,
        ts,
        kind: request.kind,
        correlation_id: request.correlation_id,
        body,
    }
}

/// Assembles the envelope for a request from an id, a timestamp and a body.
pub fn compose_with(request: SendRequest, id: String, ts: String, body: serde_json::Value) -> (
envelope: Envelope)
    ensures
        envelope@ == composed(request@, id@, ts@, body),
        envelope.id@ == id@,
        envelope.from@ == request.as_name@,
        envelope.to@ == request.to@,
        envelope.ts@ == ts@,
        envelope.kind@ == request.kind@,
        envelope.correlation_id is Some <==> request.correlation_id is Some,
        envelope.correlation_id is Some ==> envelope.correlation_id->0@
            == request.correlation_id->0@,
        envelope.body == body,
{
    Envelope {
        id,
        from: request.as_name,
        to: request.to,
        ts,
        kind: request.kind,
        correlation_id: request.correlation_id,
        body,
    }
}

/// Assembles the envelope for a request: a fresh id, and the sender's clock at
/// `now_secs` seconds after the epoch. Up to the end of the year 9999 the timestamp
/// is one that the hub accepts.
pub fn compose(request: SendRequest, now_secs: i64, body: serde_json::Value) -> (envelope:
    Envelope)
    requires
        0 <= now_secs <= LAST_SECOND,
    ensures
        is_uuid_v4(envelope@.id),
        utc_seconds_text(now_secs as int) == Some(envelope@.ts),
        envelope@.ts.len() > 0 && envelope@.ts.last() == 'Z',
        now_secs <= LAST_RFC3339_SECOND ==> rfc3339_refusal(envelope@.ts) is None,
        envelope@ == composed(request@, envelope@.id, envelope@.ts, body),
        envelope.from@ == request.as_name@,
        envelope.to@ == request.to@,
        envelope.kind@ == request.kind@,
        envelope.correlation_id is Some <==> request.correlation_id is Some,
        envelope.correlation_id is Some ==> envelope.correlation_id->0@
            == request.correlation_id->0@,
        envelope.body == body,
{
    let ts = match render_utc_seconds(now_secs) {
        Some(ts) => ts,
        None => String::new(),
    };
    compose_with(request, fresh_id(), ts, body)
}

/// An envelope that the client assembles is valid exactly if the request names a
/// destination, a kind and, where it gives one, a correlation id.
pub proof fn lemma_composed_envelope_is_valid(
    request: SendRequestView,
    id: Seq<char>,
    ts: Seq<char>,
    body: serde_json::Value,
)
    requires
        is_uuid_v4(id),
        rfc3339_refusal(ts) is None,
    ensures
        composed(request, id, ts, body).defect() is None <==> {
            &&& request.to.len() > 0
            &&& request.kind.len() > 0
            &&& request.correlation_id != Some(Seq::<char>::empty())
        },
{
}

/// The hello line for `name`.
pub fn hello_line(name: &str, token: String) -> (line: ClientLine)
    ensures
        line@ == (ClientLineView::Hello { name: name@, token: token@ }),
{
    ClientLine::Hello { name: name.to_string(), token }
}

/// A newline after the token in its file does no harm: a client with the roster's
/// token authenticates with it and without it. The roster's token must not itself
/// end in whitespace.
pub proof fn lemma_token_file_authenticates(
    agents: Map<Seq<char>, Seq<char>>,
    name: Seq<char>,
    token: Seq<char>,
)
    requires
        agents.contains_key(name),
        agents[name] == token,
        token.len() > 0 ==> !white_space(token.last()),
    ensures
        auth_failure(agents, name, trimmed_end(token)) is None,
        auth_failure(agents, name, trimmed_end(token.push('\n'))) is None,
{
    lemma_trailing_newline_is_trimmed(token);
}

/// What came of waiting for the hub's reply.
#[derive(Debug)]
pub enum Reply {
    /// Reading failed.
    Failed(String),
    /// The hub closed the connection.
    Closed,
    /// A line came that is no server line.
    Malformed(WireError),
    Line(ServerLine),
}

/// The contents of a [`Reply`].
pub enum ReplyView {
    Failed(Seq<char>),
    Closed,
    Malformed(WireErrorView),
    Line(ServerLineView),
}

impl View for Reply {
    type V = ReplyView;

    open spec fn view(&self) -> ReplyView {
        match *self {
            Reply::Failed(source) => ReplyView::Failed(source@),
            Reply::Closed => ReplyView::Closed,
            Reply::Malformed(error) => ReplyView::Malformed(error@),
            Reply::Line(line) => ReplyView::Line(line@),
        }
    }
}

/// The line in a reply, or the error that stands in its place where `expected` was
/// due.
pub open spec fn line_in(expected: Seq<char>, reply: ReplyView) -> Result<
    ServerLineView,
    ClientErrorView,
> {
    match reply {
        ReplyView::Failed(source) => Err(ClientErrorView::SocketRead { source }),
        ReplyView::Closed => Err(ClientErrorView::HubClosed { expected }),
        ReplyView::Malformed(source) => Err(ClientErrorView::Wire { source }),
        ReplyView::Line(line) => Ok(line),
    }
}

/// Takes the line out of a reply; without one there is an error. `expected` names
/// the reply that was due.
pub fn read_reply(expected: &'static str, reply: Reply) -> (line: Result<
    ServerLine,
    ClientError,
>)
    ensures
        match line {
            Ok(received) => line_in(expected@, reply@) == Ok::<_, ClientErrorView>(received@),
            Err(error) => line_in(expected@, reply@) == Err::<ServerLineView, _>(error@),
        },
        match reply {
            Reply::Failed(source) => line is Err && line->Err_0@ == (ClientErrorView::SocketRead {
                source: source@,
            }),
            Reply::Closed => line is Err && line->Err_0@ == (ClientErrorView::HubClosed {
                expected: expected@,
            }),
            Reply::Malformed(source) => line is Err && line->Err_0@ == (ClientErrorView::Wire {
                source: source@,
            }),
            Reply::Line(received) => line is Ok && line->Ok_0@ == received@,
        },
{
    match reply {
        Reply::Failed(source) => Err(ClientError::SocketRead { source }),
        Reply::Closed => Err(ClientError::HubClosed { expected }),
        Reply::Malformed(source) => Err(ClientError::Wire { source }),
        Reply::Line(received) => Ok(received),
    }
}

/// The error that a line stands for where `expected` was due.
pub open spec fn unexpected(expected: Seq<char>, line: ServerLineView) -> ClientErrorView {
    match line {
        ServerLineView::Error { message } => ClientErrorView::Hub { message },
        other => ClientErrorView::UnexpectedReply { expected, got: kind_text(other) },
    }
}

/// Turns a line that was not the expected one into its error: the hub's own message,
/// or the two kinds of line that do not go together.
pub fn reply_error(expected: &'static str, line: ServerLine) -> (error: ClientError)
    ensures
        error@ == unexpected(expected@, line@),
        match line {
            ServerLine::Error { message } => error@ == (ClientErrorView::Hub { message: message@ }),
            ServerLine::Okay {  } => error@ == (ClientErrorView::UnexpectedReply {
                expected: expected@,
                got: "ok"@,
            }),
            ServerLine::Accepted { .. } => error@ == (ClientErrorView::UnexpectedReply {
                expected: expected@,
                got: "accepted"@,
            }),
            ServerLine::Envelope(_) => error@ == (ClientErrorView::UnexpectedReply {
                expected: expected@,
                got: "envelope"@,
            }),
            ServerLine::Timeout {  } => error@ == (ClientErrorView::UnexpectedReply {
                expected: expected@,
                got: "timeout"@,
            }),
        },
{
    match line {
        ServerLine::Error { message } => ClientError::Hub { message },
        other => ClientError::UnexpectedReply { expected, got: server_line_kind(&other) },
    }
}

/// What a successful run has to show.
#[derive(Debug)]
pub enum Outcome {
    /// This goes to stdout.
    Printed(String),
    /// The hub-side timeout elapsed.
    TimedOut,
}

/// The contents of an [`Outcome`].
pub enum OutcomeView {
    Printed(Seq<char>),
    TimedOut,
}

impl View for Outcome {
    type V = OutcomeView;

    open spec fn view(&self) -> OutcomeView {
        match *self {
            Outcome::Printed(text) => OutcomeView::Printed(text@),
            Outcome::TimedOut => OutcomeView::TimedOut,
        }
    }
}

/// The contents of the result of a run.
pub open spec fn result_view(result: Result<Outcome, ClientError>) -> Result<
    OutcomeView,
    ClientErrorView,
> {
    match result {
        Ok(outcome) => Ok(outcome@),
        Err(error) => Err(error@),
    }
}

/// What the hub's answer to a hello line means: verb mode, or an error.
pub fn greeted(line: ServerLine) -> (verdict: Result<(), ClientError>)
    ensures
        match line@ {
            ServerLineView::Okay {  } => verdict is Ok,
            other => verdict is Err && verdict->Err_0@ == unexpected("ok"@, other),
        },
{
    match line {
        ServerLine::Okay {  } => Ok(()),
        other => Err(reply_error("ok", other)),
    }
}

/// What the hub's answer to a send line means: the accepted envelope's id is the
/// receipt to print, or there is an error.
pub fn send_answered(line: ServerLine) -> (outcome: Result<Outcome, ClientError>)
    ensures
        match line@ {
            ServerLineView::Accepted { id } => outcome matches Ok(Outcome::Printed(text))
                && text@ == id.push('\n'),
            other => outcome is Err && outcome->Err_0@ == unexpected("accepted"@, other),
        },
{
    match line {
        ServerLine::Accepted { id } => Ok(Outcome::Printed(with_newline(id))),
        other => Err(reply_error("accepted", other)),
    }
}

/// What the hub's answer to an await line means: an envelope, the timeout (`None`),
/// or an error.
pub fn await_answered(line: ServerLine) -> (envelope: Result<Option<Envelope>, ClientError>)
    ensures
        match line@ {
            ServerLineView::Envelope(e) => envelope matches Ok(Some(got)) && got@ == e,
            ServerLineView::Timeout {  } => envelope matches Ok(None),
            other => envelope is Err && envelope->Err_0@ == unexpected(
                "envelope or timeout"@,
                other,
            ),
        },
{
    match line {
        ServerLine::Envelope(envelope) => Ok(Some(envelope)),
        ServerLine::Timeout {  } => Ok(None),
        other => Err(reply_error("envelope or timeout", other)),
    }
}

/// The outcome of a delivery, from the JSON text of the bare envelope.
pub fn delivered(serialized: Result<String, String>) -> (outcome: Result<Outcome, ClientError>)
    ensures
        match serialized {
            Ok(json) => outcome matches Ok(Outcome::Printed(text)) && text@ == json@.push('\n'),
            Err(source) => outcome is Err && outcome->Err_0@ == (ClientErrorView::Wire {
                source: WireErrorView::Serialize { source: source@ },
            }),
        },
{
    match to_jsonl(serialized) {
        Ok(line) => Ok(Outcome::Printed(line)),
        Err(source) => Err(ClientError::Wire { source }),
    }
}

/// What a finished run leaves behind.
#[derive(Debug)]
pub struct Report {
    pub exit_code: u8,
    pub stdout: String,
    pub stderr: String,
}

/// The contents of a [`Report`].
#[verifier::ext_equal]
pub struct ReportView {
    pub exit_code: u8,
    pub stdout: Seq<char>,
    pub stderr: Seq<char>,
}

impl View for Report {
    type V = ReportView;

    open spec fn view(&self) -> ReportView {
        ReportView { exit_code: self.exit_code, stdout: self.stdout@, stderr: self.stderr@ }
    }
}

/// What a failed run writes to stderr.
pub open spec fn failure_text(error: ClientErrorView) -> Seq<char> {
    ("agent-hub: "@ + error.text()).push('\n')
}

/// What a run with this result leaves behind: success prints and exits with zero, a
/// timeout has a code of its own, and a failure says why on stderr and prints
/// nothing.
pub open spec fn report_of(result: Result<OutcomeView, ClientErrorView>) -> ReportView {
    match result {
        Ok(OutcomeView::Printed(text)) => ReportView {
            exit_code: EXIT_SUCCESS,
            stdout: text,
            stderr: Seq::empty(),
        },
        Ok(OutcomeView::TimedOut) => ReportView {
            exit_code: EXIT_TIMEOUT,
            stdout: Seq::empty(),
            stderr: Seq::empty(),
        },
        Err(error) => ReportView {
            exit_code: EXIT_FAILURE,
            stdout: Seq::empty(),
            stderr: failure_text(error),
        },
    }
}

/// Closes a run.
pub fn report(result: Result<Outcome, ClientError>) -> (report: Report)
    ensures
        report@ == report_of(result_view(result)),
        match result {
            Ok(Outcome::Printed(text)) => {
                &&& report.exit_code == 0
                &&& report.stdout@ == text@
                &&& report.stderr@.len() == 0
            },
            Ok(Outcome::TimedOut) => {
                &&& report.exit_code == 2
                &&& report.stdout@.len() == 0
                &&& report.stderr@.len() == 0
            },
            Err(error) => {
                &&& report.exit_code == 1
                &&& report.stdout@.len() == 0
                &&& report.stderr@ == ("agent-hub: "@ + error@.text()).push('\n')
            },
        },
{
    match result {
        Ok(outcome) => match outcome {
            Outcome::Printed(text) => Report {
                exit_code: EXIT_SUCCESS,
                stdout: text,
                stderr: String::new(),
            },
            Outcome::TimedOut => Report {
                exit_code: EXIT_TIMEOUT,
                stdout: String::new(),
                stderr: String::new(),
            },
        },
        Err(error) => {
            let stderr = with_newline(prefixed("agent-hub: ", error.to_string().as_str()));
            Report { exit_code: EXIT_FAILURE, stdout: String::new(), stderr }
        },
    }
}

/// The exit code when the command line did not ask for a verb: asking for help or
/// the version is a success, anything else a failure, and never a timeout.
pub fn usage_exit_code(help_or_version: bool) -> (code: u8)
    ensures
        code == if help_or_version {
            EXIT_SUCCESS
        } else {
            EXIT_FAILURE
        },
        help_or_version ==> code == 0,
        !help_or_version ==> code == 1,
{
    if help_or_version {
        EXIT_SUCCESS
    } else {
        EXIT_FAILURE
    }
}

/// The hub's error message reaches the caller word for word, whichever reply was
/// due.
pub proof fn lemma_hub_errors_pass_through(expected: Seq<char>, message: Seq<char>)
    ensures
        failure_text(unexpected(expected, ServerLineView::Error { message })) == ("agent-hub: "@ + (
        "hub error: "@ + message)).push('\n'),
{
}

/// The contents of a request, of a reply and of a report leave nothing out.
pub proof fn lemma_contents_of_a_request(request: SendRequest, reply: Reply, report: Report)
    ensures
        request@.as_name == request.as_name@,
        request@.to == request.to@,
        request@.kind == request.kind@,
        request.correlation_id matches Some(id) ==> request@.correlation_id == Some(id@),
        request.correlation_id is None ==> request@.correlation_id is None,
        match reply {
            Reply::Failed(source) => reply@ == ReplyView::Failed(source@),
            Reply::Closed => reply@ == ReplyView::Closed,
            Reply::Malformed(error) => reply@ == ReplyView::Malformed(error@),
            Reply::Line(line) => reply@ == ReplyView::Line(line@),
        },
        report@.exit_code == report.exit_code,
        report@.stdout == report.stdout@,
        report@.stderr == report.stderr@,
{
}

/// An envelope that the client assembles has every field of the request, and the id,
/// the timestamp and the body it was assembled from.
pub proof fn lemma_composed_of_the_request(
    request: SendRequestView,
    id: Seq<char>,
    ts: Seq<char>,
    body: serde_json::Value,
)
    ensures
        composed(request, id, ts, body).id == id,
        composed(request, id, ts, body).from == request.as_name,
        composed(request, id, ts, body).to == request.to,
        composed(request, id, ts, body).ts == ts,
        composed(request, id, ts, body).kind == request.kind,
        composed(request, id, ts, body).correlation_id == request.correlation_id,
        composed(request, id, ts, body).body == body,
{
}

/// The exit code tells success, failure and timeout apart, and a caller that reads only
/// stdout sees something exactly on success.
pub proof fn lemma_exit_codes(result: Result<OutcomeView, ClientErrorView>)
    ensures
        report_of(result).exit_code == match result {
            Ok(OutcomeView::Printed(_)) => 0u8,
            Ok(OutcomeView::TimedOut) => 2u8,
            Err(_) => 1u8,
        },
        match result {
            Ok(OutcomeView::Printed(text)) => {
                &&& report_of(result).stdout == text
                &&& report_of(result).stderr.len() == 0
            },
            Ok(OutcomeView::TimedOut) => {
                &&& report_of(result).stdout.len() == 0
                &&& report_of(result).stderr.len() == 0
            },
            Err(error) => {
                &&& report_of(result).stdout.len() == 0
                &&& report_of(result).stderr == ("agent-hub: "@ + error.text()).push('\n')
            },
        },
{
}

/// What a failure says: the boundary that failed, then its cause in the words of
/// whoever knew it.
pub proof fn lemma_failures_name_boundary_and_cause(
    path: Seq<char>,
    source: Seq<char>,
    error: WireErrorView,
    expected: Seq<char>,
    got: Seq<char>,
)
    ensures
        (ClientErrorView::TokenFile { path, source }).text() == "cannot read token file "@ + path
            + ": "@ + source,
        (ClientErrorView::BodyStdin { source }).text() == "cannot read body from stdin: "@ + source,
        (ClientErrorView::BodyNotJson { source }).text() == "body is not valid JSON: "@ + source,
        (ClientErrorView::Connect { addr: path, source }).text() == "cannot connect to hub at "@
            + path + ": "@ + source,
        (ClientErrorView::Wire { source: error }).text() == error.text(),
        (ClientErrorView::SocketWrite { source }).text() == "cannot write to hub: "@ + source,
        (ClientErrorView::SocketRead { source }).text() == "cannot read hub reply: "@ + source,
        (ClientErrorView::HubClosed { expected }).text()
            == "hub closed the connection before replying (expected "@ + expected + ")"@,
        (ClientErrorView::Hub { message: source }).text() == "hub error: "@ + source,
        (ClientErrorView::UnexpectedReply { expected, got }).text()
            == "protocol violation: expected "@ + expected + ", hub sent "@ + got,
{
}

/// The contents of an error leave nothing out.
pub proof fn lemma_contents_of_a_client_error(error: ClientError)
    ensures
        match error {
            ClientError::TokenFile { path, source } => error@ == (ClientErrorView::TokenFile {
                path: path@,
                source: source@,
            }),
            ClientError::BodyStdin { source } => error@ == (ClientErrorView::BodyStdin {
                source: source@,
            }),
            ClientError::BodyNotJson { source } => error@ == (ClientErrorView::BodyNotJson {
                source: source@,
            }),
            ClientError::Connect { addr, source } => error@ == (ClientErrorView::Connect {
                addr: addr@,
                source: source@,
            }),
            ClientError::Wire { source } => error@ == (ClientErrorView::Wire { source: source@ }),
            ClientError::SocketWrite { source } => error@ == (ClientErrorView::SocketWrite {
                source: source@,
            }),
            ClientError::SocketRead { source } => error@ == (ClientErrorView::SocketRead {
                source: source@,
            }),
            ClientError::HubClosed { expected } => error@ == (ClientErrorView::HubClosed {
                expected: expected@,
            }),
            ClientError::Hub { message } => error@ == (ClientErrorView::Hub { message: message@ }),
            ClientError::UnexpectedReply { expected, got } => error@ == (ClientErrorView::UnexpectedReply {
                expected: expected@,
                got: got@,
            }),
        },
{
}

} // verus!
