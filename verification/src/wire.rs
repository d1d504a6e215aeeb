//! Wire lines and their framing.
//!
//! Every protocol line is one externally tagged JSON object followed by a newline.
//! Client and server share these types.

use vstd::prelude::*;
use vstd::string::*;

use crate::envelope::{text_option, Envelope, EnvelopeView};
use crate::text::{decimal, decimal_text, prefixed, with_newline};

verus! {

/// Lines a client may send. `Hello` comes first; exactly one verb line follows.
#[derive(Debug)]
pub enum ClientLine {
    /// Asserted name, and the token that must match its roster entry.
    Hello { name: String, token: String },
    /// Submit one envelope for validation and routing.
    Send(Envelope),
    /// Block until one matching envelope is available.
    Await {
        /// `Some(id)` takes only envelopes whose `correlationId` equals `id`.
        reply_to: Option<String>,
        /// `Some(kind)` takes only envelopes of that kind.
        kind: Option<String>,
        /// The timeout, enforced by the hub; `None` blocks indefinitely.
        timeout_secs: Option<u64>,
    },
}

/// The contents of a [`ClientLine`].
pub enum ClientLineView {
    Hello { name: Seq<char>, token: Seq<char> },
    Send(EnvelopeView),
    Await { reply_to: Option<Seq<char>>, kind: Option<Seq<char>>, timeout_secs: Option<u64> },
}

impl View for ClientLine {
    type V = ClientLineView;

    open spec fn view(&self) -> ClientLineView {
        match *self {
            ClientLine::Hello { name, token } => ClientLineView::Hello {
                name: name@,
                token: token@,
            },
            ClientLine::Send(envelope) => ClientLineView::Send(envelope@),
            ClientLine::Await { reply_to, kind, timeout_secs } => ClientLineView::Await {
                reply_to: text_option(reply_to),
                kind: text_option(kind),
                timeout_secs,
            },
        }
    }
}

/// Lines the hub may send.
#[derive(Debug)]
pub enum ServerLine {
    /// Hello succeeded; the connection is in verb mode. Tagged `ok` on the wire.
    Okay {},
    /// Auth, validation or protocol failure, with its specific cause.
    Error { message: String },
    /// The envelope with this id is accepted: queued or handed over.
    Accepted { id: String },
    /// A delivered envelope, answering an `await`.
    Envelope(Envelope),
    /// The hub-side timeout of an `await`: nothing was consumed.
    Timeout {},
}

/// The contents of a [`ServerLine`].
pub enum ServerLineView {
    Okay {},
    Error { message: Seq<char> },
    Accepted { id: Seq<char> },
    Envelope(EnvelopeView),
    Timeout {},
}

impl View for ServerLine {
    type V = ServerLineView;

    open spec fn view(&self) -> ServerLineView {
        match *self {
            ServerLine::Okay {  } => ServerLineView::Okay {  },
            ServerLine::Error { message } => ServerLineView::Error { message: message@ },
            ServerLine::Accepted { id } => ServerLineView::Accepted { id: id@ },
            ServerLine::Envelope(envelope) => ServerLineView::Envelope(envelope@),
            ServerLine::Timeout {  } => ServerLineView::Timeout {  },
        }
    }
}

/// What kind of fault the parser found in a line.
#[derive(Debug, Clone, Copy, PartialEq, Eq, Structural)]
pub enum WireFault {
    /// The text could not be read.
    Io,
    /// The text is not JSON.
    Syntax,
    /// The JSON is no line of the expected type.
    Data,
    /// The text ends within a JSON value.
    Eof,
}

/// What is wrong with a line that could not be parsed. The causes are the fixed
/// messages of the JSON parser, none of which quotes anything of the line, and one
/// each for faults whose message may: those have no message here.
#[derive(Debug, Clone, Copy, PartialEq, Eq, Structural)]
pub enum WireCause {
    UnendedList,
    UnendedObject,
    UnendedString,
    UnendedValue,
    ExpectedColon,
    ExpectedListCommaOrEnd,
    ExpectedObjectCommaOrEnd,
    ExpectedIdent,
    ExpectedValue,
    ExpectedDoubleQuote,
    InvalidEscape,
    InvalidNumber,
    NumberOutOfRange,
    InvalidCodePoint,
    ControlCharacter,
    KeyNotAString,
    KeyNotANumber,
    KeyNotFinite,
    LoneSurrogate,
    TrailingComma,
    TrailingCharacters,
    UnendedHexEscape,
    TooDeep,
    /// The text could not be read.
    Unreadable,
    /// A syntax fault with a message that is not among those above.
    NotJson,
    /// JSON, but no line of the expected type.
    NoSuchLine,
    /// An early end with a message that is not among those above.
    CutShort,
}

/// The causes that have a message of the JSON parser.
pub open spec fn specific_causes() -> Seq<WireCause> {
    seq![
        WireCause::UnendedList,
        WireCause::UnendedObject,
        WireCause::UnendedString,
        WireCause::UnendedValue,
        WireCause::ExpectedColon,
        WireCause::ExpectedListCommaOrEnd,
        WireCause::ExpectedObjectCommaOrEnd,
        WireCause::ExpectedIdent,
        WireCause::ExpectedValue,
        WireCause::ExpectedDoubleQuote,
        WireCause::InvalidEscape,
        WireCause::InvalidNumber,
        WireCause::NumberOutOfRange,
        WireCause::InvalidCodePoint,
        WireCause::ControlCharacter,
        WireCause::KeyNotAString,
        WireCause::KeyNotANumber,
        WireCause::KeyNotFinite,
        WireCause::LoneSurrogate,
        WireCause::TrailingComma,
        WireCause::TrailingCharacters,
        WireCause::UnendedHexEscape,
        WireCause::TooDeep,
    ]
}

/// A message with the place of the fault; line zero stands for no place.
pub open spec fn located(message: Seq<char>, line: nat, column: nat) -> Seq<char> {
    if line == 0 {
        message
    } else {
        message + " at line "@ + decimal_text(line) + " column "@ + decimal_text(column)
    }
}

/// The first of `causes` whose message, with the place, is `message`.
pub open spec fn cause_among(
    causes: Seq<WireCause>,
    message: Seq<char>,
    line: nat,
    column: nat,
) -> Option<WireCause>
    decreases causes.len(),
{
    if causes.len() == 0 {
        None
    } else if located(causes[0].text(), line, column) == message {
        Some(causes[0])
    } else {
        cause_among(causes.drop_first(), message, line, column)
    }
}

/// The cause for a kind of fault with the parser's message, which ends in the place.
/// Of a fault in the data the message is never looked at: it may quote the line.
pub open spec fn cause_of(fault: WireFault, message: Seq<char>, line: nat, column: nat) -> WireCause {
    match fault {
        WireFault::Io => WireCause::Unreadable,
        WireFault::Data => WireCause::NoSuchLine,
        WireFault::Syntax => match cause_among(specific_causes(), message, line, column) {
            Some(cause) => cause,
            None => WireCause::NotJson,
        },
        WireFault::Eof => match cause_among(specific_causes(), message, line, column) {
            Some(cause) => cause,
            None => WireCause::CutShort,
        },
    }
}

impl WireCause {
    /// The cause in words.
    pub open spec fn text(self) -> Seq<char> {
        match self {
            WireCause::UnendedList => "EOF while parsing a list"@,
            WireCause::UnendedObject => "EOF while parsing an object"@,
            WireCause::UnendedString => "EOF while parsing a string"@,
            WireCause::UnendedValue => "EOF while parsing a value"@,
            WireCause::ExpectedColon => "expected `:`"@,
            WireCause::ExpectedListCommaOrEnd => "expected `,` or `]`"@,
            WireCause::ExpectedObjectCommaOrEnd => "expected `,` or `}`"@,
            WireCause::ExpectedIdent => "expected ident"@,
            WireCause::ExpectedValue => "expected value"@,
            WireCause::ExpectedDoubleQuote => "expected `\"`"@,
            WireCause::InvalidEscape => "invalid escape"@,
            WireCause::InvalidNumber => "invalid number"@,
            WireCause::NumberOutOfRange => "number out of range"@,
            WireCause::InvalidCodePoint => "invalid unicode code point"@,
            WireCause::ControlCharacter => "control character (\\u0000-\\u001F) found while parsing a string"@,
            WireCause::KeyNotAString => "key must be a string"@,
            WireCause::KeyNotANumber => "invalid value: expected key to be a number in quotes"@,
            WireCause::KeyNotFinite => "float key must be finite (got NaN or +/-inf)"@,
            WireCause::LoneSurrogate => "lone leading surrogate in hex escape"@,
            WireCause::TrailingComma => "trailing comma"@,
            WireCause::TrailingCharacters => "trailing characters"@,
            WireCause::UnendedHexEscape => "unexpected end of hex escape"@,
            WireCause::TooDeep => "recursion limit exceeded"@,
            WireCause::Unreadable => "unreadable text"@,
            WireCause::NotJson => "not JSON"@,
            WireCause::NoSuchLine => "not a line of this protocol"@,
            WireCause::CutShort => "cut short"@,
        }
    }

    /// The cause in words.
    pub fn as_str(&self) -> (text: &'static str)
        ensures
            text@ == self.text(),
            text@ == match self {
                WireCause::UnendedList => "EOF while parsing a list"@,
                WireCause::UnendedObject => "EOF while parsing an object"@,
                WireCause::UnendedString => "EOF while parsing a string"@,
                WireCause::UnendedValue => "EOF while parsing a value"@,
                WireCause::ExpectedColon => "expected `:`"@,
                WireCause::ExpectedListCommaOrEnd => "expected `,` or `]`"@,
                WireCause::ExpectedObjectCommaOrEnd => "expected `,` or `}`"@,
                WireCause::ExpectedIdent => "expected ident"@,
                WireCause::ExpectedValue => "expected value"@,
                WireCause::ExpectedDoubleQuote => "expected `\"`"@,
                WireCause::InvalidEscape => "invalid escape"@,
                WireCause::InvalidNumber => "invalid number"@,
                WireCause::NumberOutOfRange => "number out of range"@,
                WireCause::InvalidCodePoint => "invalid unicode code point"@,
                WireCause::ControlCharacter => "control character (\\u0000-\\u001F) found while parsing a string"@,
                WireCause::KeyNotAString => "key must be a string"@,
                WireCause::KeyNotANumber => "invalid value: expected key to be a number in quotes"@,
                WireCause::KeyNotFinite => "float key must be finite (got NaN or +/-inf)"@,
                WireCause::LoneSurrogate => "lone leading surrogate in hex escape"@,
                WireCause::TrailingComma => "trailing comma"@,
                WireCause::TrailingCharacters => "trailing characters"@,
                WireCause::UnendedHexEscape => "unexpected end of hex escape"@,
                WireCause::TooDeep => "recursion limit exceeded"@,
                WireCause::Unreadable => "unreadable text"@,
                WireCause::NotJson => "not JSON"@,
                WireCause::NoSuchLine => "not a line of this protocol"@,
                WireCause::CutShort => "cut short"@,
            },
    {
        match self {
            WireCause::UnendedList => "EOF while parsing a list",
            WireCause::UnendedObject => "EOF while parsing an object",
            WireCause::UnendedString => "EOF while parsing a string",
            WireCause::UnendedValue => "EOF while parsing a value",
            WireCause::ExpectedColon => "expected `:`",
            WireCause::ExpectedListCommaOrEnd => "expected `,` or `]`",
            WireCause::ExpectedObjectCommaOrEnd => "expected `,` or `}`",
            WireCause::ExpectedIdent => "expected ident",
            WireCause::ExpectedValue => "expected value",
            WireCause::ExpectedDoubleQuote => "expected `\"`",
            WireCause::InvalidEscape => "invalid escape",
            WireCause::InvalidNumber => "invalid number",
            WireCause::NumberOutOfRange => "number out of range",
            WireCause::InvalidCodePoint => "invalid unicode code point",
            WireCause::ControlCharacter => "control character (\\u0000-\\u001F) found while parsing a string",
            WireCause::KeyNotAString => "key must be a string",
            WireCause::KeyNotANumber => "invalid value: expected key to be a number in quotes",
            WireCause::KeyNotFinite => "float key must be finite (got NaN or +/-inf)",
            WireCause::LoneSurrogate => "lone leading surrogate in hex escape",
            WireCause::TrailingComma => "trailing comma",
            WireCause::TrailingCharacters => "trailing characters",
            WireCause::UnendedHexEscape => "unexpected end of hex escape",
            WireCause::TooDeep => "recursion limit exceeded",
            WireCause::Unreadable => "unreadable text",
            WireCause::NotJson => "not JSON",
            WireCause::NoSuchLine => "not a line of this protocol",
            WireCause::CutShort => "cut short",
        }
    }

    /// Finds the cause for a kind of fault, from the parser's message and the place
    /// it ends in.
    pub fn identify(fault: WireFault, message: &str, line: usize, column: usize) -> (cause:
        WireCause)
        ensures
            cause == cause_of(fault, message@, line as nat, column as nat),
    {
        match fault {
            WireFault::Io => WireCause::Unreadable,
            WireFault::Data => WireCause::NoSuchLine,
            WireFault::Syntax => match Self::find(message, line, column) {
                Some(cause) => cause,
                None => WireCause::NotJson,
            },
            WireFault::Eof => match Self::find(message, line, column) {
                Some(cause) => cause,
                None => WireCause::CutShort,
            },
        }
    }

    fn find(message: &str, line: usize, column: usize) -> (found: Option<WireCause>)
        ensures
            found == cause_among(specific_causes(), message@, line as nat, column as nat),
    {
        let causes: Vec<WireCause> = vec![
            WireCause::UnendedList,
            WireCause::UnendedObject,
            WireCause::UnendedString,
            WireCause::UnendedValue,
            WireCause::ExpectedColon,
            WireCause::ExpectedListCommaOrEnd,
            WireCause::ExpectedObjectCommaOrEnd,
            WireCause::ExpectedIdent,
            WireCause::ExpectedValue,
            WireCause::ExpectedDoubleQuote,
            WireCause::InvalidEscape,
            WireCause::InvalidNumber,
            WireCause::NumberOutOfRange,
            WireCause::InvalidCodePoint,
            WireCause::ControlCharacter,
            WireCause::KeyNotAString,
            WireCause::KeyNotANumber,
            WireCause::KeyNotFinite,
            WireCause::LoneSurrogate,
            WireCause::TrailingComma,
            WireCause::TrailingCharacters,
            WireCause::UnendedHexEscape,
            WireCause::TooDeep,
        ];
        let ghost all = causes@;
        assert(all =~= specific_causes());
        let wanted = message.to_string();
        let mut i: usize = 0;
        assert(all.skip(0) =~= all);
        while i < causes.len()
            invariant
                i <= causes@.len(),
                all == causes@,
                all == specific_causes(),
                wanted@ == message@,
                cause_among(all.skip(i as int), message@, line as nat, column as nat)
                    == cause_among(all, message@, line as nat, column as nat),
            decreases causes@.len() - i,
        {
            assert(all.skip(i as int)[0] == all[i as int]);
            assert(all.skip(i as int).drop_first() =~= all.skip(i + 1));
            if place_in(causes[i].as_str(), line, column) == wanted {
                return Some(causes[i]);
            }
            i = i + 1;
        }
        None
    }
}

/// Adds the place to a message.
fn place_in(message: &str, line: usize, column: usize) -> (text: String)
    ensures
        text@ == located(message@, line as nat, column as nat),
{
    let mut text = message.to_string();
    if line > 0 {
        text.append(" at line ");
        text.append(decimal(line).as_str());
        text.append(" column ");
        text.append(decimal(column).as_str());
    }
    text
}

/// Why a wire line failed to serialize or parse. Of a line that was received only
/// the cause and its place are kept, never any of its text: a hello line holds a
/// token, and the error is logged and echoed to the peer.
#[derive(Debug)]
pub enum WireError {
    /// A line value could not be serialized.
    Serialize { source: String },
    /// A received line is not JSON of the expected line type.
    Parse { cause: WireCause, line: usize, column: usize },
}

/// The contents of a [`WireError`].
pub enum WireErrorView {
    Serialize { source: Seq<char> },
    Parse { cause: WireCause, line: nat, column: nat },
}

impl View for WireError {
    type V = WireErrorView;

    open spec fn view(&self) -> WireErrorView {
        match *self {
            WireError::Serialize { source } => WireErrorView::Serialize { source: source@ },
            WireError::Parse { cause, line, column } => WireErrorView::Parse {
                cause,
                line: line as nat,
                column: column as nat,
            },
        }
    }
}

impl WireErrorView {
    /// Tells the hub's own serialization failures from a peer's malformed lines.
    pub open spec fn text(self) -> Seq<char> {
        match self {
            WireErrorView::Serialize { source } => "cannot serialize wire line: "@ + source,
            WireErrorView::Parse { cause, line, column } => "invalid wire line: "@ + located(
                cause.text(),
                line,
                column,
            ),
        }
    }
}

impl WireError {
    /// Renders the error for log lines and client error lines.
    pub fn to_string(&self) -> (text: String)
        ensures
            text@ == self@.text(),
            match self {
                WireError::Serialize { source } => text@ == "cannot serialize wire line: "@
                    + source@,
                WireError::Parse { cause, line, column } => {
                    &&& *line == 0 ==> text@ == "invalid wire line: "@ + cause.text()
                    &&& *line > 0 ==> text@ == "invalid wire line: "@ + (cause.text()
                        + " at line "@ + decimal_text(*line as nat) + " column "@ + decimal_text(
                        *column as nat,
                    ))
                },
            },
    {
        match self {
            WireError::Serialize { source } => prefixed(
                "cannot serialize wire line: ",
                source.as_str(),
            ),
            WireError::Parse { cause, line, column } => prefixed(
                "invalid wire line: ",
                place_in(cause.as_str(), *line, *column).as_str(),
            ),
        }
    }
}

/// Whether a line has one newline, at its end.
pub open spec fn is_one_line(line: Seq<char>) -> bool {
    &&& line.len() > 0
    &&& forall|i: int| 0 <= i < line.len() ==> (#[trigger] line[i] == '\n' <==> i == line.len() - 1)
}

/// Frames the JSON text of one wire value as a line, trailing newline included. JSON
/// text without raw newlines gives exactly one line.
pub fn to_jsonl(serialized: Result<String, String>) -> (line: Result<String, WireError>)
    ensures
        match serialized {
            Ok(json) => {
                &&& line is Ok
                &&& line->Ok_0@ == json@.push('\n')
                &&& !json@.contains('\n') ==> is_one_line(line->Ok_0@)
            },
            Err(source) => line is Err && line->Err_0@ == (WireErrorView::Serialize {
                source: source@,
            }),
        },
{
    match serialized {
        Ok(json) => {
            let ghost text = json@;
            let line = with_newline(json);
            proof {
                assert forall|i: int|
                    !text.contains('\n') && 0 <= i < line@.len() implies (#[trigger] line@[i] == '\n'
                    <==> i == line@.len() - 1) by {
                    if i < text.len() {
                        assert(text.contains(text[i]));
                    }
                }
            }
            Ok(line)
        },
        Err(source) => Err(WireError::Serialize { source }),
    }
}

/// A line without the newline at its end, if it has one.
pub open spec fn unframed(line: Seq<char>) -> Seq<char> {
    if line.len() > 0 && line.last() == '\n' {
        line.drop_last()
    } else {
        line
    }
}

/// The text of a received line that goes to the parser: the line without its
/// trailing newline.
pub fn json_text(line: &str) -> (json: String)
    ensures
        json@ == unframed(line@),
        line@.len() > 0 && line@.last() == '\n' ==> line@ == json@.push('\n'),
        line@.len() == 0 || line@.last() != '\n' ==> json@ == line@,
{
    let length: usize = line.unicode_len();
    if length > 0 && line.get_char(length - 1) == '\n' {
        let json = line.substring_char(0, length - 1).to_string();
        assert(json@ =~= line@.drop_last());
        assert(line@ =~= json@.push('\n'));
        json
    } else {
        line.to_string()
    }
}

/// Decides on a received line once it has been parsed, or could not be; of a failure
/// the cause and its place are known. Every failure is the peer's.
pub fn from_jsonl<T>(parsed: Result<T, (WireCause, usize, usize)>) -> (value: Result<T, WireError>)
    ensures
        match parsed {
            Ok(v) => value == Ok::<T, WireError>(v),
            Err((cause, line, column)) => value is Err && value->Err_0@ == (WireErrorView::Parse {
                cause,
                line: line as nat,
                column: column as nat,
            }),
        },
{
    match parsed {
        Ok(v) => Ok(v),
        Err((cause, line, column)) => Err(WireError::Parse { cause, line, column }),
    }
}

/// A syntax fault keeps the parser's own words: whatever the cause and the place, its
/// message comes back as it was.
pub proof fn lemma_syntax_messages_are_kept(index: int, line: nat, column: nat)
    requires
        0 <= index < specific_causes().len(),
    ensures
        ({
            let message = located(specific_causes()[index].text(), line, column);
            let cause = cause_of(WireFault::Syntax, message, line, column);
            (WireErrorView::Parse { cause, line, column }).text() == "invalid wire line: "@ + message
        }),
{
    let message = located(specific_causes()[index].text(), line, column);
    lemma_cause_among(specific_causes(), message, line, column, index);
}

proof fn lemma_cause_among(
    causes: Seq<WireCause>,
    message: Seq<char>,
    line: nat,
    column: nat,
    index: int,
)
    requires
        0 <= index < causes.len(),
        located(causes[index].text(), line, column) == message,
    ensures
        cause_among(causes, message, line, column) matches Some(cause) && located(
            cause.text(),
            line,
            column,
        ) == message,
    decreases causes.len(),
{
    if located(causes[0].text(), line, column) != message {
        lemma_cause_among(causes.drop_first(), message, line, column, index - 1);
    }
}

/// A fault in the data tells nothing of the line: whatever the parser said of it, the
/// error is the same.
pub proof fn lemma_data_messages_are_cut(
    message: Seq<char>,
    other: Seq<char>,
    line: nat,
    column: nat,
)
    ensures
        cause_of(WireFault::Data, message, line, column) == cause_of(
            WireFault::Data,
            other,
            line,
            column,
        ),
{
}

/// A line means the same with and without its trailing newline: the parser is given
/// the same text.
pub proof fn lemma_trailing_newline_changes_nothing(line: Seq<char>)
    requires
        line.len() > 0 ==> line.last() != '\n',
    ensures
        unframed(line.push('\n')) == unframed(line),
        unframed(line) == line,
{
    assert(line.push('\n').drop_last() =~= line);
}

/// What the parser is given of a framed line is the JSON text that was framed,
/// whatever that text is.
pub proof fn lemma_framing_is_undone(json: Seq<char>)
    ensures
        unframed(json.push('\n')) == json,
{
    assert(json.push('\n').drop_last() =~= json);
}

/// The verb of a client line.
pub open spec fn verb_text(line: ClientLineView) -> Seq<char> {
    match line {
        ClientLineView::Hello { .. } => "hello"@,
        ClientLineView::Send(_) => "send"@,
        ClientLineView::Await { .. } => "await"@,
    }
}

/// Names a client line's verb for diagnostics, without its payload.
pub fn client_verb(line: &ClientLine) -> (verb: &'static str)
    ensures
        verb@ == verb_text(line@),
        line is Hello ==> verb@ == "hello"@,
        line is Send ==> verb@ == "send"@,
        line is Await ==> verb@ == "await"@,
{
    match line {
        ClientLine::Hello { .. } => "hello",
        ClientLine::Send(_) => "send",
        ClientLine::Await { .. } => "await",
    }
}

/// The kind of a server line.
pub open spec fn kind_text(line: ServerLineView) -> Seq<char> {
    match line {
        ServerLineView::Okay {  } => "ok"@,
        ServerLineView::Error { .. } => "error"@,
        ServerLineView::Accepted { .. } => "accepted"@,
        ServerLineView::Envelope(_) => "envelope"@,
        ServerLineView::Timeout {  } => "timeout"@,
    }
}

/// Names a server line for diagnostics, without its payload.
pub fn server_line_kind(line: &ServerLine) -> (kind: &'static str)
    ensures
        kind@ == kind_text(line@),
        line is Okay ==> kind@ == "ok"@,
        line is Error ==> kind@ == "error"@,
        line is Accepted ==> kind@ == "accepted"@,
        line is Envelope ==> kind@ == "envelope"@,
        line is Timeout ==> kind@ == "timeout"@,
{
    match line {
        ServerLine::Okay {  } => "ok",
        ServerLine::Error { .. } => "error",
        ServerLine::Accepted { .. } => "accepted",
        ServerLine::Envelope(_) => "envelope",
        ServerLine::Timeout {  } => "timeout",
    }
}

/// The contents of a line leave nothing out.
pub proof fn lemma_contents_of_lines(line: ClientLine, answer: ServerLine)
    ensures
        match line {
            ClientLine::Hello { name, token } => line@ == (ClientLineView::Hello {
                name: name@,
                token: token@,
            }),
            ClientLine::Send(envelope) => line@ == ClientLineView::Send(envelope@),
            ClientLine::Await { reply_to, kind, timeout_secs } => {
                &&& line@ matches ClientLineView::Await { reply_to: r, kind: k, timeout_secs: t }
                &&& reply_to matches Some(id) ==> r == Some(id@)
                &&& reply_to is None ==> r is None
                &&& kind matches Some(wanted) ==> k == Some(wanted@)
                &&& kind is None ==> k is None
                &&& t == timeout_secs
            },
        },
        match answer {
            ServerLine::Okay {  } => answer@ == (ServerLineView::Okay {  }),
            ServerLine::Error { message } => answer@ == (ServerLineView::Error {
                message: message@,
            }),
            ServerLine::Accepted { id } => answer@ == (ServerLineView::Accepted { id: id@ }),
            ServerLine::Envelope(envelope) => answer@ == ServerLineView::Envelope(envelope@),
            ServerLine::Timeout {  } => answer@ == (ServerLineView::Timeout {  }),
        },
{
}

/// A place is told in full, and only where there is one.
pub proof fn lemma_places_are_told(message: Seq<char>, line: nat, column: nat)
    ensures
        located(message, 0, column) == message,
        line > 0 ==> located(message, line, column) == message + " at line "@ + decimal_text(line)
            + " column "@ + decimal_text(column),
{
}

/// Every fixed message of the parser is known, whatever the place: an error that stands
/// for a syntax fault or an early end says what the parser said. A message that is not
/// known is not repeated, and the cause found for one that is says the same.
pub proof fn lemma_known_messages_are_kept(
    cause: WireCause,
    message: Seq<char>,
    line: nat,
    column: nat,
)
    ensures
        cause != WireCause::Unreadable && cause != WireCause::NotJson && cause
            != WireCause::NoSuchLine && cause != WireCause::CutShort && message == located(
            cause.text(),
            line,
            column,
        ) ==> {
            &&& located(
                cause_of(WireFault::Syntax, message, line, column).text(),
                line,
                column,
            ) == message
            &&& located(
                cause_of(WireFault::Eof, message, line, column).text(),
                line,
                column,
            ) == message
        },
        ({
            let syntax = cause_of(WireFault::Syntax, message, line, column);
            let eof = cause_of(WireFault::Eof, message, line, column);
            &&& syntax == WireCause::NotJson || located(syntax.text(), line, column) == message
            &&& eof == WireCause::CutShort || located(eof.text(), line, column) == message
        }),
        cause_of(WireFault::Io, message, line, column) == WireCause::Unreadable,
        cause_of(WireFault::Data, message, line, column) == WireCause::NoSuchLine,
{
    let causes = specific_causes();
    lemma_found_cause_fits(causes, message, line, column);
    if cause != WireCause::Unreadable && cause != WireCause::NotJson && cause
        != WireCause::NoSuchLine && cause != WireCause::CutShort && message == located(
        cause.text(),
        line,
        column,
    ) {
        let index = match cause {
            WireCause::UnendedList => 0int,
            WireCause::UnendedObject => 1,
            WireCause::UnendedString => 2,
            WireCause::UnendedValue => 3,
            WireCause::ExpectedColon => 4,
            WireCause::ExpectedListCommaOrEnd => 5,
            WireCause::ExpectedObjectCommaOrEnd => 6,
            WireCause::ExpectedIdent => 7,
            WireCause::ExpectedValue => 8,
            WireCause::ExpectedDoubleQuote => 9,
            WireCause::InvalidEscape => 10,
            WireCause::InvalidNumber => 11,
            WireCause::NumberOutOfRange => 12,
            WireCause::InvalidCodePoint => 13,
            WireCause::ControlCharacter => 14,
            WireCause::KeyNotAString => 15,
            WireCause::KeyNotANumber => 16,
            WireCause::KeyNotFinite => 17,
            WireCause::LoneSurrogate => 18,
            WireCause::TrailingComma => 19,
            WireCause::TrailingCharacters => 20,
            WireCause::UnendedHexEscape => 21,
            _ => 22,
        };
        assert(causes[index] == cause);
        lemma_cause_among(causes, message, line, column, index);
    }
}

proof fn lemma_found_cause_fits(
    causes: Seq<WireCause>,
    message: Seq<char>,
    line: nat,
    column: nat,
)
    ensures
        cause_among(causes, message, line, column) matches Some(cause) ==> located(
            cause.text(),
            line,
            column,
        ) == message,
    decreases causes.len(),
{
    if causes.len() > 0 {
        lemma_found_cause_fits(causes.drop_first(), message, line, column);
    }
}

/// The contents of an error leave nothing out.
pub proof fn lemma_contents_of_a_wire_error(error: WireError)
    ensures
        match error {
            WireError::Serialize { source } => error@ == (WireErrorView::Serialize {
                source: source@,
            }),
            WireError::Parse { cause, line, column } => error@ == (WireErrorView::Parse {
                cause,
                line: line as nat,
                column: column as nat,
            }),
        },
{
}

} // verus!
