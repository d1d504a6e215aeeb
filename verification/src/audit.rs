//! Audit log: the hub-owned, append-only record of protocol events, one JSON
//! object per line. Its append order is the authoritative order of events.

use vstd::prelude::*;
use vstd::string::*;

use crate::envelope::{Envelope, EnvelopeView};
use crate::text::{lemma_appended_line, lines_of, prefixed, with_newline};
use crate::timestamp::Timestamp;

verus! {

/// One protocol event. `ts` is the hub's clock and informational.
#[derive(Debug)]
pub enum AuditEvent {
    /// A TCP connection was accepted, before any authentication.
    Connection { ts: Timestamp, peer: String },
    /// A hello line failed verification. Never holds the presented token.
    AuthFailure { ts: Timestamp, peer: String, name: String, reason: AuthFailureReason },
    /// An envelope was accepted: validated and stamped. Held in full.
    Accepted { ts: Timestamp, envelope: Envelope },
    /// An envelope was written to a matched `await` client.
    Delivery { ts: Timestamp, id: String, to: String, peer: String },
}

/// The contents of an [`AuditEvent`].
pub enum AuditEventView {
    Connection { ts: Timestamp, peer: Seq<char> },
    AuthFailure { ts: Timestamp, peer: Seq<char>, name: Seq<char>, reason: AuthFailureReason },
    Accepted { ts: Timestamp, envelope: EnvelopeView },
    Delivery { ts: Timestamp, id: Seq<char>, to: Seq<char>, peer: Seq<char> },
}

impl View for AuditEvent {
    type V = AuditEventView;

    open spec fn view(&self) -> AuditEventView {
        match *self {
            AuditEvent::Connection { ts, peer } => AuditEventView::Connection { ts, peer: peer@ },
            AuditEvent::AuthFailure { ts, peer, name, reason } => AuditEventView::AuthFailure {
                ts,
                peer: peer@,
                name: name@,
                reason,
            },
            AuditEvent::Accepted { ts, envelope } => AuditEventView::Accepted {
                ts,
                envelope: envelope@,
            },
            AuditEvent::Delivery { ts, id, to, peer } => AuditEventView::Delivery {
                ts,
                id: id@,
                to: to@,
                peer: peer@,
            },
        }
    }
}

/// Why authentication failed.
#[derive(Debug, Clone, Copy, PartialEq, Eq, Structural)]
pub enum AuthFailureReason {
    /// The asserted name has no roster entry.
    UnknownName,
    /// The roster knows the name but the presented token does not match.
    TokenMismatch,
}

impl AuthFailureReason {
    /// The text for log lines and client error lines.
    pub open spec fn text(self) -> Seq<char> {
        match self {
            AuthFailureReason::UnknownName => "unknown agent name"@,
            AuthFailureReason::TokenMismatch => "token mismatch"@,
        }
    }

    /// Renders the reason for log lines and client error lines.
    pub fn to_string(&self) -> (text: String)
        ensures
            text@ == self.text(),
            self is UnknownName ==> text@ == "unknown agent name"@,
            self is TokenMismatch ==> text@ == "token mismatch"@,
    {
        match self {
            AuthFailureReason::UnknownName => "unknown agent name".to_string(),
            AuthFailureReason::TokenMismatch => "token mismatch".to_string(),
        }
    }
}

/// Why an audit-log operation failed.
#[derive(Debug)]
pub enum AuditError {
    /// The audit file could not be opened for append.
    Open { path: String, source: String },
    /// An event could not be serialized.
    Serialize { source: String },
    /// Appending a serialized line to the file failed.
    Write { path: String, source: String },
}

/// The contents of an [`AuditError`].
pub enum AuditErrorView {
    Open { path: Seq<char>, source: Seq<char> },
    Serialize { source: Seq<char> },
    Write { path: Seq<char>, source: Seq<char> },
}

impl View for AuditError {
    type V = AuditErrorView;

    open spec fn view(&self) -> AuditErrorView {
        match *self {
            AuditError::Open { path, source } => AuditErrorView::Open {
                path: path@,
                source: source@,
            },
            AuditError::Serialize { source } => AuditErrorView::Serialize { source: source@ },
            AuditError::Write { path, source } => AuditErrorView::Write {
                path: path@,
                source: source@,
            },
        }
    }
}

impl AuditErrorView {
    /// The service-log evidence when an audit operation fails.
    pub open spec fn text(self) -> Seq<char> {
        match self {
            AuditErrorView::Open { path, source } => "cannot open audit log "@ + path + ": "@
                + source,
            AuditErrorView::Serialize { source } => "cannot serialize audit event: "@ + source,
            AuditErrorView::Write { path, source } => "cannot append to audit log "@ + path
                + ": "@ + source,
        }
    }
}

impl AuditError {
    /// Renders the service-log evidence.
    pub fn to_string(&self) -> (text: String)
        ensures
            text@ == self@.text(),
            text@ == match self {
                AuditError::Open { path, source } => "cannot open audit log "@ + path@ + ": "@
                    + source@,
                AuditError::Serialize { source } => "cannot serialize audit event: "@ + source@,
                AuditError::Write { path, source } => "cannot append to audit log "@ + path@
                    + ": "@ + source@,
            },
    {
        match self {
            AuditError::Open { path, source } => {
                let mut text = "cannot open audit log ".to_string();
                text.append(path.as_str());
                text.append(": ");
                text.append(source.as_str());
                text
            },
            AuditError::Serialize { source } => prefixed(
                "cannot serialize audit event: ",
                source.as_str(),
            ),
            AuditError::Write { path, source } => {
                let mut text = "cannot append to audit log ".to_string();
                text.append(path.as_str());
                text.append(": ");
                text.append(source.as_str());
                text
            },
        }
    }
}

/// The line for an event with this JSON text.
pub open spec fn record_line(json: Seq<char>) -> Seq<char> {
    json.push('\n')
}

/// The file's contents after these writes, each given by the event's JSON text or,
/// for an event that could not be serialized, by nothing.
pub open spec fn file_after(content: Seq<char>, writes: Seq<Option<Seq<char>>>) -> Seq<char>
    decreases writes.len(),
{
    if writes.len() == 0 {
        content
    } else {
        let before = file_after(content, writes.drop_last());
        match writes.last() {
            Some(json) => before + record_line(json),
            None => before,
        }
    }
}

/// The JSON texts among `writes`, in order.
pub open spec fn written(writes: Seq<Option<Seq<char>>>) -> Seq<Seq<char>>
    decreases writes.len(),
{
    if writes.len() == 0 {
        Seq::empty()
    } else {
        match writes.last() {
            Some(json) => written(writes.drop_last()).push(json),
            None => written(writes.drop_last()),
        }
    }
}

/// The log only grows, by one whole line per event that could be serialized, in the
/// order of the writes. The file holds whole lines to begin with, and JSON text has
/// no raw newline.
pub proof fn lemma_log_grows_by_whole_lines(content: Seq<char>, writes: Seq<Option<Seq<char>>>)
    requires
        lines_of(content).1.len() == 0,
        forall|k: int|
            0 <= k < writes.len() && (#[trigger] writes[k]) is Some ==> !writes[k]->0.contains('\n'),
    ensures
        content.is_prefix_of(file_after(content, writes)),
        lines_of(file_after(content, writes)) == (
            lines_of(content).0 + written(writes),
            Seq::<char>::empty(),
        ),
    decreases writes.len(),
{
    if writes.len() == 0 {
        assert(lines_of(content).0 + written(writes) =~= lines_of(content).0);
        assert(lines_of(content).1 =~= Seq::empty());
    } else {
        let init = writes.drop_last();
        assert forall|k: int| 0 <= k < init.len() && (#[trigger] init[k]) is Some implies !init[k]->0.contains('\n') by {
            assert(init[k] == writes[k]);
        }
        lemma_log_grows_by_whole_lines(content, init);
        let before = file_after(content, init);
        if let Some(json) = writes.last() {
            assert(writes[writes.len() - 1] is Some);
            lemma_appended_line(before, json);
            assert(lines_of(content).0 + written(writes) =~= (lines_of(content).0 + written(
                init,
            )).push(json));
        }
    }
}

/// The audit log's rules; the file handle stands beside it in the server.
pub struct AuditLog {
    path: String,
}

impl AuditLog {
    /// The file that this log appends to.
    pub closed spec fn path(&self) -> Seq<char> {
        self.path@
    }

    /// Decides on the file at `path` once it has been opened for append, or could
    /// not be.
    pub fn open(path: &str, opened: Result<(), String>) -> (log: Result<AuditLog, AuditError>)
        ensures
            match opened {
                Ok(_) => log is Ok && log->Ok_0.path() == path@,
                Err(source) => log is Err && log->Err_0@ == (AuditErrorView::Open {
                    path: path@,
                    source: source@,
                }),
            },
    {
        match opened {
            Ok(_) => Ok(AuditLog { path: path.to_string() }),
            Err(source) => Err(AuditError::Open { path: path.to_string(), source }),
        }
    }

    /// Gives the complete line to append for an event, from its JSON text. An event
    /// that could not be serialized gives none, so no partial line can be written.
    pub fn write(&self, serialized: Result<String, String>) -> (line: Result<String, AuditError>)
        ensures
            match serialized {
                Ok(json) => line is Ok && line->Ok_0@ == record_line(json@) && line->Ok_0@
                    == json@.push('\n'),
                Err(source) => line is Err && line->Err_0@ == (AuditErrorView::Serialize {
                    source: source@,
                }),
            },
    {
        match serialized {
            Ok(json) => Ok(with_newline(json)),
            Err(source) => Err(AuditError::Serialize { source }),
        }
    }

    /// Decides on a line once the file has taken it, or has not.
    pub fn appended(&self, written: Result<(), String>) -> (outcome: Result<(), AuditError>)
        ensures
            match written {
                Ok(_) => outcome is Ok,
                Err(source) => outcome is Err && outcome->Err_0@ == (AuditErrorView::Write {
                    path: self.path(),
                    source: source@,
                }),
            },
    {
        match written {
            Ok(_) => Ok(()),
            Err(source) => Err(AuditError::Write { path: self.path.clone(), source }),
        }
    }
}

/// The contents of an event leave nothing out.
pub proof fn lemma_contents_of_a_record(event: AuditEvent)
    ensures
        match event {
            AuditEvent::Connection { ts, peer } => event@ == (AuditEventView::Connection {
                ts,
                peer: peer@,
            }),
            AuditEvent::AuthFailure { ts, peer, name, reason } => event@ == (
            AuditEventView::AuthFailure { ts, peer: peer@, name: name@, reason }),
            AuditEvent::Accepted { ts, envelope } => event@ == (AuditEventView::Accepted {
                ts,
                envelope: envelope@,
            }),
            AuditEvent::Delivery { ts, id, to, peer } => event@ == (AuditEventView::Delivery {
                ts,
                id: id@,
                to: to@,
                peer: peer@,
            }),
        },
{
}

/// The contents of an error leave nothing out.
pub proof fn lemma_contents_of_an_audit_error(error: AuditError)
    ensures
        match error {
            AuditError::Open { path, source } => error@ == (AuditErrorView::Open {
                path: path@,
                source: source@,
            }),
            AuditError::Serialize { source } => error@ == (AuditErrorView::Serialize {
                source: source@,
            }),
            AuditError::Write { path, source } => error@ == (AuditErrorView::Write {
                path: path@,
                source: source@,
            }),
        },
{
}

} // verus!
