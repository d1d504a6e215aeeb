//! The envelope: the message unit that the hub routes, and its validation.
//!
//! The hub checks the fields defined here and never looks into `body`. New kinds
//! of message are new values of `kind`, never new fields.

use vstd::prelude::*;
use vstd::string::*;

use crate::text::{debug_text, quoted};
use crate::timestamp::{parse_rfc3339, rfc3339_refusal};

verus! {

/// `serde_json::Value`, carried through unread.
#[verifier::external_type_specification]
#[verifier::external_body]
pub struct ExValue(serde_json::Value);

/// The derived `Clone` of `serde_json::Value`: the copy is the same JSON value.
pub assume_specification[ <serde_json::Value as Clone>::clone ](
    value: &serde_json::Value,
) -> (copy: serde_json::Value)
    ensures
        copy == *value,
;

/// One routed message.
#[derive(Debug)]
pub struct Envelope {
    /// Unique per envelope, assigned by the sender; any non-empty text will do.
    pub id: String,
    /// Sender identity. The hub overwrites it with the authenticated name, so on
    /// an accepted envelope this is identity, never a claim.
    pub from: String,
    /// Destination agent name. Unknown destinations are accepted and queued.
    pub to: String,
    /// Sender clock, RFC 3339, kept as the sender wrote it. Informational only.
    pub ts: String,
    /// Message kind; unknown kinds are routed like any other.
    pub kind: String,
    /// `None`, or the `id` of the envelope this one answers.
    pub correlation_id: Option<String>,
    /// Opaque payload.
    pub body: serde_json::Value,
}

/// The contents of an [`Envelope`].
pub struct EnvelopeView {
    pub id: Seq<char>,
    pub from: Seq<char>,
    pub to: Seq<char>,
    pub ts: Seq<char>,
    pub kind: Seq<char>,
    pub correlation_id: Option<Seq<char>>,
    pub body: serde_json::Value,
}

/// The contents of an optional text.
pub open spec fn text_option(text: Option<String>) -> Option<Seq<char>> {
    match text {
        Some(t) => Some(t@),
        None => None,
    }
}

impl View for Envelope {
    type V = EnvelopeView;

    open spec fn view(&self) -> EnvelopeView {
        EnvelopeView {
            id: self.id@,
            from: self.from@,
            to: self.to@,
            ts: self.ts@,
            kind: self.kind@,
            correlation_id: text_option(self.correlation_id),
            body: self.body,
        }
    }
}

/// Copies an optional text.
pub(crate) fn copy_option(text: &Option<String>) -> (copy: Option<String>)
    ensures
        text_option(copy) == text_option(*text),
        copy is Some <==> text is Some,
        copy is Some ==> copy->0@ == text->0@,
{
    match text {
        Some(t) => Some(t.clone()),
        None => None,
    }
}

impl Clone for Envelope {
    fn clone(&self) -> (copy: Self)
        ensures
            copy@ == self@,
            copy.id@ == self.id@,
            copy.from@ == self.from@,
            copy.to@ == self.to@,
            copy.ts@ == self.ts@,
            copy.kind@ == self.kind@,
            copy.correlation_id is Some <==> self.correlation_id is Some,
            copy.correlation_id is Some ==> copy.correlation_id->0@ == self.correlation_id->0@,
            copy.body == self.body,
    {
        Envelope {
            id: self.id.clone(),
            from: self.from.clone(),
            to: self.to.clone(),
            ts: self.ts.clone(),
            kind: self.kind.clone(),
            correlation_id: copy_option(&self.correlation_id),
            body: self.body.clone(),
        }
    }
}

impl EnvelopeView {
    /// This envelope with `name` as its sender; nothing else differs.
    pub open spec fn stamped(self, name: Seq<char>) -> EnvelopeView {
        EnvelopeView { from: name, ..self }
    }

    /// The first defect, in the order id, to, kind, ts, correlationId, where
    /// `refusal` is what the timestamp parser has against `ts`. `from` and `body`
    /// are never looked at.
    pub open spec fn defect_given(self, refusal: Option<Seq<char>>) -> Option<EnvelopeErrorView> {
        if self.id.len() == 0 {
            Some(EnvelopeErrorView::EmptyId)
        } else if self.to.len() == 0 {
            Some(EnvelopeErrorView::EmptyTo)
        } else if self.kind.len() == 0 {
            Some(EnvelopeErrorView::EmptyKind)
        } else if refusal is Some {
            Some(EnvelopeErrorView::InvalidTs { ts: self.ts, source: refusal->0 })
        } else if self.correlation_id == Some(Seq::<char>::empty()) {
            Some(EnvelopeErrorView::EmptyCorrelationId)
        } else {
            None
        }
    }

    /// The first defect; `None` for a valid envelope.
    pub open spec fn defect(self) -> Option<EnvelopeErrorView> {
        self.defect_given(rfc3339_refusal(self.ts))
    }
}

/// Why an envelope failed validation. No variant holds anything of `body`.
#[derive(Debug)]
pub enum EnvelopeError {
    /// `id` is empty.
    EmptyId,
    /// `to` is empty; a destination queue cannot be named.
    EmptyTo,
    /// `kind` is empty. Unknown kinds are fine, an absent one is not.
    EmptyKind,
    /// `correlationId` is present but empty.
    EmptyCorrelationId,
    /// `ts` is not an RFC 3339 timestamp; `source` is the parser's reason.
    InvalidTs { ts: String, source: String },
}

/// The contents of an [`EnvelopeError`].
pub enum EnvelopeErrorView {
    EmptyId,
    EmptyTo,
    EmptyKind,
    EmptyCorrelationId,
    InvalidTs { ts: Seq<char>, source: Seq<char> },
}

impl View for EnvelopeError {
    type V = EnvelopeErrorView;

    open spec fn view(&self) -> EnvelopeErrorView {
        match *self {
            EnvelopeError::EmptyId => EnvelopeErrorView::EmptyId,
            EnvelopeError::EmptyTo => EnvelopeErrorView::EmptyTo,
            EnvelopeError::EmptyKind => EnvelopeErrorView::EmptyKind,
            EnvelopeError::EmptyCorrelationId => EnvelopeErrorView::EmptyCorrelationId,
            EnvelopeError::InvalidTs { ts, source } => EnvelopeErrorView::InvalidTs {
                ts: ts@,
                source: source@,
            },
        }
    }
}

/// The line for an invalid timestamp, with the timestamp quoted.
pub open spec fn invalid_ts_text(quotation: Seq<char>, source: Seq<char>) -> Seq<char> {
    "envelope ts "@ + quotation + " is not RFC 3339: "@ + source
}

/// Writes the line for an invalid timestamp that is already quoted.
pub fn describe_invalid_ts(quotation: &str, source: &str) -> (text: String)
    ensures
        text@ == invalid_ts_text(quotation@, source@),
        text@ == "envelope ts "@ + quotation@ + " is not RFC 3339: "@ + source@,
{
    let mut text = "envelope ts ".to_string();
    text.append(quotation);
    text.append(" is not RFC 3339: ");
    text.append(source);
    text
}

impl EnvelopeErrorView {
    /// The line a client reads; it names the defective field.
    pub open spec fn text(self) -> Seq<char> {
        match self {
            EnvelopeErrorView::EmptyId => "envelope id is empty"@,
            EnvelopeErrorView::EmptyTo => "envelope to is empty"@,
            EnvelopeErrorView::EmptyKind => "envelope kind is empty"@,
            EnvelopeErrorView::EmptyCorrelationId =>
                "envelope correlationId is empty; use null or an envelope id"@,
            EnvelopeErrorView::InvalidTs { ts, source } => invalid_ts_text(debug_text(ts), source),
        }
    }
}

impl EnvelopeError {
    /// Renders the error as the line a client reads.
    pub fn to_string(&self) -> (text: String)
        ensures
            text@ == self@.text(),
            text@ == match self {
                EnvelopeError::EmptyId => "envelope id is empty"@,
                EnvelopeError::EmptyTo => "envelope to is empty"@,
                EnvelopeError::EmptyKind => "envelope kind is empty"@,
                EnvelopeError::EmptyCorrelationId =>
                    "envelope correlationId is empty; use null or an envelope id"@,
                EnvelopeError::InvalidTs { ts, source } => "envelope ts "@ + debug_text(ts@)
                    + " is not RFC 3339: "@ + source@,
            },
    {
        match self {
            EnvelopeError::EmptyId => "envelope id is empty".to_string(),
            EnvelopeError::EmptyTo => "envelope to is empty".to_string(),
            EnvelopeError::EmptyKind => "envelope kind is empty".to_string(),
            EnvelopeError::EmptyCorrelationId =>
                "envelope correlationId is empty; use null or an envelope id".to_string(),
            EnvelopeError::InvalidTs { ts, source } => describe_invalid_ts(
                quoted(ts.as_str()).as_str(),
                source.as_str(),
            ),
        }
    }
}

impl Envelope {
    /// Checks the envelope's fields: `id`, `to` and `kind` are not empty, `ts`
    /// parses as RFC 3339 with any offset, and `correlationId` is absent or not
    /// empty.
    pub fn validate(&self) -> (verdict: Result<(), EnvelopeError>)
        ensures
            match verdict {
                Ok(_) => self@.defect() is None,
                Err(error) => self@.defect() == Some(error@),
            },
            verdict is Ok <==> {
                &&& self.id@.len() > 0
                &&& self.to@.len() > 0
                &&& self.kind@.len() > 0
                &&& rfc3339_refusal(self.ts@) is None
                &&& self.correlation_id matches Some(id) ==> id@.len() > 0
            },
    {
        self.validate_given(parse_rfc3339(self.ts.as_str()))
    }

    /// [`Envelope::validate`], with the outcome of parsing `ts` as an argument.
    pub fn validate_given(&self, parsed_ts: Result<(), String>) -> (verdict: Result<
        (),
        EnvelopeError,
    >)
        ensures
            ({
                let refusal = match parsed_ts {
                    Ok(_) => None,
                    Err(source) => Some(source@),
                };
                match verdict {
                    Ok(_) => self@.defect_given(refusal) is None,
                    Err(error) => self@.defect_given(refusal) == Some(error@),
                }
            }),
            verdict is Ok <==> {
                &&& self.id@.len() > 0
                &&& self.to@.len() > 0
                &&& self.kind@.len() > 0
                &&& parsed_ts is Ok
                &&& self.correlation_id matches Some(id) ==> id@.len() > 0
            },
            match verdict {
                Ok(_) => true,
                Err(EnvelopeError::EmptyId) => self.id@.len() == 0,
                Err(EnvelopeError::EmptyTo) => self.id@.len() > 0 && self.to@.len() == 0,
                Err(EnvelopeError::EmptyKind) => self.id@.len() > 0 && self.to@.len() > 0
                    && self.kind@.len() == 0,
                Err(EnvelopeError::InvalidTs { ts, source }) => {
                    &&& self.id@.len() > 0 && self.to@.len() > 0 && self.kind@.len() > 0
                    &&& ts@ == self.ts@
                    &&& parsed_ts matches Err(told) && source@ == told@
                },
                Err(EnvelopeError::EmptyCorrelationId) => {
                    &&& self.id@.len() > 0 && self.to@.len() > 0 && self.kind@.len() > 0
                    &&& parsed_ts is Ok
                    &&& self.correlation_id matches Some(id) && id@.len() == 0
                },
            },
    {
        if self.id.as_str().is_empty() {
            return Err(EnvelopeError::EmptyId);
        }
        if self.to.as_str().is_empty() {
            return Err(EnvelopeError::EmptyTo);
        }
        if self.kind.as_str().is_empty() {
            return Err(EnvelopeError::EmptyKind);
        }
        if let Err(source) = parsed_ts {
            return Err(EnvelopeError::InvalidTs { ts: self.ts.clone(), source });
        }
        if let Some(id) = &self.correlation_id {
            if id.as_str().is_empty() {
                assert(id@ =~= Seq::<char>::empty());
                return Err(EnvelopeError::EmptyCorrelationId);
            }
        }
        Ok(())
    }
}

/// The contents of an envelope leave nothing out.
pub proof fn lemma_contents_of_an_envelope(envelope: Envelope)
    ensures
        envelope@.id == envelope.id@,
        envelope@.from == envelope.from@,
        envelope@.to == envelope.to@,
        envelope@.ts == envelope.ts@,
        envelope@.kind == envelope.kind@,
        envelope.correlation_id matches Some(id) ==> envelope@.correlation_id == Some(id@),
        envelope.correlation_id is None ==> envelope@.correlation_id is None,
        envelope@.body == envelope.body,
{
}

/// Stamping changes the sender and nothing else.
pub proof fn lemma_stamping(envelope: EnvelopeView, name: Seq<char>)
    ensures
        envelope.stamped(name).from == name,
        envelope.stamped(name).id == envelope.id,
        envelope.stamped(name).to == envelope.to,
        envelope.stamped(name).ts == envelope.ts,
        envelope.stamped(name).kind == envelope.kind,
        envelope.stamped(name).correlation_id == envelope.correlation_id,
        envelope.stamped(name).body == envelope.body,
{
}

/// Which envelopes are valid, and which defect is told of the others: the first in the
/// order id, destination, kind, timestamp, correlation id. An empty field is a defect
/// whatever else the envelope holds, and any text that is not empty will do.
pub proof fn lemma_first_defect_is_told(envelope: EnvelopeView, refusal: Option<Seq<char>>)
    ensures
        envelope.defect_given(refusal) is None <==> {
            &&& envelope.id.len() > 0
            &&& envelope.to.len() > 0
            &&& envelope.kind.len() > 0
            &&& refusal is None
            &&& envelope.correlation_id is Some ==> envelope.correlation_id->0.len() > 0
        },
        envelope.defect_given(refusal) == Some(EnvelopeErrorView::EmptyId) <==> envelope.id.len()
            == 0,
        envelope.defect_given(refusal) == Some(EnvelopeErrorView::EmptyTo) <==> {
            &&& envelope.id.len() > 0
            &&& envelope.to.len() == 0
        },
        envelope.defect_given(refusal) == Some(EnvelopeErrorView::EmptyKind) <==> {
            &&& envelope.id.len() > 0
            &&& envelope.to.len() > 0
            &&& envelope.kind.len() == 0
        },
        envelope.defect_given(refusal) matches Some(EnvelopeErrorView::InvalidTs { ts, source })
            ==> ts == envelope.ts && refusal == Some(source),
        envelope.defect_given(refusal) is Some && envelope.id.len() > 0 && envelope.to.len() > 0
            && envelope.kind.len() > 0 && refusal is Some ==> envelope.defect_given(
            refusal,
        )->0 is InvalidTs,
        envelope.defect() == envelope.defect_given(rfc3339_refusal(envelope.ts)),
{
    assert(envelope.correlation_id is Some && envelope.correlation_id->0.len() == 0
        ==> envelope.correlation_id->0 =~= Seq::<char>::empty());
}

/// Neither the sender nor the body of an envelope makes it valid or invalid.
pub proof fn lemma_sender_and_body_are_not_looked_at(
    envelope: EnvelopeView,
    other: EnvelopeView,
    refusal: Option<Seq<char>>,
)
    requires
        envelope.id == other.id,
        envelope.to == other.to,
        envelope.ts == other.ts,
        envelope.kind == other.kind,
        envelope.correlation_id == other.correlation_id,
    ensures
        envelope.defect_given(refusal) == other.defect_given(refusal),
        envelope.defect() == other.defect(),
{
}

/// The contents of an error leave nothing out.
pub proof fn lemma_contents_of_an_envelope_error(error: EnvelopeError)
    ensures
        match error {
            EnvelopeError::EmptyId => error@ == EnvelopeErrorView::EmptyId,
            EnvelopeError::EmptyTo => error@ == EnvelopeErrorView::EmptyTo,
            EnvelopeError::EmptyKind => error@ == EnvelopeErrorView::EmptyKind,
            EnvelopeError::EmptyCorrelationId => error@ == EnvelopeErrorView::EmptyCorrelationId,
            EnvelopeError::InvalidTs { ts, source } => error@ == (EnvelopeErrorView::InvalidTs {
                ts: ts@,
                source: source@,
            }),
        },
{
}

} // verus!
