//! Instants, and their RFC 3339 text as chrono reads and writes it.

use vstd::prelude::*;

verus! {

/// An instant on the hub's clock: whole seconds since the UNIX epoch, and the
/// nanoseconds that follow them.
#[derive(Debug, Clone, Copy, PartialEq, Eq)]
pub struct Timestamp {
    pub secs: i64,
    pub nanos: u32,
}

/// What chrono says is wrong with `ts` as an RFC 3339 timestamp; `None` when it
/// parses.
pub uninterp spec fn rfc3339_refusal(ts: Seq<char>) -> Option<Seq<char>>;

/// The text chrono writes for the instant `secs` seconds after the epoch, in UTC,
/// to the second, with a `Z` offset; `None` where chrono has no such date.
pub uninterp spec fn utc_seconds_text(secs: int) -> Option<Seq<char>>;

/// The last second of the year 9999 in UTC; RFC 3339 has no later years.
pub const LAST_RFC3339_SECOND: i64 = 253_402_300_799;

/// The last second that chrono has a date for, at the end of the year 262142.
pub const LAST_SECOND: i64 = 8_210_266_876_799;

/// Calls `chrono::DateTime::parse_from_rfc3339` and keeps only the error's own
/// message. The claim is that the outcome is a function of the text.
#[verifier::external_body]
pub(crate) fn parse_rfc3339(ts: &str) -> (parsed: Result<(), String>)
    ensures
        match parsed {
            Ok(_) => rfc3339_refusal(ts@) is None,
            Err(message) => rfc3339_refusal(ts@) == Some(message@),
        },
{
    match chrono::DateTime::parse_from_rfc3339(ts) {
        Ok(_) => Ok(()),
        Err(source) => Err(source.to_string()),
    }
}

/// Calls `chrono::DateTime::to_rfc3339_opts` with whole seconds and `Z`, on the
/// UTC instant that `from_timestamp` makes of `secs`. The claims are that the text
/// is a function of `secs` and ends in `Z`, that there is one from the epoch to
/// chrono's last second, and that up to the end of the year 9999 chrono's own RFC 3339 parser
/// takes it back.
#[verifier::external_body]
pub(crate) fn render_utc_seconds(secs: i64) -> (text: Option<String>)
    ensures
        match text {
            Some(t) => utc_seconds_text(secs as int) == Some(t@),
            None => utc_seconds_text(secs as int) is None,
        },
        text matches Some(t) ==> t@.len() > 0 && t@.last() == 'Z',
        0 <= secs <= LAST_SECOND ==> text is Some,
        0 <= secs <= LAST_RFC3339_SECOND ==> text is Some && rfc3339_refusal(text->0@) is None,
{
    let instant = chrono::DateTime::from_timestamp(secs, 0)?;
    Some(instant.to_rfc3339_opts(chrono::SecondsFormat::Secs, true))
}

} // verus!
