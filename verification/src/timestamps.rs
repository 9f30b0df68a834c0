//! Timestamps as the RFC 3339 text the pattern database stores, through
//! chrono. Both items marked `external_body` are trusted; their doc
//! comments say which chrono functions they call.

use crate::models::Timestamp;
use vstd::prelude::*;

verus! {

/// What `DateTime::<Utc>::from_timestamp(unix_seconds, nanoseconds)`
/// followed by `DateTime::to_rfc3339` gives: the RFC 3339 text, or `None`
/// when chrono cannot represent the moment.
pub uninterp spec fn chrono_rfc3339(unix_seconds: i64, nanoseconds: u32) -> Option<Seq<char>>;

/// What `DateTime::parse_from_rfc3339` gives for a text: the moment as seconds and nanoseconds since the Unix epoch,
/// or the parse error's message.
pub uninterp spec fn chrono_parse_rfc3339(text: Seq<char>) -> Result<(i64, u32), Seq<char>>;

/// The view of a parsed timestamp.
pub open spec fn parsed_view(r: Result<Timestamp, String>) -> Result<(i64, u32), Seq<char>> {
    match r {
        Ok(t) => Ok((t.unix_seconds, t.nanoseconds)),
        Err(e) => Err(e@),
    }
}

/// Calls `DateTime::<Utc>::from_timestamp` and `DateTime::to_rfc3339`.
/// Claims only that the result is `chrono_rfc3339` of the timestamp.
#[verifier::external_body]
pub(crate) fn rfc3339_text(t: Timestamp) -> (r: Option<String>)
    ensures
        crate::models::opt_view(r) == chrono_rfc3339(t.unix_seconds, t.nanoseconds),
{
    chrono::DateTime::from_timestamp(t.unix_seconds, t.nanoseconds).map(|d| d.to_rfc3339())
}

/// Calls `DateTime::parse_from_rfc3339` and reads the moment's seconds and
/// nanoseconds since the Unix epoch (`timestamp`,
/// `timestamp_subsec_nanos`); on failure, the error's message.
/// Claims only that the result is `chrono_parse_rfc3339` of the text.
#[verifier::external_body]
pub(crate) fn parse_rfc3339(text: &str) -> (r: Result<Timestamp, String>)
    ensures
        parsed_view(r) == chrono_parse_rfc3339(text@),
{
    match chrono::DateTime::parse_from_rfc3339(text) {
        Ok(d) => Ok(Timestamp { unix_seconds: d.timestamp(), nanoseconds: d.timestamp_subsec_nanos() }),
        Err(e) => Err(e.to_string()),
    }
}

} // verus!
