//! The one place the crate leans on chrono: parsing an RFC 3339 instant
//! into epoch seconds and the recorded fixed offset.

use vstd::prelude::*;

use crate::timestamp::Timestamp;

verus! {

/// What chrono's RFC 3339 parser yields for a given character sequence:
/// the instant's epoch second and its fixed offset, or nothing when the
/// text is not a valid RFC 3339 instant. The result is a function of the
/// text alone.
pub uninterp spec fn rfc3339_parse(s: Seq<char>) -> Option<(i64, i32)>;

/// Relies on chrono's `DateTime::parse_from_rfc3339`, `DateTime::timestamp`
/// and `FixedOffset::local_minus_utc`: parses an RFC 3339 instant,
/// preserving its offset. A parsed offset always lies strictly between
/// -86400 and 86400 seconds (chrono's `FixedOffset` bound).
#[verifier::external_body]
pub fn parse_rfc3339(s: &str) -> (r: Option<Timestamp>)
    ensures
        match r {
            Some(t) => rfc3339_parse(s@) == Some((t.epoch_seconds, t.offset_seconds))
                && -86400 < t.offset_seconds < 86400,
            None => rfc3339_parse(s@) is None,
        },
{
    match chrono::DateTime::parse_from_rfc3339(s) {
        Ok(dt) => Some(
            Timestamp {
                epoch_seconds: dt.timestamp(),
                offset_seconds: dt.offset().local_minus_utc(),
            },
        ),
        Err(_) => None,
    }
}

} // verus!
