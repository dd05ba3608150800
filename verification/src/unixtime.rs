//! The unix-timestamp conversion helper: checks that a second count names a
//! representable instant and pairs it with the machine's local offset.

use vstd::prelude::*;

use crate::timestamp::Timestamp;

verus! {

/// Whether chrono can represent the instant `ts` seconds from the epoch:
/// a function of the value alone, decided by chrono's calendar range.
pub uninterp spec fn unix_ts_valid(ts: i64) -> bool;

/// Relies on chrono's `DateTime::<Utc>::from_timestamp`: it yields an
/// instant exactly for second counts inside chrono's representable range.
#[verifier::external_body]
fn utc_instant_valid(ts: i64) -> (r: bool)
    ensures
        r == unix_ts_valid(ts),
{
    chrono::DateTime::<chrono::Utc>::from_timestamp(ts, 0).is_some()
}

/// Relies on chrono's `Local::offset_from_utc_datetime` (through
/// `with_timezone`): the machine's UTC offset at the given instant. The
/// offset depends on the machine's time zone; only chrono's `FixedOffset`
/// bound holds of every outcome.
#[verifier::external_body]
fn local_offset_for(ts: i64) -> (r: i32)
    ensures
        -86400 < r < 86400,
{
    match chrono::DateTime::<chrono::Utc>::from_timestamp(ts, 0) {
        Some(utc) => utc.with_timezone(&chrono::Local).offset().local_minus_utc(),
        None => 0,
    }
}

/// A unix timestamp read as an instant, in UTC and in the machine's local
/// offset.
#[derive(Clone, Copy, Debug, PartialEq, Eq, Structural)]
pub struct UnixConversion {
    /// The second count as given.
    pub timestamp: i64,
    /// The same instant with offset 0.
    pub utc: Timestamp,
    /// The same instant with the machine's local offset.
    pub local: Timestamp,
}

/// Converts a unix timestamp: `None` exactly when the second count lies
/// outside the representable range; otherwise the instant in UTC and in
/// the machine's local offset.
pub fn convert_unix_timestamp(ts: i64) -> (r: Option<UnixConversion>)
    ensures
        r is Some <==> unix_ts_valid(ts),
        r matches Some(c) ==> {
            &&& c.timestamp == ts
            &&& c.utc == (Timestamp { epoch_seconds: ts, offset_seconds: 0 })
            &&& c.local.epoch_seconds == ts
            &&& -86400 < c.local.offset_seconds < 86400
        },
{
    if utc_instant_valid(ts) {
        let offset = local_offset_for(ts);
        Some(
            UnixConversion {
                timestamp: ts,
                utc: Timestamp { epoch_seconds: ts, offset_seconds: 0 },
                local: Timestamp { epoch_seconds: ts, offset_seconds: offset },
            },
        )
    } else {
        None
    }
}

} // verus!
