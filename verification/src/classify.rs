//! Temporal classification of a single commit: the three overlapping
//! predicates (after-hours, weekend, night) and the local calendar day,
//! all read from the commit's own fixed offset.

use vstd::prelude::*;

use crate::timestamp::{spec_local_day, spec_local_hour, spec_weekday_of_day, Timestamp};

verus! {

/// Hour at which working hours begin; earlier commits are after-hours.
pub const WORK_START_HOUR: u8 = 10;

/// Hour at which working hours end; commits from this hour on are
/// after-hours.
pub const WORK_END_HOUR: u8 = 18;

/// Hour before which a commit counts as night work.
pub const NIGHT_END_HOUR: u8 = 6;

/// Hour from which on a commit counts as night work.
pub const NIGHT_START_HOUR: u8 = 23;

/// A commit is after-hours when its local hour lies outside `[10, 18)`.
pub open spec fn spec_is_after_hours(t: Timestamp) -> bool {
    spec_local_hour(t) < WORK_START_HOUR || spec_local_hour(t) >= WORK_END_HOUR
}

/// A commit is a weekend commit when its local weekday is Saturday or
/// Sunday (weekday indices 5 and 6, with 0 = Monday).
pub open spec fn spec_is_weekend(t: Timestamp) -> bool {
    spec_weekday_of_day(spec_local_day(t)) >= 5
}

/// A commit is a night commit when its local hour is in `[0, 6) ∪ [23, 24)`.
pub open spec fn spec_is_night(t: Timestamp) -> bool {
    spec_local_hour(t) < NIGHT_END_HOUR || spec_local_hour(t) >= NIGHT_START_HOUR
}

/// The classifier's answers for one commit: the local calendar day and the
/// three independent predicates.
pub struct CommitClass {
    /// Local calendar day number (days since 1970-01-01).
    pub day: i64,
    /// Local hour lies outside working hours `[10, 18)`.
    pub after_hours: bool,
    /// Local weekday is Saturday or Sunday.
    pub weekend: bool,
    /// Local hour lies in `[0, 6) ∪ [23, 24)`.
    pub night: bool,
}

/// Classifies one instant across the three temporal predicates and reads
/// its local calendar day.
pub fn classify(t: &Timestamp) -> (r: CommitClass)
    ensures
        r.day == spec_local_day(*t),
        r.after_hours == spec_is_after_hours(*t),
        r.weekend == spec_is_weekend(*t),
        r.night == spec_is_night(*t),
{
    let f = t.local_fields();
    CommitClass {
        day: f.day,
        after_hours: f.hour < WORK_START_HOUR || f.hour >= WORK_END_HOUR,
        weekend: f.weekday >= 5,
        night: f.hour < NIGHT_END_HOUR || f.hour >= NIGHT_START_HOUR,
    }
}

} // verus!
