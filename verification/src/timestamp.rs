//! Instants with a fixed UTC offset, and the local calendar fields the
//! classifier reads from them: calendar day number, hour of day, weekday.
//!
//! An instant is the pair (seconds since the Unix epoch, offset from UTC in
//! seconds). Calendar fields are derived from the *local* second count
//! `epoch_seconds + offset_seconds`. The executable code shifts that count
//! into the nonnegative range by a whole number of weeks before dividing, so
//! no input can overflow and no signed division is needed.

use vstd::prelude::*;

verus! {

/// Seconds in a day.
pub const SECONDS_PER_DAY: u32 = 86400;

/// Seconds in an hour.
pub const SECONDS_PER_HOUR: u32 = 3600;

/// Whole days added to shift any local second count into the nonnegative
/// range: a multiple of 7 (so weekday arithmetic is unchanged) whose second
/// count exceeds `i64::MAX + i32::MAX`.
pub const SHIFT_DAYS: i128 = 112000000000000;

/// An instant with the fixed UTC offset it was recorded in.
///
/// Ordering of instants (for earliest/latest bookkeeping) goes by
/// `epoch_seconds` alone; the offset only chooses the calendar the
/// classifier reads.
#[derive(Clone, Copy, Debug, PartialEq, Eq, Structural)]
pub struct Timestamp {
    /// Seconds since 1970-01-01T00:00:00Z.
    pub epoch_seconds: i64,
    /// Local offset from UTC, in seconds (positive east of Greenwich).
    pub offset_seconds: i32,
}

/// The local second count the calendar fields are read from.
pub open spec fn spec_local_seconds(t: Timestamp) -> int {
    t.epoch_seconds + t.offset_seconds
}

/// Local calendar day number: days since 1970-01-01 in the instant's offset.
pub open spec fn spec_local_day(t: Timestamp) -> int {
    spec_local_seconds(t) / (SECONDS_PER_DAY as int)
}

/// Local hour of day, in `[0, 24)`.
pub open spec fn spec_local_hour(t: Timestamp) -> int {
    (spec_local_seconds(t) % (SECONDS_PER_DAY as int)) / (SECONDS_PER_HOUR as int)
}

/// Weekday of a day number, as an index with 0 = Monday .. 6 = Sunday.
/// Day 0 (1970-01-01) was a Thursday, index 3.
pub open spec fn spec_weekday_of_day(day: int) -> int {
    (day + 3) % 7
}

/// Local calendar fields of an instant: day number, hour and weekday index.
pub struct LocalFields {
    /// Days since 1970-01-01 of the local calendar date.
    pub day: i64,
    /// Hour of the local day, `0..=23`.
    pub hour: u8,
    /// Weekday index of the local date, 0 = Monday .. 6 = Sunday.
    pub weekday: u8,
}

impl Timestamp {
    /// Reads the local calendar date (as a day number), hour and weekday
    /// off this instant, in its own fixed offset.
    pub fn local_fields(&self) -> (r: LocalFields)
        ensures
            r.day == spec_local_day(*self),
            r.hour == spec_local_hour(*self),
            r.weekday == spec_weekday_of_day(spec_local_day(*self)),
            0 <= r.hour < 24,
            0 <= r.weekday < 7,
    {
        let local: i128 = self.epoch_seconds as i128 + self.offset_seconds as i128;
        let shifted_signed: i128 = local + 86400 * SHIFT_DAYS;
        proof {
            assert(86400 * SHIFT_DAYS == 9676800000000000000);
            assert(shifted_signed >= 0);
        }
        let shifted: u128 = shifted_signed as u128;
        let day_shifted: u128 = shifted / 86400;
        let second_of_day: u128 = shifted % 86400;
        proof {
            let a = spec_local_seconds(*self);
            let u = shifted as int;
            vstd::arithmetic::div_mod::lemma_fundamental_div_mod(u, 86400);
            let q = u / 86400;
            let r = u % 86400;
            vstd::arithmetic::div_mod::lemma_mod_division_less_than_divisor(u, 86400);
            // a == 86400 * (q - SHIFT_DAYS) + r, so q - SHIFT_DAYS and r are
            // a's quotient and remainder by 86400.
            assert(86400 * (q - SHIFT_DAYS) == 86400 * q - 86400 * SHIFT_DAYS)
                by (nonlinear_arith);
            assert((q - SHIFT_DAYS) * 86400 + r == a) by (nonlinear_arith)
                requires
                    86400 * (q - SHIFT_DAYS) == 86400 * q - 86400 * SHIFT_DAYS,
                    u == 86400 * q + r,
                    u == a + 86400 * SHIFT_DAYS,
            ;
            vstd::arithmetic::div_mod::lemma_fundamental_div_mod_converse(
                a,
                86400,
                q - SHIFT_DAYS,
                r,
            );
            // Bounds of the shifted quotient, so the casts below are exact.
            assert(u <= 18900172039002259454);
            vstd::arithmetic::div_mod::lemma_div_is_ordered(u, 18900172039002259454, 86400);
            vstd::arithmetic::div_mod::lemma_div_is_ordered(0, u, 86400);
            vstd::arithmetic::div_mod::lemma_div_pos_is_pos(u, 86400);
        }
        let day: i64 = (day_shifted as i128 - SHIFT_DAYS) as i64;
        let hour: u8 = (second_of_day / 3600) as u8;
        let weekday: u8 = ((day_shifted % 7 + 3) % 7) as u8;
        proof {
            let a = spec_local_seconds(*self);
            assert(day == spec_local_day(*self));
            assert(second_of_day == a % 86400);
            vstd::arithmetic::div_mod::lemma_div_is_ordered(second_of_day as int, 86399, 3600);
            vstd::arithmetic::div_mod::lemma_div_pos_is_pos(second_of_day as int, 3600);
            assert(hour == spec_local_hour(*self));
            // Weekday: the shift is a multiple of 7 days, so it vanishes mod 7.
            let d = day as int;
            let dsh = day_shifted as int;
            vstd::arithmetic::div_mod::lemma_fundamental_div_mod(dsh, 7);
            let q7 = dsh / 7;
            let r7 = dsh % 7;
            vstd::arithmetic::div_mod::lemma_mod_division_less_than_divisor(dsh, 7);
            assert((q7 - 16000000000000) * 7 + r7 == d) by (nonlinear_arith)
                requires
                    dsh == 7 * q7 + r7,
                    d == dsh - 112000000000000,
            ;
            vstd::arithmetic::div_mod::lemma_fundamental_div_mod_converse(
                d,
                7,
                q7 - 16000000000000,
                r7,
            );
            assert(r7 == d % 7);
            // (d + 3) % 7 == (d % 7 + 3) % 7
            vstd::arithmetic::div_mod::lemma_add_mod_noop(d, 3, 7);
            vstd::arithmetic::div_mod::lemma_mod_twice(3, 7);
            vstd::arithmetic::div_mod::lemma_mod_division_less_than_divisor(r7 + 3, 7);
            assert(3int % 7 == 3) by (nonlinear_arith);
            assert(weekday == spec_weekday_of_day(d));
        }
        LocalFields { day, hour, weekday }
    }
}

} // verus!
