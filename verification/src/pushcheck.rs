//! The break-reminder's decision: given the current instant, the recorded
//! last push and the threshold, choose what to tell the user. Reading and
//! writing the state file stays outside the crate.

use vstd::prelude::*;

verus! {

/// Whole minutes of a signed second count, truncated toward zero.
pub open spec fn spec_whole_minutes(secs: int) -> int {
    if secs >= 0 {
        secs / 60
    } else {
        -((-secs) / 60)
    }
}

/// What the break reminder should do on this invocation.
#[derive(Clone, Copy, Debug, PartialEq, Eq, Structural)]
pub enum PushCheckAction {
    /// Enough time has passed: remind the user to take a break.
    RemindBreak {
        /// Whole minutes since the last push.
        minutes_since: i64,
    },
    /// Below the threshold and not quiet: report the minutes so far.
    KeepGoing {
        /// Whole minutes since the last push.
        minutes_since: i64,
    },
    /// No record yet and not quiet: announce the first recording.
    FirstRecord,
    /// Nothing to say.
    Silent,
}

/// Decides the break reminder's action.
///
/// A reminder is due exactly when at least `threshold_minutes` minutes
/// have passed since the recorded push; without a record the first run is
/// announced unless quiet.
pub fn plan_push_check(
    now_epoch: i64,
    last_push_epoch: Option<i64>,
    threshold_minutes: u64,
    quiet: bool,
) -> (r: PushCheckAction)
    ensures
        match last_push_epoch {
            None => r == if quiet {
                PushCheckAction::Silent
            } else {
                PushCheckAction::FirstRecord
            },
            Some(last) => {
                let diff = now_epoch - last;
                let mins = spec_whole_minutes(diff);
                if diff >= threshold_minutes * 60 {
                    r == (PushCheckAction::RemindBreak { minutes_since: mins as i64 })
                } else if !quiet {
                    r == (PushCheckAction::KeepGoing { minutes_since: mins as i64 })
                } else {
                    r == PushCheckAction::Silent
                }
            },
        },
{
    match last_push_epoch {
        None => {
            if quiet {
                PushCheckAction::Silent
            } else {
                PushCheckAction::FirstRecord
            }
        },
        Some(last) => {
            let diff: i128 = (now_epoch as i128) - (last as i128);
            let mins: i64 = if diff >= 0 {
                ((diff as u128) / 60) as i64
            } else {
                proof {
                    assert((((-diff) as u128) / 60) < 0x8000_0000_0000_0000u128) by {
                        vstd::arithmetic::div_mod::lemma_div_is_ordered(
                            (-diff) as int,
                            36893488147419103232int,
                            60,
                        );
                    }
                }
                -((((-diff) as u128) / 60) as i64)
            };
            if diff >= (threshold_minutes as i128) * 60 {
                PushCheckAction::RemindBreak { minutes_since: mins }
            } else if !quiet {
                PushCheckAction::KeepGoing { minutes_since: mins }
            } else {
                PushCheckAction::Silent
            }
        },
    }
}

} // verus!
