//! Parsing of `--since`/`--until` time filters. Three forms are tried in
//! order: a relative span (`30d`, `2w`, `12h`, case-insensitive, positive),
//! an RFC 3339 instant, and a plain `YYYY-MM-DD` date read as midnight UTC.

use vstd::prelude::*;

use crate::alias::{spec_trim, trim_str};
use crate::civil::{days_from_civil, days_in_month, spec_days_from_civil, spec_valid_ymd};
use crate::rfc3339::{parse_rfc3339, rfc3339_parse};

verus! {

/// An ASCII decimal digit.
pub open spec fn spec_is_digit(c: char) -> bool {
    48 <= (c as u32) <= 57
}

/// Numeric value of a digit sequence, most significant first.
pub open spec fn spec_digits_val(s: Seq<char>) -> int
    decreases s.len(),
{
    if s.len() == 0 {
        0
    } else {
        spec_digits_val(s.drop_last()) * 10 + ((s.last() as u32) - 48)
    }
}

/// Seconds of one relative unit: day, week or hour, either case.
pub open spec fn spec_unit_seconds(c: char) -> Option<int> {
    if c == 'd' || c == 'D' {
        Some(86400int)
    } else if c == 'w' || c == 'W' {
        Some(604800int)
    } else if c == 'h' || c == 'H' {
        Some(3600int)
    } else {
        None
    }
}

/// The relative form of a filter: after trimming, one or more digits whose
/// value is positive and fits an `i64`, then a unit letter. Yields the
/// count and the unit's seconds.
pub open spec fn spec_relative_parts(s: Seq<char>) -> Option<(int, int)> {
    let t = spec_trim(s);
    if t.len() >= 2 && (forall|j: int| 0 <= j < t.len() - 1 ==> spec_is_digit(#[trigger] t[j])) {
        match spec_unit_seconds(t[t.len() - 1]) {
            Some(u) => {
                let n = spec_digits_val(t.take(t.len() - 1));
                if 1 <= n <= i64::MAX {
                    Some((n, u))
                } else {
                    None
                }
            },
            None => None,
        }
    } else {
        None
    }
}

/// The `YYYY-MM-DD` form: exactly ten characters, digits around two
/// dashes, naming a valid calendar date. Yields midnight UTC of that date
/// in epoch seconds.
pub open spec fn spec_date_parse(s: Seq<char>) -> Option<int> {
    if s.len() == 10 && spec_is_digit(s[0]) && spec_is_digit(s[1]) && spec_is_digit(s[2])
        && spec_is_digit(s[3]) && s[4] == '-' && spec_is_digit(s[5]) && spec_is_digit(s[6]) && s[7]
        == '-' && spec_is_digit(s[8]) && spec_is_digit(s[9]) {
        let y = spec_digits_val(s.take(4));
        let m = spec_digits_val(s.subrange(5, 7));
        let d = spec_digits_val(s.subrange(8, 10));
        if spec_valid_ymd(y, m, d) {
            Some(86400 * spec_days_from_civil(y, m, d))
        } else {
            None
        }
    } else {
        None
    }
}

/// Why a time filter was rejected.
#[derive(Debug)]
pub enum TimeFilterError {
    /// None of the three forms matched.
    Unparseable {
        /// The raw filter text.
        value: String,
    },
    /// A relative span reaches outside the representable instants.
    OutOfRange {
        /// The raw filter text.
        value: String,
    },
}

proof fn lemma_digits_val_nonneg(s: Seq<char>)
    requires
        forall|j: int| 0 <= j < s.len() ==> spec_is_digit(#[trigger] s[j]),
    ensures
        spec_digits_val(s) >= 0,
    decreases s.len(),
{
    if s.len() > 0 {
        lemma_digits_val_nonneg(s.drop_last());
    }
}

/// Parses one time filter against the given current instant (epoch
/// seconds, UTC). The relative form wins, then RFC 3339, then the plain
/// date; otherwise the filter is rejected as unparseable.
pub fn parse_time_filter(value: &str, now_epoch: i64) -> (r: Result<i64, TimeFilterError>)
    ensures
        match spec_relative_parts(value@) {
            Some((n, u)) => {
                &&& (i64::MIN <= now_epoch - n * u <= i64::MAX ==> (r matches Ok(e) && e
                    == now_epoch - n * u))
                &&& (!(i64::MIN <= now_epoch - n * u <= i64::MAX) ==> (r matches Err(
                TimeFilterError::OutOfRange { value: v }) && v@ == value@))
            },
            None => match rfc3339_parse(value@) {
                Some((ep, off)) => r matches Ok(e) && e == ep,
                None => match spec_date_parse(value@) {
                    Some(mid) => r matches Ok(e) && e == mid,
                    None => r matches Err(TimeFilterError::Unparseable { value: v }) && v@
                        == value@,
                },
            },
        },
{
    // Relative form, on the trimmed text.
    let t = trim_str(value);
    let tn = t.as_str().unicode_len();
    if tn >= 2 {
        let mut i: usize = 0;
        let mut val: u64 = 0;
        let mut all_digits: bool = true;
        let mut over: bool = false;
        while i < tn - 1
            invariant
                0 <= i <= tn - 1,
                2 <= tn == t@.len(),
                all_digits == (forall|j: int| 0 <= j < i ==> spec_is_digit(#[trigger] t@[j])),
                all_digits && !over ==> val == spec_digits_val(t@.take(i as int)) && val
                    <= i64::MAX,
                all_digits && over ==> spec_digits_val(t@.take(i as int)) > i64::MAX,
            decreases tn - 1 - i,
        {
            let c = t.as_str().get_char(i);
            proof {
                assert(t@.take(i as int + 1).drop_last() =~= t@.take(i as int));
                assert(t@.take(i as int + 1).last() == t@[i as int]);
            }
            let cu = c as u32;
            if 48 <= cu && cu <= 57 {
                if all_digits && !over {
                    let d = (cu - 48) as u64;
                    if val > (0x7fff_ffff_ffff_ffffu64 - d) / 10 {
                        over = true;
                        proof {
                            let dv = spec_digits_val(t@.take(i as int));
                            assert(dv * 10 + d > i64::MAX) by (nonlinear_arith)
                                requires
                                    dv == val,
                                    val > (0x7fff_ffff_ffff_ffffu64 - d) / 10,
                                    0 <= d <= 9,
                                    (0x7fff_ffff_ffff_ffffu64 - d) / 10 >= (0x7fff_ffff_ffff_ffffu64
                                        - d - 9) / 10,
                                    i64::MAX == 0x7fff_ffff_ffff_ffff,
                            ;
                        }
                    } else {
                        proof {
                            assert(val * 10 + d <= 0x7fff_ffff_ffff_ffff) by (nonlinear_arith)
                                requires
                                    val <= (0x7fff_ffff_ffff_ffffu64 - d) / 10,
                                    0 <= d <= 9,
                            ;
                        }
                        val = val * 10 + d;
                    }
                } else if all_digits && over {
                    proof {
                        let dv = spec_digits_val(t@.take(i as int));
                        lemma_digits_val_nonneg(t@.take(i as int));
                        assert(dv * 10 + ((t@[i as int] as u32) - 48) > i64::MAX)
                            by (nonlinear_arith)
                            requires
                                dv > i64::MAX,
                                (t@[i as int] as u32) >= 48,
                                i64::MAX == 0x7fff_ffff_ffff_ffff,
                        ;
                    }
                }
            } else {
                all_digits = false;
            }
            i = i + 1;
        }
        let suffix = t.as_str().get_char(tn - 1);
        let unit: i64 = match suffix {
            'd' | 'D' => 86400,
            'w' | 'W' => 604800,
            'h' | 'H' => 3600,
            _ => 0,
        };
        proof {
            assert(t@.take(tn - 1 as int) =~= t@.take(t@.len() - 1));
        }
        if all_digits && !over && val >= 1 && unit > 0 {
            proof {
                assert(0 < (val as int) * (unit as int) <= 0x7fff_ffff_ffff_ffffi64 * 604800)
                    by (nonlinear_arith)
                    requires
                        1 <= val <= 0x7fff_ffff_ffff_ffffi64,
                        0 < unit <= 604800,
                ;
            }
            let e: i128 = (now_epoch as i128) - (val as i128) * (unit as i128);
            if -0x8000_0000_0000_0000i128 <= e && e <= 0x7fff_ffff_ffff_ffffi128 {
                return Ok(e as i64);
            } else {
                return Err(TimeFilterError::OutOfRange { value: value.to_owned() });
            }
        }
        proof {
            assert(spec_relative_parts(value@) is None);
        }
    }
    // RFC 3339 instant, on the raw text.
    match parse_rfc3339(value) {
        Some(ts) => {
            return Ok(ts.epoch_seconds);
        },
        None => {},
    }
    // Plain date, midnight UTC.
    let n = value.unicode_len();
    if n == 10 {
        let mut digits_ok = true;
        let mut k: usize = 0;
        while k < 10
            invariant
                0 <= k <= 10,
                n == value@.len() == 10,
                digits_ok == (forall|j: int|
                    0 <= j < k ==> (j == 4 || j == 7 || spec_is_digit(#[trigger] value@[j])) && (j
                        == 4 ==> value@[j] == '-') && (j == 7 ==> value@[j] == '-')),
            decreases 10 - k,
        {
            let c = value.get_char(k);
            if k == 4 || k == 7 {
                if c != '-' {
                    digits_ok = false;
                }
            } else {
                let cu = c as u32;
                if !(48 <= cu && cu <= 57) {
                    digits_ok = false;
                }
            }
            k = k + 1;
        }
        if digits_ok {
            let y = digit_at(value, 0) * 1000 + digit_at(value, 1) * 100 + digit_at(value, 2) * 10
                + digit_at(value, 3);
            let m = digit_at(value, 5) * 10 + digit_at(value, 6);
            let d = digit_at(value, 8) * 10 + digit_at(value, 9);
            proof {
                lemma_fixed_digits(value@);
            }
            if 1 <= m && m <= 12 && 1 <= d && d <= days_in_month(y, m) {
                let day = days_from_civil(y, m, d);
                proof {
                    assert(-800000 <= spec_days_from_civil(y as int, m as int, d as int)
                        <= 3000000);
                }
                return Ok(day * 86400);
            }
        }
    }
    Err(TimeFilterError::Unparseable { value: value.to_owned() })
}

/// Value of the digit at the given position.
fn digit_at(s: &str, i: usize) -> (r: u64)
    requires
        i < s@.len(),
        spec_is_digit(s@[i as int]),
    ensures
        r == (s@[i as int] as u32) - 48,
        0 <= r <= 9,
{
    let c = s.get_char(i);
    ((c as u32) - 48) as u64
}

/// Unfolds the digit values of the three fixed-width groups of a
/// `YYYY-MM-DD` string.
proof fn lemma_fixed_digits(s: Seq<char>)
    requires
        s.len() == 10,
    ensures
        spec_digits_val(s.take(4)) == (((s[0] as u32) - 48) * 1000 + ((s[1] as u32) - 48) * 100 + ((
        s[2] as u32) - 48) * 10 + ((s[3] as u32) - 48)),
        spec_digits_val(s.subrange(5, 7)) == ((s[5] as u32) - 48) * 10 + ((s[6] as u32) - 48),
        spec_digits_val(s.subrange(8, 10)) == ((s[8] as u32) - 48) * 10 + ((s[9] as u32) - 48),
{
    reveal_with_fuel(spec_digits_val, 5);
    let q4 = s.take(4);
    assert(q4.drop_last() =~= s.take(3));
    assert(s.take(3).drop_last() =~= s.take(2));
    assert(s.take(2).drop_last() =~= s.take(1));
    assert(s.take(1).drop_last() =~= s.take(0));
    assert(s.take(0) =~= Seq::<char>::empty());
    assert(q4.last() == s[3] && s.take(3).last() == s[2] && s.take(2).last() == s[1] && s.take(
        1,
    ).last() == s[0]);
    assert(spec_digits_val(s.take(1)) == (s[0] as u32) - 48);
    assert(spec_digits_val(s.take(2)) == ((s[0] as u32) - 48) * 10 + ((s[1] as u32) - 48));
    assert(spec_digits_val(s.take(3)) == (((s[0] as u32) - 48) * 10 + ((s[1] as u32) - 48)) * 10 + (
    (s[2] as u32) - 48));
    let m2 = s.subrange(5, 7);
    assert(m2.drop_last() =~= s.subrange(5, 6));
    assert(s.subrange(5, 6).drop_last() =~= Seq::<char>::empty());
    assert(m2.last() == s[6] && s.subrange(5, 6).last() == s[5]);
    let d2 = s.subrange(8, 10);
    assert(d2.drop_last() =~= s.subrange(8, 9));
    assert(s.subrange(8, 9).drop_last() =~= Seq::<char>::empty());
    assert(d2.last() == s[9] && s.subrange(8, 9).last() == s[8]);
}


/// The implicit `since` bound when none was given: `window_days` days
/// before now, or no bound at all when the window is disabled with 0.
/// `None` with a positive window means the subtraction left the
/// representable range.
pub fn window_since(now_epoch: i64, window_days: u32) -> (r: Option<i64>)
    ensures
        window_days == 0 ==> r is None,
        window_days > 0 ==> match r {
            Some(e) => e == now_epoch - window_days * 86400,
            None => now_epoch - window_days * 86400 < i64::MIN,
        },
{
    if window_days == 0 {
        return None;
    }
    let span: i128 = (window_days as i128) * 86400;
    let e: i128 = (now_epoch as i128) - span;
    if e >= -0x8000_0000_0000_0000i128 {
        Some(e as i64)
    } else {
        None
    }
}

/// A window is usable when `since` comes strictly before `until`, with
/// absent bounds never objecting.
pub fn window_valid(since: Option<i64>, until: Option<i64>) -> (r: bool)
    ensures
        r == match (since, until) {
            (Some(s), Some(u)) => s < u,
            _ => true,
        },
{
    match (since, until) {
        (Some(s), Some(u)) => s < u,
        _ => true,
    }
}

} // verus!
