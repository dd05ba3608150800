use cow_horse::alias::{parse_aliases, AliasError};
use cow_horse::civil::days_from_civil;
use cow_horse::gitline::{parse_git_output, SourceError};
use cow_horse::metrics::AliasRule;
use cow_horse::names::{build_ignore_list, sort_alias_rules, str_lex_lt};
use cow_horse::pushcheck::{plan_push_check, PushCheckAction};
use cow_horse::timefilter::{parse_time_filter, window_since, window_valid, TimeFilterError};

#[test]
fn aliases_parse_trimmed_pairs() {
    let raw = vec![" alice = Alice Smith ".to_string(), "bob=B".to_string()];
    let rules = parse_aliases(&raw).expect("well-formed entries");
    assert_eq!(rules.len(), 2);
    assert_eq!(rules[0].from, "alice");
    assert_eq!(rules[0].to, "Alice Smith");
    assert_eq!(rules[1].from, "bob");
    assert_eq!(rules[1].to, "B");
}

#[test]
fn alias_right_side_keeps_later_equals_signs() {
    let raw = vec!["a=b=c".to_string()];
    let rules = parse_aliases(&raw).expect("split at the first separator");
    assert_eq!(rules[0].from, "a");
    assert_eq!(rules[0].to, "b=c");
}

#[test]
fn alias_without_separator_is_rejected() {
    let raw = vec!["ok=fine".to_string(), "broken".to_string()];
    match parse_aliases(&raw) {
        Err(AliasError::MissingSeparator { entry }) => assert_eq!(entry, "broken"),
        other => panic!("expected a missing separator, got {:?}", other),
    }
}

#[test]
fn alias_with_empty_side_is_rejected() {
    let raw = vec![" =x".to_string()];
    match parse_aliases(&raw) {
        Err(AliasError::EmptySide { entry }) => assert_eq!(entry, " =x"),
        other => panic!("expected an empty side, got {:?}", other),
    }
    let raw2 = vec!["x=  ".to_string()];
    assert!(matches!(
        parse_aliases(&raw2),
        Err(AliasError::EmptySide { .. })
    ));
}

#[test]
fn alias_with_repeated_from_is_rejected() {
    let raw = vec!["a=b".to_string(), " a =c".to_string()];
    match parse_aliases(&raw) {
        Err(AliasError::DuplicateFrom { from }) => assert_eq!(from, "a"),
        other => panic!("expected a duplicate, got {:?}", other),
    }
}

#[test]
fn relative_filters_count_back_from_now() {
    let now = 1_700_000_000i64;
    assert_eq!(parse_time_filter("30d", now).unwrap(), now - 30 * 86400);
    assert_eq!(parse_time_filter(" 2W ", now).unwrap(), now - 2 * 604800);
    assert_eq!(parse_time_filter("12h", now).unwrap(), now - 12 * 3600);
}

#[test]
fn zero_or_signed_relative_is_no_relative() {
    let now = 1_700_000_000i64;
    assert!(matches!(
        parse_time_filter("0d", now),
        Err(TimeFilterError::Unparseable { .. })
    ));
    assert!(matches!(
        parse_time_filter("+5d", now),
        Err(TimeFilterError::Unparseable { .. })
    ));
}

#[test]
fn huge_relative_values_are_handled() {
    let now = 0i64;
    // Too many digits for an i64: not a relative form at all.
    assert!(matches!(
        parse_time_filter("99999999999999999999d", now),
        Err(TimeFilterError::Unparseable { .. })
    ));
    // Fits an i64, but the subtraction leaves the representable range.
    assert!(matches!(
        parse_time_filter("9000000000000000000h", now),
        Err(TimeFilterError::OutOfRange { .. })
    ));
}

#[test]
fn rfc3339_filter_converts_to_utc() {
    let now = 0i64;
    let day = days_from_civil(2024, 3, 6);
    let expect = day * 86400 + 14 * 3600 - 8 * 3600;
    assert_eq!(
        parse_time_filter("2024-03-06T14:00:00+08:00", now).unwrap(),
        expect
    );
}

#[test]
fn plain_date_filter_is_midnight_utc() {
    let now = 0i64;
    let day = days_from_civil(2024, 3, 6);
    assert_eq!(parse_time_filter("2024-03-06", now).unwrap(), day * 86400);
    // Leap-day handling.
    let leap = days_from_civil(2024, 2, 29);
    assert_eq!(parse_time_filter("2024-02-29", now).unwrap(), leap * 86400);
    assert!(matches!(
        parse_time_filter("2023-02-29", now),
        Err(TimeFilterError::Unparseable { .. })
    ));
    assert!(matches!(
        parse_time_filter("2024-13-01", now),
        Err(TimeFilterError::Unparseable { .. })
    ));
    assert!(matches!(
        parse_time_filter("garbage", now),
        Err(TimeFilterError::Unparseable { .. })
    ));
}

#[test]
fn git_lines_parse_into_commits() {
    let day = days_from_civil(2024, 3, 6);
    // Two commit lines around a blank one; the second ends in a carriage
    // return, which is stripped.
    let text = "abc123\u{1f}Alice\u{1f}2024-03-06T14:00:00+08:00\n\ndef456\u{1f}Bob Builder\u{1f}2024-03-06T02:00:00-05:00\r\n";
    let commits = parse_git_output(text).expect("well-formed lines");
    assert_eq!(commits.len(), 2);
    assert_eq!(commits[0].author, "Alice");
    assert_eq!(
        commits[0].timestamp.epoch_seconds,
        day * 86400 + 14 * 3600 - 8 * 3600
    );
    assert_eq!(commits[0].timestamp.offset_seconds, 8 * 3600);
    assert_eq!(commits[1].author, "Bob Builder");
    assert_eq!(
        commits[1].timestamp.epoch_seconds,
        day * 86400 + 2 * 3600 + 5 * 3600
    );
    assert_eq!(commits[1].timestamp.offset_seconds, -5 * 3600);
}

#[test]
fn git_line_errors_name_the_first_violation() {
    assert!(matches!(
        parse_git_output("justahash"),
        Err(SourceError::MissingAuthor { .. })
    ));
    assert!(matches!(
        parse_git_output("hash\u{1f}author-only"),
        Err(SourceError::MissingTimestamp { .. })
    ));
    match parse_git_output("hash\u{1f}author\u{1f}not-a-time") {
        Err(SourceError::Timestamp { raw }) => assert_eq!(raw, "not-a-time"),
        other => panic!("expected a timestamp error, got {:?}", other),
    }
}

#[test]
fn empty_git_output_is_no_commits() {
    assert!(parse_git_output("").unwrap().is_empty());
    assert!(parse_git_output("\n\n  \n").unwrap().is_empty());
}

#[test]
fn push_check_reminds_after_the_threshold() {
    // 90 minutes since the last push, threshold 60: remind.
    let last = 1_000_000i64;
    let now = last + 90 * 60;
    assert_eq!(
        plan_push_check(now, Some(last), 60, false),
        PushCheckAction::RemindBreak { minutes_since: 90 }
    );
    // 30 minutes: keep going unless quiet.
    let soon = last + 30 * 60 + 59;
    assert_eq!(
        plan_push_check(soon, Some(last), 60, false),
        PushCheckAction::KeepGoing { minutes_since: 30 }
    );
    assert_eq!(
        plan_push_check(soon, Some(last), 60, true),
        PushCheckAction::Silent
    );
    // No record yet.
    assert_eq!(
        plan_push_check(now, None, 60, false),
        PushCheckAction::FirstRecord
    );
    assert_eq!(plan_push_check(now, None, 60, true), PushCheckAction::Silent);
    // Exactly at the threshold counts as due.
    assert_eq!(
        plan_push_check(last + 60 * 60, Some(last), 60, false),
        PushCheckAction::RemindBreak { minutes_since: 60 }
    );
}

#[test]
fn ignore_list_is_seeded_deduplicated_and_sorted() {
    let extra = vec![
        "zeta".to_string(),
        "alpha".to_string(),
        "alpha".to_string(),
        "BitsAdmin".to_string(),
    ];
    let list = build_ignore_list(&extra);
    assert_eq!(list, vec!["BitsAdmin", "alpha", "zeta"]);
    let none: Vec<String> = Vec::new();
    assert_eq!(build_ignore_list(&none), vec!["BitsAdmin"]);
}

#[test]
fn alias_rules_sort_by_from() {
    let rules = vec![
        AliasRule {
            from: "zoe".to_string(),
            to: "Z".to_string(),
        },
        AliasRule {
            from: "abe".to_string(),
            to: "A".to_string(),
        },
        AliasRule {
            from: "mia".to_string(),
            to: "M".to_string(),
        },
    ];
    let sorted = sort_alias_rules(&rules);
    let froms: Vec<&str> = sorted.iter().map(|r| r.from.as_str()).collect();
    assert_eq!(froms, vec!["abe", "mia", "zoe"]);
}

#[test]
fn string_order_is_by_scalar_value() {
    assert!(str_lex_lt("abc", "abd"));
    assert!(str_lex_lt("ab", "abc"));
    assert!(!str_lex_lt("abc", "abc"));
    assert!(str_lex_lt("Zebra", "apple"));
    assert!(!str_lex_lt("apple", "Zebra"));
}

#[test]
fn unix_conversion_checks_the_range() {
    let c = cow_horse::unixtime::convert_unix_timestamp(0).expect("epoch is representable");
    assert_eq!(c.timestamp, 0);
    assert_eq!(c.utc.epoch_seconds, 0);
    assert_eq!(c.utc.offset_seconds, 0);
    assert_eq!(c.local.epoch_seconds, 0);
    // Far outside chrono's calendar range.
    assert!(cow_horse::unixtime::convert_unix_timestamp(i64::MAX).is_none());
    assert!(cow_horse::unixtime::convert_unix_timestamp(i64::MIN).is_none());
}

#[test]
fn default_window_counts_back_whole_days() {
    let now = 1_700_000_000i64;
    assert_eq!(window_since(now, 90), Some(now - 90 * 86400));
    assert_eq!(window_since(now, 0), None);
    assert!(window_valid(Some(1), Some(2)));
    assert!(!window_valid(Some(2), Some(2)));
    assert!(!window_valid(Some(3), Some(2)));
    assert!(window_valid(None, Some(2)));
    assert!(window_valid(Some(3), None));
    assert!(window_valid(None, None));
}
