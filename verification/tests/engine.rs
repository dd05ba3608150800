use cow_horse::civil::days_from_civil;
use cow_horse::metrics::{compute_metrics, AliasRule};
use cow_horse::rank::AuthorSummary;
use cow_horse::rewrite::rewrite_commits;
use cow_horse::severity::{severity_floor, severity_label, SeverityBand};
use cow_horse::streak::longest_streak;
use cow_horse::timestamp::Timestamp;
use cow_horse::Commit;

fn at(y: u64, m: u64, d: u64, hour: i64, minute: i64, offset_seconds: i32) -> Timestamp {
    let day = days_from_civil(y, m, d);
    let local = day * 86400 + hour * 3600 + minute * 60;
    Timestamp {
        epoch_seconds: local - offset_seconds as i64,
        offset_seconds,
    }
}

fn commit(author: &str, ts: Timestamp) -> Commit {
    Commit {
        author: author.to_string(),
        timestamp: ts,
    }
}

#[test]
fn epoch_day_zero_was_a_thursday() {
    let t = Timestamp {
        epoch_seconds: 0,
        offset_seconds: 0,
    };
    let f = t.local_fields();
    assert_eq!(f.day, 0);
    assert_eq!(f.hour, 0);
    assert_eq!(f.weekday, 3);
}

#[test]
fn negative_epoch_rolls_into_previous_day() {
    let t = Timestamp {
        epoch_seconds: -1,
        offset_seconds: 0,
    };
    let f = t.local_fields();
    assert_eq!(f.day, -1);
    assert_eq!(f.hour, 23);
    assert_eq!(f.weekday, 2);
}

#[test]
fn offset_moves_the_local_calendar() {
    // Midnight UTC with +08:00 offset reads as 08:00 the same day.
    let t = Timestamp {
        epoch_seconds: 0,
        offset_seconds: 8 * 3600,
    };
    let f = t.local_fields();
    assert_eq!(f.day, 0);
    assert_eq!(f.hour, 8);
}

#[test]
fn known_date_has_known_day_number_and_weekday() {
    // 2024-03-06 was a Wednesday.
    let day = days_from_civil(2024, 3, 6);
    let t = Timestamp {
        epoch_seconds: day * 86400,
        offset_seconds: 0,
    };
    let f = t.local_fields();
    assert_eq!(f.day, day);
    assert_eq!(f.weekday, 2);
    // Unix day numbers of well-known dates.
    assert_eq!(days_from_civil(1970, 1, 1), 0);
    assert_eq!(days_from_civil(2000, 3, 1), 11017);
    assert_eq!(days_from_civil(1969, 12, 31), -1);
}

#[test]
fn single_weekday_commit_stays_relaxed() {
    // One commit, Wed 2024-03-06 14:00 +08:00.
    let commits = vec![commit("A", at(2024, 3, 6, 14, 0, 8 * 3600))];
    let m = compute_metrics(".", &commits, Vec::new(), Vec::new());
    assert_eq!(m.total_commits, 1);
    assert_eq!(m.after_hours_commits, 0);
    assert_eq!(m.weekend_commits, 0);
    assert_eq!(m.night_commits, 0);
    assert_eq!(m.commit_days, 1);
    assert_eq!(m.overtime_days, 0);
    assert_eq!(m.longest_streak_days, 1);
    assert_eq!(m.unique_authors, 1);
    let busiest = m.busiest_day.expect("one commit day");
    assert_eq!(busiest.date, days_from_civil(2024, 3, 6));
    assert_eq!(busiest.total_commits, 1);
    assert_eq!(busiest.after_hours_commits, 0);
    // Exact score is 10 * (1/14): floor 0, lowest band.
    assert_eq!(m.severity_floor, 0);
    assert_eq!(m.severity_label, SeverityBand::Relaxed);
    assert_eq!(m.severity_label.text(), "轻松自在");
    assert_eq!(m.top_after_hours_authors.len(), 1);
    assert_eq!(m.top_after_hours_authors[0].name, "A");
    assert_eq!(m.top_after_hours_authors[0].after_hours_commits, 0);
    assert_eq!(m.chill_authors.len(), 1);
    assert_eq!(m.chill_authors[0].name, "A");
}

#[test]
fn all_night_weekend_saturdays_hit_the_top_band() {
    // Three consecutive Saturdays at 02:00 local, one author.
    let commits = vec![
        commit("B", at(2024, 3, 2, 2, 0, 0)),
        commit("B", at(2024, 3, 9, 2, 0, 0)),
        commit("B", at(2024, 3, 16, 2, 0, 0)),
    ];
    let m = compute_metrics(".", &commits, Vec::new(), Vec::new());
    assert_eq!(m.total_commits, 3);
    assert_eq!(m.after_hours_commits, 3);
    assert_eq!(m.weekend_commits, 3);
    assert_eq!(m.night_commits, 3);
    assert_eq!(m.commit_days, 3);
    assert_eq!(m.overtime_days, 3);
    assert_eq!(m.longest_streak_days, 1);
    // Score is 40 + 20 + 20 + 10 + 10/14 ~= 90.71: floor 90.
    assert_eq!(m.severity_floor, 90);
    assert_eq!(m.severity_label, SeverityBand::FullCowHorse);
    assert_eq!(m.severity_label.text(), "全面牛马预警");
}

#[test]
fn five_consecutive_noons_only_stretch_the_streak() {
    let commits = vec![
        commit("E", at(2024, 3, 4, 12, 0, 0)),
        commit("E", at(2024, 3, 5, 12, 0, 0)),
        commit("E", at(2024, 3, 6, 12, 0, 0)),
        commit("E", at(2024, 3, 7, 12, 0, 0)),
        commit("E", at(2024, 3, 8, 12, 0, 0)),
    ];
    let m = compute_metrics(".", &commits, Vec::new(), Vec::new());
    assert_eq!(m.longest_streak_days, 5);
    assert_eq!(m.overtime_days, 0);
    assert_eq!(m.after_hours_commits, 0);
    // Score is 10 * (5/14) ~= 3.57: floor 3, lowest band.
    assert_eq!(m.severity_floor, 3);
    assert_eq!(m.severity_label, SeverityBand::Relaxed);
    assert_eq!(m.severity_label.text(), "轻松自在");
}

#[test]
fn nightowl_tie_breaks_by_after_hours_count() {
    // Both authors have ratio 1.0; C has 5 after-hours commits, D has 3.
    let mut commits = Vec::new();
    for k in 0..5 {
        commits.push(commit("C", at(2024, 3, 4 + k, 23, 30, 0)));
    }
    for k in 0..3 {
        commits.push(commit("D", at(2024, 3, 4 + k, 23, 45, 0)));
    }
    let m = compute_metrics(".", &commits, Vec::new(), Vec::new());
    assert_eq!(m.top_after_hours_authors.len(), 2);
    assert_eq!(m.top_after_hours_authors[0].name, "C");
    assert_eq!(m.top_after_hours_authors[0].after_hours_commits, 5);
    assert_eq!(m.top_after_hours_authors[1].name, "D");
    assert_eq!(m.top_after_hours_authors[1].after_hours_commits, 3);
}

#[test]
fn alias_merges_two_spellings_into_one_author() {
    let commits = vec![
        commit("alice", at(2024, 3, 6, 14, 0, 0)),
        commit("Alice Smith", at(2024, 3, 7, 15, 0, 0)),
    ];
    let aliases = vec![AliasRule {
        from: "alice".to_string(),
        to: "Alice Smith".to_string(),
    }];
    let rewritten = rewrite_commits(&commits, &Vec::new(), &aliases);
    let m = compute_metrics(".", &rewritten, Vec::new(), aliases);
    assert_eq!(m.unique_authors, 1);
    assert_eq!(m.total_commits, 2);
    assert_eq!(m.top_after_hours_authors[0].name, "Alice Smith");
    assert_eq!(m.top_after_hours_authors[0].total_commits, 2);
}

#[test]
fn ignoring_every_author_leaves_nothing_to_analyze() {
    let commits = vec![
        commit("A", at(2024, 3, 6, 14, 0, 0)),
        commit("B", at(2024, 3, 7, 15, 0, 0)),
    ];
    let ignored = vec!["A".to_string(), "B".to_string()];
    let rewritten = rewrite_commits(&commits, &ignored, &Vec::new());
    assert!(rewritten.is_empty());
}

#[test]
fn empty_input_yields_the_zero_record() {
    let commits: Vec<Commit> = Vec::new();
    let m = compute_metrics("/repo", &commits, Vec::new(), Vec::new());
    assert_eq!(m.repo_path, "/repo");
    assert_eq!(m.total_commits, 0);
    assert_eq!(m.unique_authors, 0);
    assert_eq!(m.commit_days, 0);
    assert_eq!(m.overtime_days, 0);
    assert_eq!(m.longest_streak_days, 0);
    assert!(m.busiest_day.is_none());
    assert!(m.analysis_start.is_none());
    assert!(m.analysis_end.is_none());
    assert_eq!(m.severity_floor, 0);
    assert!(m.top_after_hours_authors.is_empty());
    assert!(m.chill_authors.is_empty());
}

#[test]
fn counters_respect_the_totals() {
    // A mixed pile of commits; the record's internal inequalities hold.
    let commits = vec![
        commit("A", at(2024, 3, 2, 2, 0, 0)),
        commit("B", at(2024, 3, 6, 14, 0, 0)),
        commit("A", at(2024, 3, 6, 23, 30, 0)),
        commit("C", at(2024, 3, 9, 9, 0, 7200)),
        commit("B", at(2024, 3, 10, 12, 0, -3600)),
    ];
    let m = compute_metrics(".", &commits, Vec::new(), Vec::new());
    assert!(m.after_hours_commits <= m.total_commits);
    assert!(m.weekend_commits <= m.total_commits);
    assert!(m.night_commits <= m.total_commits);
    assert!(m.overtime_days <= m.commit_days);
    assert!(m.commit_days <= m.total_commits);
    assert!(m.unique_authors <= m.total_commits);
    assert!(m.severity_floor <= 100);
    assert!(m.top_after_hours_authors.len() <= 3);
    assert!(m.chill_authors.len() <= 3);
}

#[test]
fn ranked_lists_are_ordered_and_capped_at_three() {
    let commits = vec![
        commit("w", at(2024, 3, 4, 23, 0, 0)),
        commit("x", at(2024, 3, 4, 12, 0, 0)),
        commit("x", at(2024, 3, 5, 23, 0, 0)),
        commit("y", at(2024, 3, 5, 12, 0, 0)),
        commit("y", at(2024, 3, 6, 12, 0, 0)),
        commit("z", at(2024, 3, 6, 13, 0, 0)),
    ];
    let m = compute_metrics(".", &commits, Vec::new(), Vec::new());
    assert_eq!(m.unique_authors, 4);
    assert_eq!(m.top_after_hours_authors.len(), 3);
    assert_eq!(m.chill_authors.len(), 3);
    let ratio = |a: &AuthorSummary| a.after_hours_commits as f64 / a.total_commits as f64;
    for pair in m.top_after_hours_authors.windows(2) {
        assert!(ratio(&pair[0]) >= ratio(&pair[1]));
        if (ratio(&pair[0]) - ratio(&pair[1])).abs() < 1e-12 {
            assert!(pair[0].after_hours_commits >= pair[1].after_hours_commits);
        }
    }
    for pair in m.chill_authors.windows(2) {
        assert!(ratio(&pair[0]) <= ratio(&pair[1]));
        if (ratio(&pair[0]) - ratio(&pair[1])).abs() < 1e-12 {
            assert!(pair[0].total_commits >= pair[1].total_commits);
        }
    }
    // The night-owl list starts with the only all-after-hours author.
    assert_eq!(m.top_after_hours_authors[0].name, "w");
}

#[test]
fn busiest_day_breaks_ties_toward_after_hours_then_later_date() {
    let commits = vec![
        commit("A", at(2024, 3, 4, 12, 0, 0)),
        commit("A", at(2024, 3, 4, 13, 0, 0)),
        commit("A", at(2024, 3, 5, 12, 0, 0)),
        commit("A", at(2024, 3, 5, 23, 0, 0)),
    ];
    let m = compute_metrics(".", &commits, Vec::new(), Vec::new());
    let b = m.busiest_day.expect("commits exist");
    // Both days have two commits; March 5 has an after-hours one.
    assert_eq!(b.date, days_from_civil(2024, 3, 5));
    assert_eq!(b.total_commits, 2);
    assert_eq!(b.after_hours_commits, 1);
}

#[test]
fn analysis_window_spans_min_and_max_instants() {
    let early = at(2024, 3, 4, 9, 0, 3600);
    let late = at(2024, 3, 9, 21, 0, -7200);
    let commits = vec![
        commit("A", late),
        commit("A", early),
        commit("A", at(2024, 3, 6, 12, 0, 0)),
    ];
    let m = compute_metrics(".", &commits, Vec::new(), Vec::new());
    assert_eq!(m.analysis_start.unwrap().epoch_seconds, early.epoch_seconds);
    assert_eq!(m.analysis_start.unwrap().offset_seconds, 3600);
    assert_eq!(m.analysis_end.unwrap().epoch_seconds, late.epoch_seconds);
    assert_eq!(m.analysis_end.unwrap().offset_seconds, -7200);
}

#[test]
fn streak_scan_matches_the_rules() {
    assert_eq!(longest_streak(&vec![]), 0);
    assert_eq!(longest_streak(&vec![100]), 1);
    assert_eq!(longest_streak(&vec![100, 101, 102]), 3);
    assert_eq!(longest_streak(&vec![100, 101, 103]), 2);
    assert_eq!(longest_streak(&vec![100, 102, 103]), 2);
    assert_eq!(longest_streak(&vec![100, 102, 104]), 1);
    assert_eq!(longest_streak(&vec![1, 2, 3, 10, 11, 12, 13, 20]), 4);
}

#[test]
fn severity_formula_gives_exact_floors() {
    // All ratios 1, streak 1: 40 + 20 + 20 + 10 + 10/14 -> floor 90.
    assert_eq!(severity_floor(3, 3, 3, 3, 3, 3, 1), 90);
    // Streak factor alone, 5 days: 50/14 -> floor 3.
    assert_eq!(severity_floor(5, 0, 0, 0, 0, 5, 5), 3);
    // No commits: zero.
    assert_eq!(severity_floor(0, 0, 0, 0, 0, 0, 0), 0);
    // Streak capped at 14: full streak points.
    assert_eq!(severity_floor(20, 0, 0, 0, 0, 20, 20), 10);
    // Half the commits after hours and one overtime day of two:
    // 40/2 + 10/2 + 10/14 -> floor 25.
    assert_eq!(severity_floor(2, 1, 0, 0, 1, 2, 1), 25);
}

#[test]
fn band_boundaries_use_the_floor() {
    assert_eq!(severity_label(0), SeverityBand::Relaxed);
    assert_eq!(severity_label(20), SeverityBand::Relaxed);
    assert_eq!(severity_label(21), SeverityBand::Healthy);
    assert_eq!(severity_label(40), SeverityBand::Healthy);
    assert_eq!(severity_label(41), SeverityBand::SteadyOvertime);
    assert_eq!(severity_label(60), SeverityBand::SteadyOvertime);
    assert_eq!(severity_label(61), SeverityBand::HalfCowHorse);
    assert_eq!(severity_label(80), SeverityBand::HalfCowHorse);
    assert_eq!(severity_label(81), SeverityBand::FullCowHorse);
    assert_eq!(severity_label(100), SeverityBand::FullCowHorse);
    assert_eq!(severity_label(40).text(), "基本健康");
    assert_eq!(severity_label(60).text(), "持续加班");
    assert_eq!(severity_label(80).text(), "半牛马状态");
}

#[test]
fn identity_alias_changes_no_metrics() {
    let commits = vec![
        commit("A", at(2024, 3, 2, 2, 0, 0)),
        commit("B", at(2024, 3, 6, 14, 0, 0)),
    ];
    let identity = vec![
        AliasRule {
            from: "A".to_string(),
            to: "A".to_string(),
        },
        AliasRule {
            from: "B".to_string(),
            to: "B".to_string(),
        },
    ];
    let with_identity = rewrite_commits(&commits, &Vec::new(), &identity);
    let with_none = rewrite_commits(&commits, &Vec::new(), &Vec::new());
    let m1 = compute_metrics(".", &with_identity, Vec::new(), Vec::new());
    let m2 = compute_metrics(".", &with_none, Vec::new(), Vec::new());
    assert_eq!(m1.total_commits, m2.total_commits);
    assert_eq!(m1.unique_authors, m2.unique_authors);
    assert_eq!(m1.after_hours_commits, m2.after_hours_commits);
    assert_eq!(m1.severity_floor, m2.severity_floor);
    assert_eq!(m1.top_after_hours_authors, m2.top_after_hours_authors);
}

#[test]
fn ignoring_equals_upstream_filtering() {
    let commits = vec![
        commit("keep", at(2024, 3, 2, 2, 0, 0)),
        commit("drop", at(2024, 3, 6, 14, 0, 0)),
        commit("keep", at(2024, 3, 7, 15, 0, 0)),
    ];
    let ignored = vec!["drop".to_string()];
    let via_ignore = rewrite_commits(&commits, &ignored, &Vec::new());
    let prefiltered: Vec<Commit> = commits
        .iter()
        .filter(|c| c.author != "drop")
        .map(|c| c.duplicate())
        .collect();
    let via_filter = rewrite_commits(&prefiltered, &Vec::new(), &Vec::new());
    assert_eq!(via_ignore.len(), via_filter.len());
    for (a, b) in via_ignore.iter().zip(via_filter.iter()) {
        assert_eq!(a.author, b.author);
        assert_eq!(a.timestamp, b.timestamp);
    }
}
