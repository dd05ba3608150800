//! The aggregation engine: folds a rewritten commit sequence into the
//! immutable metrics snapshot.
//!
//! One pass classifies every commit and accumulates global counters,
//! per-day stats (kept strictly sorted by day) and per-author stats (kept
//! unique by name). Afterwards the derived quantities are read off: commit
//! and overtime days, the longest streak, the busiest day, the severity
//! score with its band, and the two ranked author lists.

use vstd::prelude::*;

use crate::classify::{classify, spec_is_after_hours, spec_is_night, spec_is_weekend};
use crate::commit::Commit;
use crate::rank::{
    sort_authors, spec_key_precedes, spec_precedes, spec_sorted_authors,
    AuthorSummary,
};
use crate::severity::{
    severity_floor, severity_label, spec_band_of, spec_score_num, spec_severity_floor,
    SeverityBand,
};
use crate::streak::{lemma_streak_bounds, longest_streak, spec_streak};
use crate::timestamp::{spec_local_day, Timestamp};

verus! {

/// Number of commits in `s` that satisfy `p`.
pub open spec fn spec_count_matching(s: Seq<Commit>, p: spec_fn(Commit) -> bool) -> int
    decreases s.len(),
{
    if s.len() == 0 {
        0
    } else {
        spec_count_matching(s.drop_last(), p) + if p(s.last()) {
            1int
        } else {
            0int
        }
    }
}

proof fn lemma_count_push(s: Seq<Commit>, p: spec_fn(Commit) -> bool, c: Commit)
    ensures
        spec_count_matching(s.push(c), p) == spec_count_matching(s, p) + if p(c) {
            1int
        } else {
            0int
        },
{
    assert(s.push(c).drop_last() =~= s);
    assert(s.push(c).last() == c);
}

proof fn lemma_count_le_len(s: Seq<Commit>, p: spec_fn(Commit) -> bool)
    ensures
        0 <= spec_count_matching(s, p) <= s.len(),
    decreases s.len(),
{
    if s.len() > 0 {
        lemma_count_le_len(s.drop_last(), p);
    }
}

/// The after-hours predicate, as a named closure.
pub open spec fn after_hours_pred() -> spec_fn(Commit) -> bool {
    |c: Commit| spec_is_after_hours(c.timestamp)
}

/// The weekend predicate, as a named closure.
pub open spec fn weekend_pred() -> spec_fn(Commit) -> bool {
    |c: Commit| spec_is_weekend(c.timestamp)
}

/// The night predicate, as a named closure.
pub open spec fn night_pred() -> spec_fn(Commit) -> bool {
    |c: Commit| spec_is_night(c.timestamp)
}

/// Commits whose local calendar day is `d`.
pub open spec fn day_pred(d: int) -> spec_fn(Commit) -> bool {
    |c: Commit| spec_local_day(c.timestamp) == d
}

/// After-hours commits whose local calendar day is `d`.
pub open spec fn day_ah_pred(d: int) -> spec_fn(Commit) -> bool {
    |c: Commit| spec_local_day(c.timestamp) == d && spec_is_after_hours(c.timestamp)
}

/// Commits by author `a`.
pub open spec fn author_pred(a: Seq<char>) -> spec_fn(Commit) -> bool {
    |c: Commit| c.author@ == a
}

/// After-hours commits by author `a`.
pub open spec fn author_ah_pred(a: Seq<char>) -> spec_fn(Commit) -> bool {
    |c: Commit| c.author@ == a && spec_is_after_hours(c.timestamp)
}

/// Weekend commits by author `a`.
pub open spec fn author_we_pred(a: Seq<char>) -> spec_fn(Commit) -> bool {
    |c: Commit| c.author@ == a && spec_is_weekend(c.timestamp)
}

/// Night commits by author `a`.
pub open spec fn author_nt_pred(a: Seq<char>) -> spec_fn(Commit) -> bool {
    |c: Commit| c.author@ == a && spec_is_night(c.timestamp)
}

/// How many commits of `s` are after-hours.
pub open spec fn spec_after_hours_count(s: Seq<Commit>) -> int {
    spec_count_matching(s, after_hours_pred())
}

/// How many commits of `s` fall on a weekend.
pub open spec fn spec_weekend_count(s: Seq<Commit>) -> int {
    spec_count_matching(s, weekend_pred())
}

/// How many commits of `s` fall at night.
pub open spec fn spec_night_count(s: Seq<Commit>) -> int {
    spec_count_matching(s, night_pred())
}

/// How many commits of `s` fall on local day `d`.
pub open spec fn spec_total_on_day(s: Seq<Commit>, d: int) -> int {
    spec_count_matching(s, day_pred(d))
}

/// How many after-hours commits of `s` fall on local day `d`.
pub open spec fn spec_ah_on_day(s: Seq<Commit>, d: int) -> int {
    spec_count_matching(s, day_ah_pred(d))
}

/// How many commits of `s` the author named `a` made.
pub open spec fn spec_author_total(s: Seq<Commit>, a: Seq<char>) -> int {
    spec_count_matching(s, author_pred(a))
}

/// How many after-hours commits of `s` the author named `a` made.
pub open spec fn spec_author_ah(s: Seq<Commit>, a: Seq<char>) -> int {
    spec_count_matching(s, author_ah_pred(a))
}

/// How many weekend commits of `s` the author named `a` made.
pub open spec fn spec_author_we(s: Seq<Commit>, a: Seq<char>) -> int {
    spec_count_matching(s, author_we_pred(a))
}

/// How many night commits of `s` the author named `a` made.
pub open spec fn spec_author_nt(s: Seq<Commit>, a: Seq<char>) -> int {
    spec_count_matching(s, author_nt_pred(a))
}

/// The set of local calendar days with at least one commit.
pub open spec fn spec_day_set(s: Seq<Commit>) -> Set<int>
    decreases s.len(),
{
    if s.len() == 0 {
        Set::empty()
    } else {
        spec_day_set(s.drop_last()).insert(spec_local_day(s.last().timestamp))
    }
}

/// The set of author names with at least one commit.
pub open spec fn spec_author_set(s: Seq<Commit>) -> Set<Seq<char>>
    decreases s.len(),
{
    if s.len() == 0 {
        Set::empty()
    } else {
        spec_author_set(s.drop_last()).insert(s.last().author@)
    }
}

/// The commit days with at least one after-hours commit.
pub open spec fn spec_overtime_day_set(s: Seq<Commit>) -> Set<int> {
    spec_day_set(s).filter(|d: int| spec_ah_on_day(s, d) > 0)
}

/// A day-number sequence widened to mathematical integers.
pub open spec fn spec_day_seq_ints(q: Seq<i64>) -> Seq<int> {
    q.map_values(|d: i64| d as int)
}

proof fn lemma_day_set_finite(s: Seq<Commit>)
    ensures
        spec_day_set(s).finite(),
        spec_day_set(s).len() <= s.len(),
        s.len() > 0 ==> spec_day_set(s).len() >= 1,
    decreases s.len(),
{
    if s.len() > 0 {
        lemma_day_set_finite(s.drop_last());
    }
}

proof fn lemma_author_set_finite(s: Seq<Commit>)
    ensures
        spec_author_set(s).finite(),
        spec_author_set(s).len() <= s.len(),
    decreases s.len(),
{
    if s.len() > 0 {
        lemma_author_set_finite(s.drop_last());
    }
}

/// A day outside the day set has no commits; an author outside the author
/// set has none either.
proof fn lemma_absent_day_count_zero(s: Seq<Commit>, d: int)
    requires
        !spec_day_set(s).contains(d),
    ensures
        spec_total_on_day(s, d) == 0,
        spec_ah_on_day(s, d) == 0,
    decreases s.len(),
{
    if s.len() > 0 {
        lemma_absent_day_count_zero(s.drop_last(), d);
    }
}

proof fn lemma_absent_author_count_zero(s: Seq<Commit>, a: Seq<char>)
    requires
        !spec_author_set(s).contains(a),
    ensures
        spec_author_total(s, a) == 0,
        spec_author_ah(s, a) == 0,
        spec_author_we(s, a) == 0,
        spec_author_nt(s, a) == 0,
    decreases s.len(),
{
    if s.len() > 0 {
        lemma_absent_author_count_zero(s.drop_last(), a);
    }
}

/// Earliest instant of the sequence: the first commit holding the minimal
/// epoch second, offset preserved; `None` for the empty sequence.
pub open spec fn spec_analysis_start(s: Seq<Commit>) -> Option<Timestamp>
    decreases s.len(),
{
    if s.len() == 0 {
        None
    } else {
        match spec_analysis_start(s.drop_last()) {
            None => Some(s.last().timestamp),
            Some(m) => if s.last().timestamp.epoch_seconds < m.epoch_seconds {
                Some(s.last().timestamp)
            } else {
                Some(m)
            },
        }
    }
}

/// Latest instant of the sequence: the first commit holding the maximal
/// epoch second, offset preserved; `None` for the empty sequence.
pub open spec fn spec_analysis_end(s: Seq<Commit>) -> Option<Timestamp>
    decreases s.len(),
{
    if s.len() == 0 {
        None
    } else {
        match spec_analysis_end(s.drop_last()) {
            None => Some(s.last().timestamp),
            Some(m) => if s.last().timestamp.epoch_seconds > m.epoch_seconds {
                Some(s.last().timestamp)
            } else {
                Some(m)
            },
        }
    }
}

/// Per-day accumulator: the day number with its commit counts.
struct DayStats {
    day: i64,
    total_commits: usize,
    after_hours_commits: usize,
}

/// The busiest calendar day: most commits, ties broken by more after-hours
/// commits, then by the later date.
#[derive(Debug, PartialEq)]
pub struct BusiestDay {
    /// Local calendar day number (days since 1970-01-01).
    pub date: i64,
    /// Commits on that day.
    pub total_commits: usize,
    /// Thereof after-hours.
    pub after_hours_commits: usize,
}

/// One alias rewrite rule: exact-match `from` is replaced by `to`.
#[derive(Debug, PartialEq)]
pub struct AliasRule {
    /// The raw author name to replace.
    pub from: String,
    /// The canonical name it becomes.
    pub to: String,
}

/// The immutable metrics snapshot of one analysis run.
#[derive(Debug)]
pub struct RepoMetrics {
    /// The repository path, as given by the caller.
    pub repo_path: String,
    /// Earliest retained instant, offset preserved.
    pub analysis_start: Option<Timestamp>,
    /// Latest retained instant, offset preserved.
    pub analysis_end: Option<Timestamp>,
    /// Number of retained commits.
    pub total_commits: usize,
    /// Number of distinct (rewritten) author names.
    pub unique_authors: usize,
    /// Commits outside working hours.
    pub after_hours_commits: usize,
    /// Commits on Saturdays or Sundays.
    pub weekend_commits: usize,
    /// Commits in `[0, 6) ∪ [23, 24)` local hours.
    pub night_commits: usize,
    /// Distinct local calendar days with a commit.
    pub commit_days: usize,
    /// Commit days with at least one after-hours commit.
    pub overtime_days: usize,
    /// Longest run of consecutive commit days.
    pub longest_streak_days: usize,
    /// The busiest day, absent when there are no commits.
    pub busiest_day: Option<BusiestDay>,
    /// Integer floor of the severity score, `0..=100`.
    pub severity_floor: u64,
    /// Band label the floor falls in.
    pub severity_label: SeverityBand,
    /// Up to three authors, ranked by after-hours ratio descending.
    pub top_after_hours_authors: Vec<AuthorSummary>,
    /// Up to three authors, ranked by after-hours ratio ascending.
    pub chill_authors: Vec<AuthorSummary>,
    /// The ignore list the run used, as given.
    pub ignored_authors: Vec<String>,
    /// The alias rules the run used, as given.
    pub alias_rules: Vec<AliasRule>,
}

/// A ranked list is correct for order `nightowl` over commits `s`: its
/// entries carry their authors' true counts, it is sorted, no longer than
/// three, as long as three when enough authors exist, and no author outside
/// it could displace an entry.
pub open spec fn spec_ranked_list(nightowl: bool, s: Seq<Commit>, l: Seq<AuthorSummary>) -> bool {
    &&& l.len() == if spec_author_set(s).len() < 3 {
        spec_author_set(s).len() as int
    } else {
        3int
    }
    &&& spec_sorted_authors(nightowl, l)
    &&& forall|k: int|
        0 <= k < l.len() ==> {
            &&& spec_author_set(s).contains((#[trigger] l[k]).name@)
            &&& l[k].total_commits == spec_author_total(s, l[k].name@)
            &&& l[k].after_hours_commits == spec_author_ah(s, l[k].name@)
            &&& l[k].weekend_commits == spec_author_we(s, l[k].name@)
            &&& l[k].night_commits == spec_author_nt(s, l[k].name@)
        }
    &&& forall|a: Seq<char>|
        #[trigger] spec_author_set(s).contains(a) && (forall|j: int|
            0 <= j < l.len() ==> (#[trigger] l[j]).name@ != a) ==> forall|k: int|
            0 <= k < l.len() ==> spec_key_precedes(
                nightowl,
                (#[trigger] l[k]).after_hours_commits as int,
                l[k].total_commits as int,
                spec_author_ah(s, a),
                spec_author_total(s, a),
            )
}

/// Folds the rewritten commits into the metrics snapshot.
///
/// The ignore list and alias rules are stored verbatim for the report; the
/// commits are expected to be already rewritten.
#[verifier::rlimit(50)]
pub fn compute_metrics(
    repo_path: &str,
    commits: &Vec<Commit>,
    ignored_authors: Vec<String>,
    alias_rules: Vec<AliasRule>,
) -> (r: RepoMetrics)
    ensures
        r.repo_path@ == repo_path@,
        r.total_commits == commits@.len(),
        r.after_hours_commits == spec_after_hours_count(commits@),
        r.weekend_commits == spec_weekend_count(commits@),
        r.night_commits == spec_night_count(commits@),
        r.analysis_start == spec_analysis_start(commits@),
        r.analysis_end == spec_analysis_end(commits@),
        r.commit_days == spec_day_set(commits@).len(),
        r.unique_authors == spec_author_set(commits@).len(),
        r.overtime_days == spec_overtime_day_set(commits@).len(),
        r.after_hours_commits <= r.total_commits,
        r.weekend_commits <= r.total_commits,
        r.night_commits <= r.total_commits,
        r.overtime_days <= r.commit_days <= r.total_commits,
        r.unique_authors <= r.total_commits,
        exists|ds: Seq<i64>|
            {
                &&& (forall|x: int, y: int| 0 <= x < y < ds.len() ==> ds[x] < ds[y])
                &&& spec_day_seq_ints(ds).to_set() == spec_day_set(commits@)
                &&& r.longest_streak_days == #[trigger] spec_streak(ds)
            },
        r.longest_streak_days <= r.commit_days,
        r.longest_streak_days == 0 <==> commits@.len() == 0,
        r.busiest_day is None <==> commits@.len() == 0,
        r.busiest_day matches Some(b) ==> {
            &&& spec_day_set(commits@).contains(b.date as int)
            &&& b.total_commits == spec_total_on_day(commits@, b.date as int)
            &&& b.after_hours_commits == spec_ah_on_day(commits@, b.date as int)
            &&& forall|d: int|
                spec_day_set(commits@).contains(d) ==> {
                    ||| spec_total_on_day(commits@, d) < b.total_commits
                    ||| (spec_total_on_day(commits@, d) == b.total_commits && spec_ah_on_day(
                        commits@,
                        d,
                    ) < b.after_hours_commits)
                    ||| (spec_total_on_day(commits@, d) == b.total_commits && spec_ah_on_day(
                        commits@,
                        d,
                    ) == b.after_hours_commits && d <= b.date)
                }
        },
        r.severity_floor == spec_severity_floor(
            commits@.len() as int,
            spec_after_hours_count(commits@),
            spec_weekend_count(commits@),
            spec_night_count(commits@),
            spec_overtime_day_set(commits@).len() as int,
            spec_day_set(commits@).len() as int,
            r.longest_streak_days as int,
        ),
        0 <= r.severity_floor <= 100,
        spec_score_num(
            commits@.len() as int,
            spec_after_hours_count(commits@),
            spec_weekend_count(commits@),
            spec_night_count(commits@),
            spec_overtime_day_set(commits@).len() as int,
            spec_day_set(commits@).len() as int,
            r.longest_streak_days as int,
        ) == 0 <==> commits@.len() == 0,
        r.severity_label == spec_band_of(r.severity_floor as int),
        spec_ranked_list(true, commits@, r.top_after_hours_authors@),
        spec_ranked_list(false, commits@, r.chill_authors@),
        r.ignored_authors == ignored_authors,
        r.alias_rules == alias_rules,
{
    let n = commits.len();
    let mut after_hours: usize = 0;
    let mut weekend: usize = 0;
    let mut night: usize = 0;
    let mut analysis_start: Option<Timestamp> = None;
    let mut analysis_end: Option<Timestamp> = None;
    let mut days: Vec<DayStats> = Vec::new();
    let mut authors: Vec<AuthorSummary> = Vec::new();
    let mut i: usize = 0;
    proof {
        assert(commits@.take(0) =~= Seq::<Commit>::empty());
    }
    while i < n
        invariant
            i <= n,
            n == commits@.len(),
            after_hours == spec_after_hours_count(commits@.take(i as int)),
            weekend == spec_weekend_count(commits@.take(i as int)),
            night == spec_night_count(commits@.take(i as int)),
            after_hours <= i && weekend <= i && night <= i,
            analysis_start == spec_analysis_start(commits@.take(i as int)),
            analysis_end == spec_analysis_end(commits@.take(i as int)),
            forall|x: int, y: int|
                0 <= x < y < days@.len() ==> (#[trigger] days@[x]).day < (#[trigger] days@[y]).day,
            forall|k: int|
                0 <= k < days@.len() ==> spec_day_set(commits@.take(i as int)).contains(
                    (#[trigger] days@[k]).day as int,
                ),
            forall|d: int|
                spec_day_set(commits@.take(i as int)).contains(d) ==> exists|k: int|
                    0 <= k < days@.len() && (#[trigger] days@[k]).day == d,
            forall|k: int|
                0 <= k < days@.len() ==> {
                    &&& (#[trigger] days@[k]).total_commits == spec_total_on_day(
                        commits@.take(i as int),
                        days@[k].day as int,
                    )
                    &&& days@[k].after_hours_commits == spec_ah_on_day(
                        commits@.take(i as int),
                        days@[k].day as int,
                    )
                    &&& 1 <= days@[k].total_commits <= i
                    &&& days@[k].after_hours_commits <= days@[k].total_commits
                },
            forall|x: int, y: int|
                0 <= x < y < authors@.len() ==> (#[trigger] authors@[x]).name@ != (
                #[trigger] authors@[y]).name@,
            forall|k: int|
                0 <= k < authors@.len() ==> spec_author_set(commits@.take(i as int)).contains(
                    (#[trigger] authors@[k]).name@,
                ),
            forall|a: Seq<char>|
                spec_author_set(commits@.take(i as int)).contains(a) ==> exists|k: int|
                    0 <= k < authors@.len() && (#[trigger] authors@[k]).name@ == a,
            forall|k: int|
                0 <= k < authors@.len() ==> {
                    &&& (#[trigger] authors@[k]).total_commits == spec_author_total(
                        commits@.take(i as int),
                        authors@[k].name@,
                    )
                    &&& authors@[k].after_hours_commits == spec_author_ah(
                        commits@.take(i as int),
                        authors@[k].name@,
                    )
                    &&& authors@[k].weekend_commits == spec_author_we(
                        commits@.take(i as int),
                        authors@[k].name@,
                    )
                    &&& authors@[k].night_commits == spec_author_nt(
                        commits@.take(i as int),
                        authors@[k].name@,
                    )
                    &&& 1 <= authors@[k].total_commits <= i
                    &&& authors@[k].after_hours_commits <= authors@[k].total_commits
                    &&& authors@[k].weekend_commits <= authors@[k].total_commits
                    &&& authors@[k].night_commits <= authors@[k].total_commits
                },
        decreases n - i,
    {
        let ghost prefix = commits@.take(i as int);
        let c = &commits[i];
        let cl = classify(&c.timestamp);
        proof {
            assert(commits@.take(i as int + 1) =~= prefix.push(*c));
            assert(prefix.push(*c).drop_last() =~= prefix);
            assert(prefix.push(*c).last() == *c);
            assert(spec_day_set(prefix.push(*c)) == spec_day_set(prefix).insert(
                spec_local_day(c.timestamp),
            ));
            assert(spec_author_set(prefix.push(*c)) == spec_author_set(prefix).insert(c.author@));
            lemma_count_push(prefix, after_hours_pred(), *c);
            lemma_count_push(prefix, weekend_pred(), *c);
            lemma_count_push(prefix, night_pred(), *c);
        }
        let replace_start = match &analysis_start {
            Option::None => true,
            Option::Some(s) => c.timestamp.epoch_seconds < s.epoch_seconds,
        };
        if replace_start {
            analysis_start = Some(c.timestamp);
        }
        let replace_end = match &analysis_end {
            Option::None => true,
            Option::Some(e) => c.timestamp.epoch_seconds > e.epoch_seconds,
        };
        if replace_end {
            analysis_end = Some(c.timestamp);
        }
        if cl.after_hours {
            after_hours = after_hours + 1;
        }
        if cl.weekend {
            weekend = weekend + 1;
        }
        if cl.night {
            night = night + 1;
        }
        // Per-day entry: find the sorted position of this commit's day.
        let mut k: usize = 0;
        while k < days.len() && days[k].day < cl.day
            invariant
                k <= days@.len(),
                forall|j: int| 0 <= j < k ==> (#[trigger] days@[j]).day < cl.day,
                forall|x: int, y: int|
                    0 <= x < y < days@.len() ==> (#[trigger] days@[x]).day < (
                    #[trigger] days@[y]).day,
            decreases days@.len() - k,
        {
            k = k + 1;
        }
        let ghost days0 = days@;
        proof {
            assert forall|j: int| 0 <= j < days0.len() implies spec_total_on_day(
                prefix.push(*c),
                (#[trigger] days0[j]).day as int,
            ) == spec_total_on_day(prefix, days0[j].day as int) + (if days0[j].day == cl.day {
                1int
            } else {
                0int
            }) && spec_ah_on_day(prefix.push(*c), days0[j].day as int) == spec_ah_on_day(
                prefix,
                days0[j].day as int,
            ) + (if days0[j].day == cl.day && cl.after_hours {
                1int
            } else {
                0int
            }) by {
                lemma_count_push(prefix, day_pred(days0[j].day as int), *c);
                lemma_count_push(prefix, day_ah_pred(days0[j].day as int), *c);
            }
        }
        if k < days.len() && days[k].day == cl.day {
            let t0 = days[k].total_commits;
            let a0 = days[k].after_hours_commits;
            days[k] = DayStats {
                day: cl.day,
                total_commits: t0 + 1,
                after_hours_commits: if cl.after_hours {
                    a0 + 1
                } else {
                    a0
                },
            };
            proof {
                assert(forall|jj: int|
                    0 <= jj < days@.len() && jj != k ==> days@[jj] == days0[jj]);
                assert(days@[k as int].day == cl.day);
                assert(forall|jj: int|
                    0 <= jj < days@.len() ==> (#[trigger] days@[jj]).day == days0[jj].day);
                assert forall|d: int|
                    spec_day_set(prefix.push(*c)).contains(d) implies exists|kk: int|
                    0 <= kk < days@.len() && (#[trigger] days@[kk]).day == d by {
                    if d == cl.day as int {
                        assert(days@[k as int].day == d);
                    } else {
                        let kk = choose|kk: int|
                            0 <= kk < days0.len() && (#[trigger] days0[kk]).day == d;
                        assert(days@[kk].day == d);
                    }
                }
                assert forall|jj: int| 0 <= jj < days@.len() implies {
                    &&& (#[trigger] days@[jj]).total_commits == spec_total_on_day(
                        prefix.push(*c),
                        days@[jj].day as int,
                    )
                    &&& days@[jj].after_hours_commits == spec_ah_on_day(
                        prefix.push(*c),
                        days@[jj].day as int,
                    )
                } by {
                    if jj != k {
                        assert(days@[jj] == days0[jj]);
                        assert(days0[jj].day != cl.day);
                    }
                }
            }
        } else {
            proof {
                // The new day is absent from every existing entry, hence
                // from the prefix's day set.
                assert forall|j: int| 0 <= j < days0.len() implies (#[trigger] days0[j]).day
                    != cl.day by {
                    if j < k {
                    } else {
                        assert(days0[j].day >= days0[k as int].day);
                    }
                }
                if spec_day_set(prefix).contains(cl.day as int) {
                    let kk = choose|kk: int|
                        0 <= kk < days0.len() && (#[trigger] days0[kk]).day == cl.day;
                    assert(false);
                }
                lemma_absent_day_count_zero(prefix, cl.day as int);
                lemma_count_push(prefix, day_pred(cl.day as int), *c);
                lemma_count_push(prefix, day_ah_pred(cl.day as int), *c);
            }
            let entry = DayStats {
                day: cl.day,
                total_commits: 1,
                after_hours_commits: if cl.after_hours {
                    1
                } else {
                    0
                },
            };
            days.insert(k, entry);
            proof {
                days0.insert_ensures(k as int, entry);
                assert(days@ == days0.insert(k as int, entry));
                assert(days@[k as int].day == cl.day);
                assert(forall|j: int| 0 <= j < k ==> days@[j] == days0[j]);
                assert(forall|j: int|
                    k < j < days@.len() ==> days@[j] == days0[j - 1]);
                assert forall|x: int, y: int|
                    0 <= x < y < days@.len() implies (#[trigger] days@[x]).day < (
                #[trigger] days@[y]).day by {
                    if x == k {
                        assert(days@[y] == days0[y - 1] && days0[y - 1].day >= days0[k as int].day);
                    } else if y == k {
                        assert(days@[x] == days0[x]);
                    }
                }
                assert forall|d: int|
                    spec_day_set(prefix.push(*c)).contains(d) implies exists|kk: int|
                    0 <= kk < days@.len() && (#[trigger] days@[kk]).day == d by {
                    if d == cl.day as int {
                        assert(days@[k as int].day == d);
                    } else {
                        let kk = choose|kk: int|
                            0 <= kk < days0.len() && (#[trigger] days0[kk]).day == d;
                        if kk < k {
                            assert(days@[kk].day == d);
                        } else {
                            assert(days@[kk + 1].day == d);
                        }
                    }
                }
                assert forall|jj: int| 0 <= jj < days@.len() implies {
                    &&& (#[trigger] days@[jj]).total_commits == spec_total_on_day(
                        prefix.push(*c),
                        days@[jj].day as int,
                    )
                    &&& days@[jj].after_hours_commits == spec_ah_on_day(
                        prefix.push(*c),
                        days@[jj].day as int,
                    )
                } by {
                    if jj < k {
                        assert(days@[jj] == days0[jj]);
                        assert(days0[jj].day != cl.day);
                    } else if jj > k {
                        assert(days@[jj] == days0[jj - 1]);
                        assert(days0[jj - 1].day >= days0[k as int].day);
                        assert(days0[jj - 1].day != cl.day);
                    }
                }
            }
        }
        // Per-author entry: linear search by exact name.
        let mut j: usize = 0;
        let mut found: bool = false;
        while j < authors.len() && !found
            invariant
                j <= authors@.len(),
                !found ==> forall|x: int| 0 <= x < j ==> (#[trigger] authors@[x]).name@ != c.author@,
                found ==> j < authors@.len() && authors@[j as int].name@ == c.author@,
            decreases authors@.len() - j + (if found {
                0int
            } else {
                1int
            }),
        {
            if authors[j].name == c.author {
                found = true;
            } else {
                j = j + 1;
            }
        }
        let ghost authors0 = authors@;
        proof {
            assert forall|x: int| 0 <= x < authors0.len() implies {
                &&& spec_author_total(prefix.push(*c), (#[trigger] authors0[x]).name@)
                    == spec_author_total(prefix, authors0[x].name@) + (if authors0[x].name@
                    == c.author@ {
                    1int
                } else {
                    0int
                })
                &&& spec_author_ah(prefix.push(*c), authors0[x].name@) == spec_author_ah(
                    prefix,
                    authors0[x].name@,
                ) + (if authors0[x].name@ == c.author@ && cl.after_hours {
                    1int
                } else {
                    0int
                })
                &&& spec_author_we(prefix.push(*c), authors0[x].name@) == spec_author_we(
                    prefix,
                    authors0[x].name@,
                ) + (if authors0[x].name@ == c.author@ && cl.weekend {
                    1int
                } else {
                    0int
                })
                &&& spec_author_nt(prefix.push(*c), authors0[x].name@) == spec_author_nt(
                    prefix,
                    authors0[x].name@,
                ) + (if authors0[x].name@ == c.author@ && cl.night {
                    1int
                } else {
                    0int
                })
            } by {
                lemma_count_push(prefix, author_pred(authors0[x].name@), *c);
                lemma_count_push(prefix, author_ah_pred(authors0[x].name@), *c);
                lemma_count_push(prefix, author_we_pred(authors0[x].name@), *c);
                lemma_count_push(prefix, author_nt_pred(authors0[x].name@), *c);
            }
        }
        if found {
            let nm = authors[j].name.clone();
            let t0 = authors[j].total_commits;
            let a0 = authors[j].after_hours_commits;
            let w0 = authors[j].weekend_commits;
            let n0 = authors[j].night_commits;
            authors[j] = AuthorSummary {
                name: nm,
                total_commits: t0 + 1,
                after_hours_commits: if cl.after_hours {
                    a0 + 1
                } else {
                    a0
                },
                weekend_commits: if cl.weekend {
                    w0 + 1
                } else {
                    w0
                },
                night_commits: if cl.night {
                    n0 + 1
                } else {
                    n0
                },
            };
            proof {
                assert(forall|x: int|
                    0 <= x < authors@.len() && x != j ==> authors@[x] == authors0[x]);
                assert(authors@[j as int].name@ == c.author@);
                assert(forall|x: int|
                    0 <= x < authors@.len() ==> (#[trigger] authors@[x]).name@
                        == authors0[x].name@);
                assert forall|x: int| 0 <= x < authors@.len() implies {
                    &&& (#[trigger] authors@[x]).total_commits == spec_author_total(
                        prefix.push(*c),
                        authors@[x].name@,
                    )
                    &&& authors@[x].after_hours_commits == spec_author_ah(
                        prefix.push(*c),
                        authors@[x].name@,
                    )
                    &&& authors@[x].weekend_commits == spec_author_we(
                        prefix.push(*c),
                        authors@[x].name@,
                    )
                    &&& authors@[x].night_commits == spec_author_nt(
                        prefix.push(*c),
                        authors@[x].name@,
                    )
                } by {
                    if x != j {
                        assert(authors@[x] == authors0[x]);
                        assert(authors0[x].name@ != c.author@);
                    }
                }
            }
        } else {
            proof {
                if spec_author_set(prefix).contains(c.author@) {
                    let kk = choose|kk: int|
                        0 <= kk < authors0.len() && (#[trigger] authors0[kk]).name@ == c.author@;
                    assert(false);
                }
                lemma_absent_author_count_zero(prefix, c.author@);
                lemma_count_push(prefix, author_pred(c.author@), *c);
                lemma_count_push(prefix, author_ah_pred(c.author@), *c);
                lemma_count_push(prefix, author_we_pred(c.author@), *c);
                lemma_count_push(prefix, author_nt_pred(c.author@), *c);
            }
            authors.push(
                AuthorSummary {
                    name: c.author.clone(),
                    total_commits: 1,
                    after_hours_commits: if cl.after_hours {
                        1
                    } else {
                        0
                    },
                    weekend_commits: if cl.weekend {
                        1
                    } else {
                        0
                    },
                    night_commits: if cl.night {
                        1
                    } else {
                        0
                    },
                },
            );
            proof {
                assert(forall|x: int|
                    0 <= x < authors0.len() ==> authors@[x] == authors0[x]);
                assert(authors@[authors@.len() - 1].name@ == c.author@);
                assert forall|x: int| 0 <= x < authors@.len() implies {
                    &&& (#[trigger] authors@[x]).total_commits == spec_author_total(
                        prefix.push(*c),
                        authors@[x].name@,
                    )
                    &&& authors@[x].after_hours_commits == spec_author_ah(
                        prefix.push(*c),
                        authors@[x].name@,
                    )
                    &&& authors@[x].weekend_commits == spec_author_we(
                        prefix.push(*c),
                        authors@[x].name@,
                    )
                    &&& authors@[x].night_commits == spec_author_nt(
                        prefix.push(*c),
                        authors@[x].name@,
                    )
                } by {
                    if x < authors@.len() - 1 {
                        assert(authors@[x] == authors0[x]);
                        assert(authors0[x].name@ != c.author@);
                    }
                }
                assert forall|x: int, y: int|
                    0 <= x < y < authors@.len() implies (#[trigger] authors@[x]).name@ != (
                #[trigger] authors@[y]).name@ by {
                    if y == authors@.len() - 1 {
                        assert(authors@[x] == authors0[x]);
                        assert(authors0[x].name@ != c.author@);
                    }
                }
            }
        }
        proof {
            assert forall|a: Seq<char>|
                spec_author_set(prefix.push(*c)).contains(a) implies exists|kk: int|
                0 <= kk < authors@.len() && (#[trigger] authors@[kk]).name@ == a by {
                if a == c.author@ {
                    if found {
                        assert(authors@[j as int].name@ == a);
                    } else {
                        assert(authors@[authors@.len() - 1].name@ == a);
                    }
                } else {
                    let kk = choose|kk: int|
                        0 <= kk < authors0.len() && (#[trigger] authors0[kk]).name@ == a;
                    assert(authors@[kk].name@ == a);
                }
            }
        }
        i = i + 1;
    }
    proof {
        assert(commits@.take(n as int) =~= commits@);
    }
    let s = commits;
    // Commit days and unique authors are the lengths of the two tables.
    let commit_days = days.len();
    let unique_authors = authors.len();
    proof {
        broadcast use vstd::seq_lib::group_seq_properties;

        lemma_day_set_finite(s@);
        lemma_author_set_finite(s@);
        let dayseq = days@.map_values(|ds: DayStats| ds.day as int);
        assert(dayseq.no_duplicates());
        dayseq.unique_seq_to_set();
        assert(dayseq.to_set() =~= spec_day_set(s@)) by {
            assert forall|d: int| spec_day_set(s@).contains(d) implies dayseq.to_set().contains(
                d,
            ) by {
                let kk = choose|kk: int|
                    0 <= kk < days@.len() && (#[trigger] days@[kk]).day == d;
                assert(dayseq[kk] == d);
            }
        }
        let nameseq = authors@.map_values(|au: AuthorSummary| au.name@);
        assert(nameseq.no_duplicates());
        nameseq.unique_seq_to_set();
        assert(nameseq.to_set() =~= spec_author_set(s@)) by {
            assert forall|a: Seq<char>|
                spec_author_set(s@).contains(a) implies nameseq.to_set().contains(a) by {
                let kk = choose|kk: int|
                    0 <= kk < authors@.len() && (#[trigger] authors@[kk]).name@ == a;
                assert(nameseq[kk] == a);
            }
        }
        assert(commit_days == spec_day_set(s@).len());
        assert(unique_authors == spec_author_set(s@).len());
    }
    // Overtime days: entries with at least one after-hours commit.
    let mut overtime_days: usize = 0;
    let mut k: usize = 0;
    let ghost oset = spec_overtime_day_set(s@);
    let ghost mut seen: Set<int> = Set::empty();
    proof {
        assert(seen =~= oset.filter(|d: int| exists|j: int| 0 <= j < 0 && days@[j].day == d));
        spec_day_set(s@).lemma_len_filter(|d: int| spec_ah_on_day(s@, d) > 0);
    }
    while k < days.len()
        invariant
            k <= days@.len(),
            forall|x: int, y: int|
                0 <= x < y < days@.len() ==> (#[trigger] days@[x]).day < (#[trigger] days@[y]).day,
            forall|j: int|
                0 <= j < days@.len() ==> {
                    &&& (#[trigger] days@[j]).after_hours_commits == spec_ah_on_day(
                        s@,
                        days@[j].day as int,
                    )
                    &&& spec_day_set(s@).contains(days@[j].day as int)
                },
            oset == spec_overtime_day_set(s@),
            seen.finite(),
            overtime_days == seen.len(),
            overtime_days <= k,
            forall|d: int|
                seen.contains(d) <==> (oset.contains(d) && exists|j: int|
                    0 <= j < k && (#[trigger] days@[j]).day == d),
        decreases days@.len() - k,
    {
        if days[k].after_hours_commits > 0 {
            proof {
                assert(oset.contains(days@[k as int].day as int));
                assert(!seen.contains(days@[k as int].day as int)) by {
                    if seen.contains(days@[k as int].day as int) {
                        let jj = choose|jj: int|
                            0 <= jj < k && (#[trigger] days@[jj]).day == days@[k as int].day;
                        assert(false);
                    }
                }
                seen = seen.insert(days@[k as int].day as int);
            }
            overtime_days = overtime_days + 1;
        } else {
            proof {
                assert(!oset.contains(days@[k as int].day as int));
            }
        }
        proof {
            assert forall|d: int|
                seen.contains(d) <==> (oset.contains(d) && exists|j: int|
                    0 <= j < k + 1 && (#[trigger] days@[j]).day == d) by {}
        }
        k = k + 1;
    }
    proof {
        assert(seen =~= oset) by {
            assert forall|d: int| oset.contains(d) implies seen.contains(d) by {
                let kk = choose|kk: int|
                    0 <= kk < days@.len() && (#[trigger] days@[kk]).day == d;
            }
        }
    }
    // Longest streak over the ascending unique day numbers.
    let mut day_numbers: Vec<i64> = Vec::new();
    let mut k2: usize = 0;
    while k2 < days.len()
        invariant
            k2 <= days@.len(),
            day_numbers@.len() == k2,
            forall|j: int| 0 <= j < k2 ==> day_numbers@[j] == (#[trigger] days@[j]).day,
        decreases days@.len() - k2,
    {
        day_numbers.push(days[k2].day);
        k2 = k2 + 1;
    }
    let longest_streak_days = longest_streak(&day_numbers);
    proof {
        broadcast use vstd::seq_lib::group_seq_properties;

        lemma_streak_bounds(day_numbers@);
        let dsq = spec_day_seq_ints(day_numbers@);
        assert(dsq.to_set() =~= spec_day_set(s@)) by {
            assert forall|d: int| spec_day_set(s@).contains(d) implies dsq.to_set().contains(
                d,
            ) by {
                let kk = choose|kk: int|
                    0 <= kk < days@.len() && (#[trigger] days@[kk]).day == d;
                assert(dsq[kk] == d);
            }
            assert forall|d: int| dsq.to_set().contains(d) implies spec_day_set(s@).contains(
                d,
            ) by {
                let kk = choose|kk: int| 0 <= kk < dsq.len() && dsq[kk] == d;
                assert(days@[kk].day == d);
            }
        }
        // The ascending unique day sequence witnesses the streak clause.
        assert forall|x: int, y: int|
            0 <= x < y < day_numbers@.len() implies day_numbers@[x] < day_numbers@[y] by {
            assert(day_numbers@[x] == days@[x].day);
            assert(day_numbers@[y] == days@[y].day);
        }
        assert(longest_streak_days == spec_streak(day_numbers@));
        assert(day_numbers@.len() == commit_days);
        if s@.len() > 0 {
            assert(spec_day_set(s@).contains(spec_local_day(s@.last().timestamp)));
            assert(days@.len() > 0);
            assert(longest_streak_days >= 1);
        } else {
            assert(spec_day_set(s@) =~= Set::empty());
            assert(commit_days == 0);
        }
    }
    // Busiest day: most commits, ties by after-hours, then the later date.
    let busiest_day: Option<BusiestDay> = if days.len() == 0 {
        None
    } else {
        let mut best: usize = 0;
        let mut k3: usize = 1;
        while k3 < days.len()
            invariant
                1 <= k3 <= days@.len(),
                best < k3,
                forall|x: int, y: int|
                    0 <= x < y < days@.len() ==> (#[trigger] days@[x]).day < (
                    #[trigger] days@[y]).day,
                forall|j: int|
                    0 <= j < k3 ==> {
                        ||| (#[trigger] days@[j]).total_commits < days@[
                            best as int
                        ].total_commits
                        ||| (days@[j].total_commits == days@[best as int].total_commits
                            && days@[j].after_hours_commits < days@[
                            best as int
                        ].after_hours_commits)
                        ||| (days@[j].total_commits == days@[best as int].total_commits
                            && days@[j].after_hours_commits == days@[
                            best as int
                        ].after_hours_commits && j <= best)
                    },
            decreases days@.len() - k3,
        {
            let better = days[k3].total_commits > days[best].total_commits || (
            days[k3].total_commits == days[best].total_commits && days[k3].after_hours_commits
                >= days[best].after_hours_commits);
            if better {
                best = k3;
            }
            k3 = k3 + 1;
        }
        Some(
            BusiestDay {
                date: days[best].day,
                total_commits: days[best].total_commits,
                after_hours_commits: days[best].after_hours_commits,
            },
        )
    };
    proof {
        if s@.len() > 0 {
            assert(days@.len() > 0) by {
                assert(spec_day_set(s@).contains(spec_local_day(s@.last().timestamp)));
            }
        }
        match &busiest_day {
            Option::None => {},
            Option::Some(b) => {
                assert forall|d: int| spec_day_set(s@).contains(d) implies {
                    ||| spec_total_on_day(s@, d) < b.total_commits
                    ||| (spec_total_on_day(s@, d) == b.total_commits && spec_ah_on_day(s@, d)
                        < b.after_hours_commits)
                    ||| (spec_total_on_day(s@, d) == b.total_commits && spec_ah_on_day(s@, d)
                        == b.after_hours_commits && d <= b.date)
                } by {
                    let kk = choose|kk: int|
                        0 <= kk < days@.len() && (#[trigger] days@[kk]).day == d;
                }
            },
        }
    }
    // Severity and band.
    let severity = severity_floor(
        n,
        after_hours,
        weekend,
        night,
        overtime_days,
        commit_days,
        longest_streak_days,
    );
    let band = severity_label(severity);
    proof {
        lemma_count_le_len(s@, after_hours_pred());
        lemma_count_le_len(s@, weekend_pred());
        lemma_count_le_len(s@, night_pred());
        crate::severity::lemma_severity_score_bounds(
            n as int,
            after_hours as int,
            weekend as int,
            night as int,
            overtime_days as int,
            commit_days as int,
            longest_streak_days as int,
        );
    }
    // Ranked author lists.
    let mut authors_copy: Vec<AuthorSummary> = Vec::new();
    let mut k4: usize = 0;
    while k4 < authors.len()
        invariant
            k4 <= authors@.len(),
            authors_copy@.len() == k4,
            forall|j: int| 0 <= j < k4 ==> authors_copy@[j] == (#[trigger] authors@[j]),
        decreases authors@.len() - k4,
    {
        let dup = authors[k4].duplicate();
        authors_copy.push(dup);
        k4 = k4 + 1;
    }
    proof {
        assert(authors_copy@ =~= authors@);
    }
    let ghost authors_final = authors@;
    let mut nightowls = sort_authors(true, authors_copy);
    let mut chill = sort_authors(false, authors);
    let ghost owls_sorted = nightowls@;
    let ghost chill_sorted = chill@;
    nightowls.truncate(3);
    chill.truncate(3);
    proof {
        broadcast use vstd::seq_lib::group_to_multiset_ensures;

        lemma_ranked_prefix(true, s@, authors_final, owls_sorted, nightowls@, unique_authors);
        lemma_ranked_prefix(false, s@, authors_final, chill_sorted, chill@, unique_authors);
    }
    RepoMetrics {
        repo_path: repo_path.to_owned(),
        analysis_start,
        analysis_end,
        total_commits: n,
        unique_authors,
        after_hours_commits: after_hours,
        weekend_commits: weekend,
        night_commits: night,
        commit_days,
        overtime_days,
        longest_streak_days,
        busiest_day,
        severity_floor: severity,
        severity_label: band,
        top_after_hours_authors: nightowls,
        chill_authors: chill,
        ignored_authors,
        alias_rules,
    }
}

/// The first three entries of a sorted permutation of the correct author
/// table form a correct ranked list.
proof fn lemma_ranked_prefix(
    nightowl: bool,
    s: Seq<Commit>,
    table: Seq<AuthorSummary>,
    sorted: Seq<AuthorSummary>,
    listed: Seq<AuthorSummary>,
    unique_authors: usize,
)
    requires
        unique_authors == table.len(),
        unique_authors == spec_author_set(s).len(),
        forall|k: int|
            0 <= k < table.len() ==> {
                &&& spec_author_set(s).contains((#[trigger] table[k]).name@)
                &&& table[k].total_commits == spec_author_total(s, table[k].name@)
                &&& table[k].after_hours_commits == spec_author_ah(s, table[k].name@)
                &&& table[k].weekend_commits == spec_author_we(s, table[k].name@)
                &&& table[k].night_commits == spec_author_nt(s, table[k].name@)
            },
        forall|a: Seq<char>|
            spec_author_set(s).contains(a) ==> exists|k: int|
                0 <= k < table.len() && (#[trigger] table[k]).name@ == a,
        sorted.to_multiset() == table.to_multiset(),
        sorted.len() == table.len(),
        spec_sorted_authors(nightowl, sorted),
        listed == if sorted.len() <= 3 {
            sorted
        } else {
            sorted.subrange(0, 3)
        },
    ensures
        spec_ranked_list(nightowl, s, listed),
{
    broadcast use vstd::seq_lib::group_to_multiset_ensures;

    assert forall|k: int| 0 <= k < sorted.len() implies {
        &&& spec_author_set(s).contains((#[trigger] sorted[k]).name@)
        &&& sorted[k].total_commits == spec_author_total(s, sorted[k].name@)
        &&& sorted[k].after_hours_commits == spec_author_ah(s, sorted[k].name@)
        &&& sorted[k].weekend_commits == spec_author_we(s, sorted[k].name@)
        &&& sorted[k].night_commits == spec_author_nt(s, sorted[k].name@)
    } by {
        assert(sorted.contains(sorted[k]));
        assert(sorted.to_multiset().count(sorted[k]) > 0);
        assert(table.contains(sorted[k]));
        let j = choose|j: int| 0 <= j < table.len() && table[j] == sorted[k];
        assert(table[j] == sorted[k]);
    }
    assert(listed.len() == if spec_author_set(s).len() < 3 {
        spec_author_set(s).len() as int
    } else {
        3int
    });
    assert forall|a: Seq<char>|
        #[trigger] spec_author_set(s).contains(a) && (forall|j: int|
            0 <= j < listed.len() ==> (#[trigger] listed[j]).name@ != a) implies forall|k: int|
        0 <= k < listed.len() ==> spec_key_precedes(
            nightowl,
            (#[trigger] listed[k]).after_hours_commits as int,
            listed[k].total_commits as int,
            spec_author_ah(s, a),
            spec_author_total(s, a),
        ) by {
        let j = choose|j: int| 0 <= j < table.len() && (#[trigger] table[j]).name@ == a;
        let x = table[j];
        assert(table.contains(x));
        assert(table.to_multiset().count(x) > 0);
        assert(sorted.contains(x));
        let m = choose|m: int| 0 <= m < sorted.len() && sorted[m] == x;
        assert forall|k: int| 0 <= k < listed.len() implies spec_key_precedes(
            nightowl,
            (#[trigger] listed[k]).after_hours_commits as int,
            listed[k].total_commits as int,
            spec_author_ah(s, a),
            spec_author_total(s, a),
        ) by {
            if m < listed.len() {
                assert(listed[m].name@ == a);
                assert(false);
            } else {
                assert(spec_precedes(nightowl, sorted[k], sorted[m]));
            }
        }
    }
}

} // verus!
