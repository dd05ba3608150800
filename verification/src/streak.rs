//! Longest run of consecutive calendar dates among the commit days.
//!
//! The input is the strictly ascending sequence of unique commit days; the
//! streak is the longest stretch in it where each day is exactly one more
//! than the day before.

use vstd::prelude::*;

verus! {

/// Length of the run of consecutive days that ends at index `i`: how many
/// entries ending at `i` each exceed their predecessor by exactly one day.
pub open spec fn spec_run_ending_at(days: Seq<i64>, i: int) -> int
    recommends
        0 <= i < days.len(),
    decreases i,
{
    if i <= 0 {
        1
    } else if days[i] == days[i - 1] + 1 {
        spec_run_ending_at(days, i - 1) + 1
    } else {
        1
    }
}

/// The longest streak: the maximum over all indices of the consecutive run
/// ending there; `0` for the empty sequence.
pub open spec fn spec_streak(days: Seq<i64>) -> int
    decreases days.len(),
{
    if days.len() == 0 {
        0
    } else {
        let rest = spec_streak(days.drop_last());
        let here = spec_run_ending_at(days, days.len() - 1);
        if here > rest {
            here
        } else {
            rest
        }
    }
}

/// A run ending at `i` only looks at the first `i + 1` entries, so it is
/// unchanged on any prefix that still contains them.
proof fn lemma_run_prefix(days: Seq<i64>, m: int, i: int)
    requires
        0 <= i < m <= days.len(),
    ensures
        spec_run_ending_at(days.take(m), i) == spec_run_ending_at(days, i),
    decreases i,
{
    if i > 0 {
        lemma_run_prefix(days, m, i - 1);
    }
}

/// The run ending at `i` never exceeds `i + 1` entries.
proof fn lemma_run_le(days: Seq<i64>, i: int)
    requires
        0 <= i < days.len(),
    ensures
        1 <= spec_run_ending_at(days, i) <= i + 1,
    decreases i,
{
    if i > 0 {
        lemma_run_le(days, i - 1);
    }
}

/// The streak of a nonempty sequence lies between 1 and the sequence's
/// length; only the empty sequence has streak 0.
pub proof fn lemma_streak_bounds(days: Seq<i64>)
    ensures
        days.len() == 0 ==> spec_streak(days) == 0,
        days.len() > 0 ==> 1 <= spec_streak(days) <= days.len(),
    decreases days.len(),
{
    if days.len() > 0 {
        lemma_streak_bounds(days.drop_last());
        lemma_run_le(days, days.len() - 1);
    }
}

/// Scans the ascending day sequence once, keeping the length of the run
/// that ends at the current entry and the best run seen so far.
pub fn longest_streak(days: &Vec<i64>) -> (r: usize)
    ensures
        r == spec_streak(days@),
{
    let n = days.len();
    let mut best: usize = 0;
    let mut current: usize = 0;
    let mut i: usize = 0;
    while i < n
        invariant
            0 <= i <= n,
            n == days@.len(),
            best == spec_streak(days@.take(i as int)),
            i > 0 ==> current == spec_run_ending_at(days@, i - 1),
            i > 0 ==> current <= i,
            i == 0 ==> current == 0,
            best <= i,
        decreases n - i,
    {
        if i > 0 && (days[i] as i128) == (days[i - 1] as i128) + 1 {
            current = current + 1;
        } else {
            current = 1;
        }
        if current > best {
            best = current;
        }
        proof {
            assert(current == spec_run_ending_at(days@, i as int));
            let m = i as int + 1;
            assert(days@.take(m).drop_last() =~= days@.take(i as int));
            lemma_run_prefix(days@, m, i as int);
            assert(best == spec_streak(days@.take(m)));
        }
        i = i + 1;
    }
    proof {
        assert(days@.take(n as int) =~= days@);
    }
    best
}

/// Three consecutive dates have a streak of 3.
pub proof fn lemma_streak_three_consecutive(d: i64)
    requires
        d + 2 <= i64::MAX,
    ensures
        spec_streak(seq![d, (d + 1) as i64, (d + 2) as i64]) == 3,
{
    let s = seq![d, (d + 1) as i64, (d + 2) as i64];
    assert(s.drop_last() =~= seq![d, (d + 1) as i64]);
    assert(s.drop_last().drop_last() =~= seq![d]);
    assert(seq![d].drop_last() =~= Seq::<i64>::empty());
    assert(spec_run_ending_at(s, 0) == 1);
    assert(spec_run_ending_at(s, 1) == 2);
    assert(spec_run_ending_at(s, 2) == 3);
    assert(spec_run_ending_at(s.drop_last(), 0) == 1);
    assert(spec_run_ending_at(s.drop_last(), 1) == 2);
    assert(spec_run_ending_at(s.drop_last().drop_last(), 0) == 1);
    assert(spec_streak(Seq::<i64>::empty()) == 0);
    assert(spec_streak(s.drop_last().drop_last()) == 1);
    assert(spec_streak(s.drop_last()) == 2);
}

/// Three ascending dates where exactly one adjacent pair is consecutive and
/// the other pair leaves a gap have a streak of 2.
pub proof fn lemma_streak_one_gap(a: i64, b: i64, c: i64)
    requires
        a < b < c,
        (b == a + 1 && c > b + 1) || (b > a + 1 && c == b + 1),
    ensures
        spec_streak(seq![a, b, c]) == 2,
{
    let s = seq![a, b, c];
    assert(s.drop_last() =~= seq![a, b]);
    assert(s.drop_last().drop_last() =~= seq![a]);
    assert(seq![a].drop_last() =~= Seq::<i64>::empty());
    assert(spec_run_ending_at(s, 0) == 1);
    assert(spec_run_ending_at(s, 1) == if b == a + 1 { 2int } else { 1int });
    assert(spec_run_ending_at(s, 2) == if c == b + 1 { 2int } else { 1int });
    assert(spec_run_ending_at(s.drop_last(), 0) == 1);
    assert(spec_run_ending_at(s.drop_last(), 1) == if b == a + 1 { 2int } else { 1int });
    assert(spec_run_ending_at(s.drop_last().drop_last(), 0) == 1);
    assert(spec_streak(Seq::<i64>::empty()) == 0);
    assert(spec_streak(s.drop_last().drop_last()) == 1);
    assert(spec_streak(s.drop_last()) == if b == a + 1 { 2int } else { 1int });
}

} // verus!
