//! Per-author summaries and the two ranked author lists.
//!
//! Ranking compares after-hours ratios exactly, as cross-multiplied integer
//! pairs (`a1/t1 ? a2/t2` decided by `a1·t2 ? a2·t1`), so no floating point
//! enters the ordering. The night-owl order is ratio descending with ties by
//! after-hours count descending; the chill order is ratio ascending with
//! ties by total count descending.

use vstd::multiset::Multiset;
use vstd::prelude::*;

verus! {

/// What the engine reports about one author.
#[derive(Debug, PartialEq)]
pub struct AuthorSummary {
    /// The author's (rewritten) name.
    pub name: String,
    /// Commits by this author.
    pub total_commits: usize,
    /// Thereof after-hours.
    pub after_hours_commits: usize,
    /// Thereof on weekends.
    pub weekend_commits: usize,
    /// Thereof at night.
    pub night_commits: usize,
}

impl AuthorSummary {
    /// A field-for-field copy of this summary.
    pub fn duplicate(&self) -> (r: AuthorSummary)
        ensures
            r == *self,
    {
        AuthorSummary {
            name: self.name.clone(),
            total_commits: self.total_commits,
            after_hours_commits: self.after_hours_commits,
            weekend_commits: self.weekend_commits,
            night_commits: self.night_commits,
        }
    }
}

/// The ranking order on bare keys: author 1 with `ah1` after-hours commits
/// out of `t1` may stand before author 2. In night-owl order the higher
/// after-hours ratio wins (`ah1/t1 ? ah2/t2` decided as
/// `ah1·t2 ? ah2·t1`), ties by more after-hours commits; in chill order the
/// lower ratio wins, ties by more total commits.
pub open spec fn spec_key_precedes(nightowl: bool, ah1: int, t1: int, ah2: int, t2: int) -> bool {
    if nightowl {
        ah1 * t2 > ah2 * t1 || (ah1 * t2 == ah2 * t1 && ah1 >= ah2)
    } else {
        ah1 * t2 < ah2 * t1 || (ah1 * t2 == ah2 * t1 && t1 >= t2)
    }
}

/// The order the given list is ranked by, on whole summaries.
pub open spec fn spec_precedes(nightowl: bool, a: AuthorSummary, b: AuthorSummary) -> bool {
    spec_key_precedes(
        nightowl,
        a.after_hours_commits as int,
        a.total_commits as int,
        b.after_hours_commits as int,
        b.total_commits as int,
    )
}

/// Every earlier entry may stand before every later one.
pub open spec fn spec_sorted_authors(nightowl: bool, s: Seq<AuthorSummary>) -> bool {
    forall|i: int, j: int|
        0 <= i < j < s.len() ==> spec_precedes(nightowl, s[i], s[j])
}

/// All summaries in the sequence count at least one commit.
pub open spec fn spec_all_active(s: Seq<AuthorSummary>) -> bool {
    forall|k: int| 0 <= k < s.len() ==> (#[trigger] s[k]).total_commits >= 1
}

/// Cross-multiplied ratio comparisons chain: if `a1/t1 >= a2/t2` and
/// `a2/t2 >= a3/t3` then `a1/t1 >= a3/t3`, strictly so when either link
/// is strict.
proof fn lemma_cross_trans(a1: int, t1: int, a2: int, t2: int, a3: int, t3: int)
    requires
        t1 >= 1,
        t2 >= 1,
        t3 >= 1,
        a1 * t2 >= a2 * t1,
        a2 * t3 >= a3 * t2,
    ensures
        a1 * t3 >= a3 * t1,
        (a1 * t2 > a2 * t1 || a2 * t3 > a3 * t2) ==> a1 * t3 > a3 * t1,
{
    assert(a1 * t2 * t3 >= a2 * t1 * t3 && (a1 * t2 > a2 * t1 ==> a1 * t2 * t3 > a2 * t1 * t3))
        by (nonlinear_arith)
        requires
            a1 * t2 >= a2 * t1,
            t3 >= 1,
    ;
    assert(a2 * t3 * t1 >= a3 * t2 * t1 && (a2 * t3 > a3 * t2 ==> a2 * t3 * t1 > a3 * t2 * t1))
        by (nonlinear_arith)
        requires
            a2 * t3 >= a3 * t2,
            t1 >= 1,
    ;
    assert(a1 * t2 * t3 == a1 * t3 * t2 && a2 * t1 * t3 == a2 * t3 * t1 && a3 * t2 * t1 == a3 * t1
        * t2) by (nonlinear_arith);
    assert(a1 * t3 * t2 >= a3 * t1 * t2 ==> a1 * t3 >= a3 * t1) by (nonlinear_arith)
        requires
            t2 >= 1,
    ;
    assert(a1 * t3 * t2 > a3 * t1 * t2 ==> a1 * t3 > a3 * t1) by (nonlinear_arith)
        requires
            t2 >= 1,
    ;
}

/// Both ranking orders are transitive on summaries with at least one
/// commit.
pub proof fn lemma_precedes_transitive(
    nightowl: bool,
    a: AuthorSummary,
    b: AuthorSummary,
    c: AuthorSummary,
)
    requires
        a.total_commits >= 1,
        b.total_commits >= 1,
        c.total_commits >= 1,
        spec_precedes(nightowl, a, b),
        spec_precedes(nightowl, b, c),
    ensures
        spec_precedes(nightowl, a, c),
{
    let a1 = a.after_hours_commits as int;
    let t1 = a.total_commits as int;
    let b1 = b.after_hours_commits as int;
    let t2 = b.total_commits as int;
    let c1 = c.after_hours_commits as int;
    let t3 = c.total_commits as int;
    if nightowl {
        lemma_cross_trans(a1, t1, b1, t2, c1, t3);
        if a1 * t2 == b1 * t1 && b1 * t3 == c1 * t2 {
            lemma_cross_trans(c1, t3, b1, t2, a1, t1);
        }
    } else {
        lemma_cross_trans(c1, t3, b1, t2, a1, t1);
        if a1 * t2 == b1 * t1 && b1 * t3 == c1 * t2 {
            lemma_cross_trans(a1, t1, b1, t2, c1, t3);
        }
    }
}

/// For any two summaries, one of them may stand before the other, in
/// either ranking order.
pub proof fn lemma_precedes_total(nightowl: bool, a: AuthorSummary, b: AuthorSummary)
    ensures
        spec_precedes(nightowl, a, b) || spec_precedes(nightowl, b, a),
{
}

/// Decides whether `a` may stand before `b` in the chosen order, by exact
/// cross-multiplied comparison in `u128`.
fn precedes(nightowl: bool, a: &AuthorSummary, b: &AuthorSummary) -> (r: bool)
    ensures
        r == spec_precedes(nightowl, *a, *b),
{
    proof {
        assert((a.after_hours_commits as int) * (b.total_commits as int) <= u128::MAX && (
        b.after_hours_commits as int) * (a.total_commits as int) <= u128::MAX)
            by (nonlinear_arith)
            requires
                0 <= (a.after_hours_commits as int) <= 0xffff_ffff_ffff_ffff,
                0 <= (b.total_commits as int) <= 0xffff_ffff_ffff_ffff,
                0 <= (b.after_hours_commits as int) <= 0xffff_ffff_ffff_ffff,
                0 <= (a.total_commits as int) <= 0xffff_ffff_ffff_ffff,
                u128::MAX == 0xffff_ffff_ffff_ffff_ffff_ffff_ffff_ffff,
        ;
    }
    let l: u128 = (a.after_hours_commits as u128) * (b.total_commits as u128);
    let r: u128 = (b.after_hours_commits as u128) * (a.total_commits as u128);
    if nightowl {
        l > r || (l == r && a.after_hours_commits >= b.after_hours_commits)
    } else {
        l < r || (l == r && a.total_commits >= b.total_commits)
    }
}

/// Index of an entry that may stand before every entry of the list.
fn min_index(nightowl: bool, v: &Vec<AuthorSummary>) -> (r: usize)
    requires
        v@.len() >= 1,
        spec_all_active(v@),
    ensures
        r < v@.len(),
        forall|k: int| 0 <= k < v@.len() ==> spec_precedes(nightowl, v@[r as int], v@[k]),
{
    let mut best: usize = 0;
    let mut k: usize = 1;
    while k < v.len()
        invariant
            1 <= k <= v@.len(),
            best < k,
            spec_all_active(v@),
            forall|j: int| 0 <= j < k ==> spec_precedes(nightowl, v@[best as int], v@[j]),
        decreases v@.len() - k,
    {
        if !precedes(nightowl, &v[best], &v[k]) {
            proof {
                lemma_precedes_total(nightowl, v@[best as int], v@[k as int]);
                assert forall|j: int| 0 <= j < k + 1 implies spec_precedes(
                    nightowl,
                    v@[k as int],
                    v@[j],
                ) by {
                    if j < k {
                        lemma_precedes_transitive(nightowl, v@[k as int], v@[best as int], v@[j]);
                    } else if j == k {
                        lemma_precedes_total(nightowl, v@[k as int], v@[k as int]);
                    }
                }
            }
            best = k;
        }
        k = k + 1;
    }
    best
}

/// Sorts the summaries into the chosen ranking order. The result is a
/// permutation of the input; ties between summaries with equal keys may
/// come out in either order.
pub fn sort_authors(nightowl: bool, list: Vec<AuthorSummary>) -> (r: Vec<AuthorSummary>)
    requires
        spec_all_active(list@),
    ensures
        spec_sorted_authors(nightowl, r@),
        r@.to_multiset() == list@.to_multiset(),
        r@.len() == list@.len(),
        spec_all_active(r@),
{
    broadcast use vstd::seq_lib::group_to_multiset_ensures;

    let ghost orig = list@.to_multiset();
    let mut src = list;
    let mut out: Vec<AuthorSummary> = Vec::new();
    proof {
        assert(out@.to_multiset().add(src@.to_multiset()) =~= orig);
    }
    while src.len() > 0
        invariant
            spec_sorted_authors(nightowl, out@),
            spec_all_active(out@),
            spec_all_active(src@),
            out@.to_multiset().add(src@.to_multiset()) == orig,
            out@.len() + src@.len() == orig.len(),
            forall|i: int, j: int|
                0 <= i < out@.len() && 0 <= j < src@.len() ==> spec_precedes(
                    nightowl,
                    out@[i],
                    src@[j],
                ),
        decreases src@.len(),
    {
        let ghost src0 = src@;
        let mi = min_index(nightowl, &src);
        let x = src.remove(mi);
        proof {
            src0.to_multiset_ensures();
            assert(src0.remove(mi as int).to_multiset() =~= src0.to_multiset().remove(x));
            assert forall|j: int| 0 <= j < src@.len() implies spec_precedes(
                nightowl,
                x,
                #[trigger] src@[j],
            ) by {
                if j < mi {
                    assert(src@[j] == src0[j]);
                } else {
                    assert(src@[j] == src0[j + 1]);
                }
            }
            assert forall|j: int| 0 <= j < src@.len() implies (#[trigger] src@[j]).total_commits
                >= 1 by {
                if j < mi {
                    assert(src@[j] == src0[j]);
                } else {
                    assert(src@[j] == src0[j + 1]);
                }
            }
        }
        let ghost out0 = out@;
        out.push(x);
        proof {
            out0.to_multiset_ensures();
            assert(out@ == out0.push(x));
            assert(out@.to_multiset() =~= out0.to_multiset().insert(x));
            assert(out@.to_multiset().add(src@.to_multiset()) =~= orig) by {
                assert(out0.to_multiset().add(src0.to_multiset()) == orig);
                assert(src0.to_multiset().remove(x).insert(x) =~= src0.to_multiset());
            }
            assert forall|i: int, j: int|
                0 <= i < j < out@.len() implies spec_precedes(nightowl, out@[i], out@[j]) by {
                if j < out@.len() - 1 {
                    assert(spec_precedes(nightowl, out0[i], out0[j]));
                }
            }
        }
    }
    proof {
        assert(src@.to_multiset() =~= Multiset::empty());
        assert(out@.to_multiset().add(Multiset::<AuthorSummary>::empty()) =~= out@.to_multiset());
        assert(out@.to_multiset().len() == orig.len());
    }
    out
}

} // verus!
