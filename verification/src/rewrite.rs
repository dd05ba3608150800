//! The ignore/alias rewriter: drops commits whose raw author is ignored,
//! then replaces retained authors through the exact-match alias rules.
//!
//! The ignore comparison is made against the raw author, before any alias
//! rewrite: a user who ignores a canonical name does not catch pre-alias
//! variants of it.

use vstd::prelude::*;

use crate::commit::{Commit, CommitView};
use crate::metrics::AliasRule;

verus! {

/// Views of a commit list.
pub open spec fn spec_views(s: Seq<Commit>) -> Seq<CommitView> {
    s.map_values(|c: Commit| c@)
}

/// Views of a name list.
pub open spec fn spec_name_views(s: Seq<String>) -> Seq<Seq<char>> {
    s.map_values(|x: String| x@)
}

/// Views of an alias rule list, as (from, to) pairs.
pub open spec fn spec_rule_views(s: Seq<AliasRule>) -> Seq<(Seq<char>, Seq<char>)> {
    s.map_values(|r: AliasRule| (r.from@, r.to@))
}

/// Whether the name list holds this name.
pub open spec fn spec_contains_name(ign: Seq<Seq<char>>, a: Seq<char>) -> bool {
    exists|i: int| 0 <= i < ign.len() && ign[i] == a
}

/// The name after alias rewriting: the replacement of the first rule whose
/// `from` matches exactly, or the name itself when none does.
pub open spec fn spec_alias_apply(al: Seq<(Seq<char>, Seq<char>)>, a: Seq<char>) -> Seq<char>
    decreases al.len(),
{
    if al.len() == 0 {
        a
    } else if al[0].0 == a {
        al[0].1
    } else {
        spec_alias_apply(al.drop_first(), a)
    }
}

/// The rewritten commit sequence: ignored raw authors dropped, the rest
/// alias-rewritten, order preserved.
pub open spec fn spec_rewrite(
    s: Seq<CommitView>,
    ign: Seq<Seq<char>>,
    al: Seq<(Seq<char>, Seq<char>)>,
) -> Seq<CommitView>
    decreases s.len(),
{
    if s.len() == 0 {
        s
    } else {
        let rest = spec_rewrite(s.drop_last(), ign, al);
        let c = s.last();
        if spec_contains_name(ign, c.author) {
            rest
        } else {
            rest.push(CommitView { author: spec_alias_apply(al, c.author), timestamp: c.timestamp })
        }
    }
}

/// The commit sequence with every commit by `x` removed, order preserved.
pub open spec fn spec_drop_author(s: Seq<CommitView>, x: Seq<char>) -> Seq<CommitView>
    decreases s.len(),
{
    if s.len() == 0 {
        s
    } else {
        let rest = spec_drop_author(s.drop_last(), x);
        if s.last().author == x {
            rest
        } else {
            rest.push(s.last())
        }
    }
}

/// Whether the name list holds this name, by exact comparison.
fn contains_name(ign: &Vec<String>, a: &String) -> (r: bool)
    ensures
        r == spec_contains_name(spec_name_views(ign@), a@),
{
    let mut i: usize = 0;
    while i < ign.len()
        invariant
            0 <= i <= ign@.len(),
            forall|j: int| 0 <= j < i ==> (#[trigger] ign@[j])@ != a@,
        decreases ign@.len() - i,
    {
        if ign[i] == *a {
            proof {
                assert(spec_name_views(ign@)[i as int] == a@);
            }
            return true;
        }
        i = i + 1;
    }
    proof {
        assert forall|j: int| 0 <= j < ign@.len() implies spec_name_views(ign@)[j] != a@ by {
            assert(ign@[j]@ != a@);
        }
    }
    false
}

proof fn lemma_alias_apply_skip(al: Seq<(Seq<char>, Seq<char>)>, a: Seq<char>, i: int)
    requires
        0 <= i <= al.len(),
        forall|j: int| 0 <= j < i ==> (#[trigger] al[j]).0 != a,
    ensures
        spec_alias_apply(al, a) == spec_alias_apply(al.skip(i), a),
    decreases i,
{
    if i == 0 {
        assert(al.skip(0) =~= al);
    } else {
        lemma_alias_apply_skip(al.drop_first(), a, i - 1);
        assert(al.drop_first().skip(i - 1) =~= al.skip(i));
    }
}

/// Applies the alias rules to one author name.
fn alias_apply(al: &Vec<AliasRule>, a: &String) -> (r: String)
    ensures
        r@ == spec_alias_apply(spec_rule_views(al@), a@),
{
    let ghost alv = spec_rule_views(al@);
    let mut i: usize = 0;
    while i < al.len()
        invariant
            0 <= i <= al@.len(),
            alv == spec_rule_views(al@),
            forall|j: int| 0 <= j < i ==> (#[trigger] alv[j]).0 != a@,
        decreases al@.len() - i,
    {
        if al[i].from == *a {
            proof {
                lemma_alias_apply_skip(alv, a@, i as int);
                assert(alv.skip(i as int)[0] == alv[i as int]);
                assert(alv.skip(i as int).len() > 0);
            }
            return al[i].to.clone();
        }
        proof {
            assert(alv[i as int].0 == al@[i as int].from@);
        }
        i = i + 1;
    }
    proof {
        lemma_alias_apply_skip(alv, a@, al@.len() as int);
        assert(alv.skip(alv.len() as int) =~= Seq::empty());
    }
    a.clone()
}

/// Rewrites the commit list: a commit is dropped exactly when its raw
/// author is in the ignore list; every retained commit's author is passed
/// through the alias rules; order is preserved.
pub fn rewrite_commits(commits: &Vec<Commit>, ignored: &Vec<String>, aliases: &Vec<AliasRule>) -> (r:
    Vec<Commit>)
    ensures
        spec_views(r@) == spec_rewrite(
            spec_views(commits@),
            spec_name_views(ignored@),
            spec_rule_views(aliases@),
        ),
{
    let ghost ignv = spec_name_views(ignored@);
    let ghost alv = spec_rule_views(aliases@);
    let mut out: Vec<Commit> = Vec::new();
    let mut i: usize = 0;
    proof {
        assert(spec_views(commits@.take(0)) =~= Seq::<CommitView>::empty());
        assert(spec_views(out@) =~= Seq::<CommitView>::empty());
    }
    while i < commits.len()
        invariant
            0 <= i <= commits@.len(),
            ignv == spec_name_views(ignored@),
            alv == spec_rule_views(aliases@),
            spec_views(out@) == spec_rewrite(spec_views(commits@.take(i as int)), ignv, alv),
        decreases commits@.len() - i,
    {
        let c = &commits[i];
        let ghost pv = spec_views(commits@.take(i as int));
        proof {
            assert(spec_views(commits@.take(i as int + 1)) =~= pv.push(c@));
            assert(pv.push(c@).drop_last() =~= pv);
        }
        if !contains_name(ignored, &c.author) {
            let name = alias_apply(aliases, &c.author);
            let ghost out0 = spec_views(out@);
            out.push(Commit { author: name, timestamp: c.timestamp });
            proof {
                assert(spec_views(out@) =~= out0.push(
                    CommitView { author: spec_alias_apply(alv, c.author@), timestamp: c.timestamp },
                ));
            }
        }
        i = i + 1;
    }
    proof {
        assert(commits@.take(commits@.len() as int) =~= commits@);
    }
    out
}

/// Rules that rewrite every name to itself change nothing: rewriting with
/// an identity alias map equals rewriting with no alias map at all.
pub proof fn lemma_alias_identity(
    s: Seq<CommitView>,
    ign: Seq<Seq<char>>,
    al: Seq<(Seq<char>, Seq<char>)>,
)
    requires
        forall|i: int| 0 <= i < al.len() ==> (#[trigger] al[i]).0 == al[i].1,
    ensures
        spec_rewrite(s, ign, al) == spec_rewrite(s, ign, Seq::empty()),
    decreases s.len(),
{
    if s.len() > 0 {
        lemma_alias_identity(s.drop_last(), ign, al);
        lemma_alias_apply_identity(al, s.last().author);
        assert(spec_alias_apply(Seq::empty(), s.last().author) == s.last().author);
        if !spec_contains_name(ign, s.last().author) {
            assert(CommitView {
                author: spec_alias_apply(al, s.last().author),
                timestamp: s.last().timestamp,
            } == s.last());
            assert(CommitView {
                author: spec_alias_apply(Seq::empty(), s.last().author),
                timestamp: s.last().timestamp,
            } == s.last());
        }
    }
}

proof fn lemma_alias_apply_identity(al: Seq<(Seq<char>, Seq<char>)>, a: Seq<char>)
    requires
        forall|i: int| 0 <= i < al.len() ==> (#[trigger] al[i]).0 == al[i].1,
    ensures
        spec_alias_apply(al, a) == a,
    decreases al.len(),
{
    if al.len() > 0 {
        lemma_alias_apply_identity(al.drop_first(), a);
    }
}

/// Ignoring one more author equals filtering that author out of the commit
/// sequence upstream: the ignore set acts commit-wise on raw authors.
pub proof fn lemma_ignore_commutes(
    s: Seq<CommitView>,
    ign: Seq<Seq<char>>,
    al: Seq<(Seq<char>, Seq<char>)>,
    x: Seq<char>,
)
    ensures
        spec_rewrite(s, ign.push(x), al) == spec_rewrite(spec_drop_author(s, x), ign, al),
    decreases s.len(),
{
    if s.len() > 0 {
        lemma_ignore_commutes(s.drop_last(), ign, al, x);
        let c = s.last();
        assert(spec_contains_name(ign.push(x), c.author) == (spec_contains_name(ign, c.author)
            || c.author == x)) by {
            if spec_contains_name(ign, c.author) {
                let i = choose|i: int| 0 <= i < ign.len() && ign[i] == c.author;
                assert(ign.push(x)[i] == c.author);
            }
            if c.author == x {
                assert(ign.push(x)[ign.len() as int] == x);
            }
            if spec_contains_name(ign.push(x), c.author) {
                let i = choose|i: int| 0 <= i < ign.push(x).len() && ign.push(x)[i] == c.author;
                if i < ign.len() {
                    assert(ign[i] == c.author);
                }
            }
        }
        if c.author == x {
        } else {
            let rest = spec_drop_author(s.drop_last(), x);
            assert(spec_drop_author(s, x) == rest.push(c));
            assert(rest.push(c).drop_last() =~= rest);
            assert(rest.push(c).last() == c);
        }
    }
}

} // verus!
