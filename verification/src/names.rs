//! Lexicographic order on names (by Unicode scalar values, which for UTF-8
//! strings agrees with byte order), the ignore list builder, and sorting of
//! alias rules for the report.

use vstd::prelude::*;

use crate::metrics::AliasRule;
use crate::rewrite::{spec_contains_name, spec_name_views};

verus! {

/// Strict lexicographic order on character sequences, comparing scalar
/// values; a proper prefix comes first.
pub open spec fn spec_lex_lt(a: Seq<char>, b: Seq<char>) -> bool
    decreases a.len(),
{
    if b.len() == 0 {
        false
    } else if a.len() == 0 {
        true
    } else if (a[0] as u32) < (b[0] as u32) {
        true
    } else if (a[0] as u32) > (b[0] as u32) {
        false
    } else {
        spec_lex_lt(a.drop_first(), b.drop_first())
    }
}

/// Distinct characters have distinct scalar values.
proof fn lemma_char_inj(a: char, b: char)
    requires
        a as u32 == b as u32,
    ensures
        a == b,
{
}

/// Sequences neither of which comes first are equal.
pub proof fn lemma_lex_connex(a: Seq<char>, b: Seq<char>)
    requires
        !spec_lex_lt(a, b),
        !spec_lex_lt(b, a),
    ensures
        a == b,
    decreases a.len(),
{
    if a.len() == 0 || b.len() == 0 {
        assert(a =~= b);
    } else {
        assert((a[0] as u32) == (b[0] as u32));
        lemma_char_inj(a[0], b[0]);
        lemma_lex_connex(a.drop_first(), b.drop_first());
        assert(a[0] == b[0]);
        assert(a =~= seq![a[0]] + a.drop_first());
        assert(b =~= seq![b[0]] + b.drop_first());
    }
}

/// The lexicographic order chains.
pub proof fn lemma_lex_trans(a: Seq<char>, b: Seq<char>, c: Seq<char>)
    requires
        spec_lex_lt(a, b),
        spec_lex_lt(b, c),
    ensures
        spec_lex_lt(a, c),
    decreases a.len(),
{
    if a.len() > 0 && b.len() > 0 && c.len() > 0 && (a[0] as u32) == (b[0] as u32) && (b[0] as u32)
        == (c[0] as u32) {
        lemma_lex_trans(a.drop_first(), b.drop_first(), c.drop_first());
    }
}

/// No sequence comes before itself.
pub proof fn lemma_lex_irrefl(a: Seq<char>)
    ensures
        !spec_lex_lt(a, a),
    decreases a.len(),
{
    if a.len() > 0 {
        lemma_lex_irrefl(a.drop_first());
    }
}

proof fn lemma_lex_skip(a: Seq<char>, b: Seq<char>, i: int)
    requires
        0 <= i <= a.len(),
        i <= b.len(),
        forall|j: int| 0 <= j < i ==> a[j] == b[j],
    ensures
        spec_lex_lt(a, b) == spec_lex_lt(a.skip(i), b.skip(i)),
    decreases i,
{
    if i == 0 {
        assert(a.skip(0) =~= a);
        assert(b.skip(0) =~= b);
    } else {
        lemma_lex_skip(a.drop_first(), b.drop_first(), i - 1);
        assert(a.drop_first().skip(i - 1) =~= a.skip(i));
        assert(b.drop_first().skip(i - 1) =~= b.skip(i));
    }
}

/// Decides the strict lexicographic order on two strings.
pub fn str_lex_lt(a: &str, b: &str) -> (r: bool)
    ensures
        r == spec_lex_lt(a@, b@),
{
    let an = a.unicode_len();
    let bn = b.unicode_len();
    let mut i: usize = 0;
    while i < an && i < bn
        invariant
            0 <= i <= an,
            i <= bn,
            an == a@.len(),
            bn == b@.len(),
            forall|j: int| 0 <= j < i ==> a@[j] == b@[j],
        decreases an - i,
    {
        let ca = a.get_char(i);
        let cb = b.get_char(i);
        if (ca as u32) < (cb as u32) {
            proof {
                lemma_lex_skip(a@, b@, i as int);
            }
            return true;
        }
        if (ca as u32) > (cb as u32) {
            proof {
                lemma_lex_skip(a@, b@, i as int);
            }
            return false;
        }
        proof {
            lemma_char_inj(ca, cb);
        }
        i = i + 1;
    }
    proof {
        lemma_lex_skip(a@, b@, i as int);
        if i == an {
            assert(a@.skip(i as int).len() == 0);
        } else {
            assert(b@.skip(i as int).len() == 0);
        }
    }
    an < bn
}

/// The name every run ignores, besides those the caller adds.
pub fn default_ignored_author() -> (r: String)
    ensures
        r@ == "BitsAdmin"@,
{
    String::from_str("BitsAdmin")
}

/// Builds the ignore list: the default name plus the caller's additions,
/// without duplicates, in ascending lexicographic order.
pub fn build_ignore_list(extra: &Vec<String>) -> (r: Vec<String>)
    ensures
        forall|x: int, y: int|
            0 <= x < y < r@.len() ==> spec_lex_lt((#[trigger] r@[x])@, (#[trigger] r@[y])@),
        forall|a: Seq<char>|
            spec_contains_name(spec_name_views(r@), a) <==> (a == "BitsAdmin"@
                || spec_contains_name(spec_name_views(extra@), a)),
{
    let mut out: Vec<String> = Vec::new();
    out.push(default_ignored_author());
    proof {
        assert forall|a: Seq<char>|
            spec_contains_name(spec_name_views(out@), a) <==> (a == "BitsAdmin"@
                || spec_contains_name(spec_name_views(extra@.take(0)), a)) by {
            if spec_contains_name(spec_name_views(out@), a) {
                let k = choose|k: int|
                    0 <= k < out@.len() && (#[trigger] spec_name_views(out@)[k]) == a;
                assert(out@[k]@ == a);
            }
            if a == "BitsAdmin"@ {
                assert(spec_name_views(out@)[0] == a);
            }
        }
    }
    let mut i: usize = 0;
    while i < extra.len()
        invariant
            0 <= i <= extra@.len(),
            forall|x: int, y: int|
                0 <= x < y < out@.len() ==> spec_lex_lt((#[trigger] out@[x])@, (
                #[trigger] out@[y])@),
            forall|a: Seq<char>|
                spec_contains_name(spec_name_views(out@), a) <==> (a == "BitsAdmin"@
                    || spec_contains_name(spec_name_views(extra@.take(i as int)), a)),
        decreases extra@.len() - i,
    {
        let name = &extra[i];
        let ghost out0 = out@;
        // Sorted position of the new name.
        let mut k: usize = 0;
        while k < out.len() && str_lex_lt(out[k].as_str(), name.as_str())
            invariant
                0 <= k <= out@.len(),
                out@ == out0,
                forall|j: int| 0 <= j < k ==> spec_lex_lt((#[trigger] out@[j])@, name@),
            decreases out@.len() - k,
        {
            k = k + 1;
        }
        let duplicate = k < out.len() && out[k] == *name;
        if !duplicate {
            proof {
                if k < out0.len() {
                    if !spec_lex_lt(name@, out0[k as int]@) {
                        lemma_lex_connex(out0[k as int]@, name@);
                        assert(false);
                    }
                }
            }
            out.insert(k, name.clone());
            proof {
                out0.insert_ensures(k as int, extra@[i as int]);
                assert(out@ == out0.insert(k as int, extra@[i as int]));
                assert(out@[k as int]@ == name@);
                assert forall|x: int, y: int|
                    0 <= x < y < out@.len() implies spec_lex_lt((#[trigger] out@[x])@, (
                #[trigger] out@[y])@) by {
                    if x == k {
                        assert(out@[y] == out0[y - 1]);
                        if !spec_lex_lt(name@, out0[y - 1]@) {
                            if spec_lex_lt(out0[y - 1]@, name@) {
                                if y - 1 > k {
                                    lemma_lex_trans(out0[k as int]@, out0[y - 1]@, name@);
                                }
                                assert(false);
                            } else {
                                lemma_lex_connex(out0[y - 1]@, name@);
                                if y - 1 > k {
                                    assert(spec_lex_lt(out0[k as int]@, out0[y - 1]@));
                                    assert(false);
                                } else {
                                    assert(false);
                                }
                            }
                        }
                    } else if y == k {
                        assert(out@[x] == out0[x]);
                    } else if x < k && y > k {
                        assert(out@[x] == out0[x] && out@[y] == out0[y - 1]);
                        if y - 1 == x {
                            assert(spec_lex_lt(out0[x]@, name@));
                            assert(false) by {
                                lemma_lex_irrefl(out0[x]@);
                                assert(spec_lex_lt(out@[y]@, name@));
                            }
                        }
                    }
                }
            }
        }
        proof {
            assert(extra@.take(i as int + 1).drop_last() =~= extra@.take(i as int));
            assert forall|a: Seq<char>|
                spec_contains_name(spec_name_views(out@), a) <==> (a == "BitsAdmin"@
                    || spec_contains_name(spec_name_views(extra@.take(i as int + 1)), a)) by {
                let pv = spec_name_views(extra@.take(i as int));
                let pv1 = spec_name_views(extra@.take(i as int + 1));
                assert(pv1[i as int] == extra@[i as int]@);
                assert forall|j: int| 0 <= j < i implies pv1[j] == pv[j] by {}
                if spec_contains_name(spec_name_views(out@), a) {
                    let kk = choose|kk: int|
                        0 <= kk < out@.len() && (#[trigger] spec_name_views(out@)[kk]) == a;
                    if duplicate || a != name@ {
                        if !duplicate {
                            // out is out0 with name inserted at k.
                            if kk == k {
                                assert(a == name@);
                                assert(false);
                            } else if kk < k {
                                assert(out@[kk] == out0[kk]);
                                assert(spec_name_views(out0)[kk] == a);
                            } else {
                                assert(out@[kk] == out0[kk - 1]);
                                assert(spec_name_views(out0)[kk - 1] == a);
                            }
                        } else {
                            assert(out@ == out0);
                            assert(spec_name_views(out0)[kk] == a);
                        }
                        assert(spec_contains_name(spec_name_views(out0), a));
                        if a != "BitsAdmin"@ {
                            assert(spec_contains_name(pv, a));
                            let jj = choose|jj: int| 0 <= jj < pv.len() && (#[trigger] pv[jj]) == a;
                            assert(pv1[jj] == a);
                            assert(spec_contains_name(pv1, a));
                        }
                    } else {
                        assert(pv1[i as int] == a);
                        assert(spec_contains_name(pv1, a));
                    }
                }
                if a == "BitsAdmin"@ || spec_contains_name(pv1, a) {
                    if a == "BitsAdmin"@ || spec_contains_name(pv, a) {
                        assert(spec_contains_name(spec_name_views(out0), a));
                        let kk = choose|kk: int|
                            0 <= kk < out0.len() && (#[trigger] spec_name_views(out0)[kk]) == a;
                        assert(out0[kk]@ == a);
                        if duplicate {
                            assert(out@ == out0);
                            assert(spec_name_views(out@)[kk] == a);
                        } else {
                            if kk < k {
                                assert(out@[kk] == out0[kk]);
                                assert(spec_name_views(out@)[kk] == a);
                            } else {
                                assert(out@[kk + 1] == out0[kk]);
                                assert(spec_name_views(out@)[kk + 1] == a);
                            }
                        }
                        assert(spec_contains_name(spec_name_views(out@), a));
                    } else {
                        assert(a == name@);
                        if duplicate {
                            assert(out@ == out0);
                            assert(out@[k as int]@ == name@);
                            assert(spec_name_views(out@)[k as int] == a);
                        } else {
                            assert(spec_name_views(out@)[k as int] == a);
                        }
                        assert(spec_contains_name(spec_name_views(out@), a));
                    }
                }
            }
        }
        i = i + 1;
    }
    proof {
        assert(extra@.take(extra@.len() as int) =~= extra@);
    }
    out
}

/// Every entry of `r` is one of the entries of `rules`.
pub open spec fn spec_entries_from(rules: Seq<AliasRule>, r: Seq<AliasRule>) -> bool {
    forall|x: int|
        0 <= x < r.len() ==> rules.contains(#[trigger] r[x])
}

/// Sorts alias rules by their `from` side. The rules' `from` sides must be
/// pairwise distinct, which the parser guarantees.
#[verifier::rlimit(100)]
pub fn sort_alias_rules(rules: &Vec<AliasRule>) -> (r: Vec<AliasRule>)
    requires
        forall|x: int, y: int|
            0 <= x < y < rules@.len() ==> (#[trigger] rules@[x]).from@ != (
            #[trigger] rules@[y]).from@,
    ensures
        r@.len() == rules@.len(),
        forall|x: int, y: int|
            0 <= x < y < r@.len() ==> spec_lex_lt((#[trigger] r@[x]).from@, (
            #[trigger] r@[y]).from@),
        spec_entries_from(rules@, r@),
{
    let mut out: Vec<AliasRule> = Vec::new();
    let mut i: usize = 0;
    while i < rules.len()
        invariant
            0 <= i <= rules@.len(),
            out@.len() == i,
            forall|x: int, y: int|
                0 <= x < y < rules@.len() ==> (#[trigger] rules@[x]).from@ != (
                #[trigger] rules@[y]).from@,
            forall|x: int, y: int|
                0 <= x < y < out@.len() ==> spec_lex_lt((#[trigger] out@[x]).from@, (
                #[trigger] out@[y]).from@),
            forall|x: int|
                #![trigger out@[x]]
                0 <= x < out@.len() ==> exists|y: int|
                    0 <= y < i && (#[trigger] rules@[y]) == out@[x],
        decreases rules@.len() - i,
    {
        let rule = &rules[i];
        let ghost out0 = out@;
        let mut k: usize = 0;
        while k < out.len() && str_lex_lt(out[k].from.as_str(), rule.from.as_str())
            invariant
                0 <= k <= out@.len(),
                out@ == out0,
                forall|j: int| 0 <= j < k ==> spec_lex_lt((#[trigger] out@[j]).from@, rule.from@),
            decreases out@.len() - k,
        {
            k = k + 1;
        }
        proof {
            // The new rule's from differs from every stored one, so it
            // sorts strictly after the prefix and strictly before the rest.
            assert forall|j: int| k <= j < out0.len() implies spec_lex_lt(
                rule.from@,
                (#[trigger] out0[j]).from@,
            ) by {
                let y = choose|y: int| 0 <= y < i && (#[trigger] rules@[y]) == out0[j];
                assert(rules@[y].from@ != rule.from@);
                assert(out0[j].from@ != rule.from@);
                if !spec_lex_lt(rule.from@, out0[j].from@) {
                    if j == k {
                        lemma_lex_connex(out0[j].from@, rule.from@);
                        assert(false);
                    } else {
                        assert(spec_lex_lt(out0[k as int].from@, out0[j].from@));
                        if spec_lex_lt(out0[j].from@, rule.from@) {
                            lemma_lex_trans(out0[k as int].from@, out0[j].from@, rule.from@);
                            assert(false);
                        } else {
                            lemma_lex_connex(out0[j].from@, rule.from@);
                            assert(false);
                        }
                    }
                }
            }
        }
        out.insert(k, AliasRule { from: rule.from.clone(), to: rule.to.clone() });
        proof {
            out0.insert_ensures(k as int, out@[k as int]);
            assert(out@ == out0.insert(k as int, out@[k as int]));
            assert(out@[k as int].from@ == rule.from@ && out@[k as int].to@ == rule.to@);
            assert(out@[k as int] == rules@[i as int]) by {
                assert(out@[k as int].from == rule.from && out@[k as int].to == rule.to);
            }
            assert forall|x: int, y: int|
                0 <= x < y < out@.len() implies spec_lex_lt((#[trigger] out@[x]).from@, (
            #[trigger] out@[y]).from@) by {
                if x == k {
                    assert(out@[y] == out0[y - 1]);
                } else if y == k {
                    assert(out@[x] == out0[x]);
                } else if x < k && k < y {
                    assert(out@[x] == out0[x] && out@[y] == out0[y - 1]);
                    if y - 1 == x {
                        assert(false);
                    }
                }
            }
            assert forall|x: int| #![trigger out@[x]] 0 <= x < out@.len() implies exists|y: int|
                0 <= y < i + 1 && (#[trigger] rules@[y]) == out@[x] by {
                if x == k {
                    assert(rules@[i as int] == out@[x]);
                } else if x < k {
                    assert(out@[x] == out0[x]);
                } else {
                    assert(out@[x] == out0[x - 1]);
                }
            }
        }
        i = i + 1;
    }
    proof {
        assert(spec_entries_from(rules@, out@)) by {
            assert forall|x: int| 0 <= x < out@.len() implies rules@.contains(
                #[trigger] out@[x],
            ) by {
                let y0 = choose|y0: int| 0 <= y0 < i && (#[trigger] rules@[y0]) == out@[x];
                assert(i == rules@.len());
                assert(rules@[y0] == out@[x]);
            }
        }
    }
    out
}

} // verus!
