//! Parsing of alias rules: each entry has the form `FROM=TO`, both sides
//! trimmed of surrounding whitespace and nonempty, and no two entries may
//! share a `FROM`.

use vstd::prelude::*;

use crate::metrics::AliasRule;

verus! {

/// ASCII whitespace, as trimmed from alias sides.
pub open spec fn spec_is_space(c: char) -> bool {
    c == ' ' || c == '\t' || c == '\n' || c == '\r' || c == '\u{b}' || c == '\u{c}'
}

/// The sequence without its leading whitespace.
pub open spec fn spec_trim_start(s: Seq<char>) -> Seq<char>
    decreases s.len(),
{
    if s.len() > 0 && spec_is_space(s[0]) {
        spec_trim_start(s.drop_first())
    } else {
        s
    }
}

/// The sequence without its trailing whitespace.
pub open spec fn spec_trim_end(s: Seq<char>) -> Seq<char>
    decreases s.len(),
{
    if s.len() > 0 && spec_is_space(s.last()) {
        spec_trim_end(s.drop_last())
    } else {
        s
    }
}

/// The sequence without leading and trailing whitespace.
pub open spec fn spec_trim(s: Seq<char>) -> Seq<char> {
    spec_trim_end(spec_trim_start(s))
}

/// Index of the first `=` in the entry, or its length when there is none.
pub open spec fn spec_find_eq(s: Seq<char>) -> int
    decreases s.len(),
{
    if s.len() == 0 {
        0
    } else if s[0] == '=' {
        0
    } else {
        1 + spec_find_eq(s.drop_first())
    }
}

/// The entry has a separator.
pub open spec fn spec_has_sep(e: Seq<char>) -> bool {
    spec_find_eq(e) < e.len()
}

/// The trimmed left side of the entry (what to rewrite).
pub open spec fn spec_lhs(e: Seq<char>) -> Seq<char> {
    spec_trim(e.take(spec_find_eq(e)))
}

/// The trimmed right side of the entry (the canonical name), taking
/// everything after the first separator.
pub open spec fn spec_rhs(e: Seq<char>) -> Seq<char> {
    spec_trim(e.skip(spec_find_eq(e) + 1))
}

/// The entry is well-formed: it has a separator and neither trimmed side
/// is empty.
pub open spec fn spec_entry_ok(e: Seq<char>) -> bool {
    spec_has_sep(e) && spec_lhs(e).len() > 0 && spec_rhs(e).len() > 0
}

/// Why an alias list was rejected. The offending entry (or the repeated
/// left side) is carried along for the caller's message.
#[derive(Debug)]
pub enum AliasError {
    /// The entry has no `=`.
    MissingSeparator {
        /// The raw entry.
        entry: String,
    },
    /// One side of the entry is empty after trimming.
    EmptySide {
        /// The raw entry.
        entry: String,
    },
    /// Two entries share a left side.
    DuplicateFrom {
        /// The repeated left side.
        from: String,
    },
}

proof fn lemma_find_eq_at(s: Seq<char>, i: int)
    requires
        0 <= i <= s.len(),
        forall|j: int| 0 <= j < i ==> s[j] != '=',
        i < s.len() ==> s[i] == '=',
    ensures
        spec_find_eq(s) == i,
    decreases i,
{
    if i == 0 {
        if s.len() > 0 && s[0] != '=' {
            assert(i < s.len());
        }
    } else {
        lemma_find_eq_at(s.drop_first(), i - 1);
    }
}

proof fn lemma_trim_start_at(s: Seq<char>, i: int)
    requires
        0 <= i <= s.len(),
        forall|j: int| 0 <= j < i ==> spec_is_space(s[j]),
        i < s.len() ==> !spec_is_space(s[i]),
    ensures
        spec_trim_start(s) == s.skip(i),
    decreases i,
{
    if i == 0 {
        assert(s.skip(0) =~= s);
    } else {
        lemma_trim_start_at(s.drop_first(), i - 1);
        assert(s.drop_first().skip(i - 1) =~= s.skip(i));
    }
}

proof fn lemma_trim_end_at(s: Seq<char>, i: int)
    requires
        0 <= i <= s.len(),
        forall|j: int| i <= j < s.len() ==> spec_is_space(s[j]),
        i > 0 ==> !spec_is_space(s[i - 1]),
    ensures
        spec_trim_end(s) == s.take(i),
    decreases s.len(),
{
    if i == s.len() {
        if s.len() > 0 && !spec_is_space(s.last()) {
            assert(s.take(i) =~= s);
        } else if s.len() == 0 {
            assert(s.take(0) =~= s);
        } else {
            lemma_trim_end_at(s.drop_last(), i - 1);
            assert(s.drop_last().take(i - 1) =~= s.take(i - 1));
            assert(false);
        }
        assert(s.take(i) =~= s);
    } else {
        lemma_trim_end_at(s.drop_last(), i);
        assert(s.drop_last().take(i) =~= s.take(i));
    }
}

/// Decides whether a character is ASCII whitespace.
fn is_space(c: char) -> (r: bool)
    ensures
        r == spec_is_space(c),
{
    c == ' ' || c == '\t' || c == '\n' || c == '\r' || c == '\u{b}' || c == '\u{c}'
}

/// Strips leading and trailing ASCII whitespace.
pub(crate) fn trim_str(s: &str) -> (r: String)
    ensures
        r@ == spec_trim(s@),
{
    let n = s.unicode_len();
    let mut start: usize = 0;
    while start < n && is_space(s.get_char(start))
        invariant
            0 <= start <= n,
            n == s@.len(),
            forall|j: int| 0 <= j < start ==> spec_is_space(s@[j]),
        decreases n - start,
    {
        start = start + 1;
    }
    proof {
        lemma_trim_start_at(s@, start as int);
    }
    let mut end: usize = n;
    while end > start && is_space(s.get_char(end - 1))
        invariant
            start <= end <= n,
            n == s@.len(),
            forall|j: int| 0 <= j < start ==> spec_is_space(s@[j]),
            start < n ==> !spec_is_space(s@[start as int]),
            forall|j: int| end <= j < n ==> spec_is_space(s@[j]),
        decreases end,
    {
        end = end - 1;
    }
    let r = s.substring_char(start, end).to_owned();
    proof {
        let mid = s@.skip(start as int);
        assert(spec_trim_start(s@) == mid);
        if end == start {
            // Everything from `start` on is whitespace, which contradicts
            // `start` stopping at a non-space unless start == n.
            assert(start == n || !spec_is_space(s@[start as int]));
            assert(start == n);
            lemma_trim_end_at(mid, 0);
            assert(mid.take(0) =~= s@.subrange(start as int, end as int));
        } else {
            assert(!spec_is_space(s@[end - 1]));
            assert forall|j: int| end - start <= j < mid.len() implies spec_is_space(
                mid[j],
            ) by {
                assert(mid[j] == s@[start + j]);
            }
            lemma_trim_end_at(mid, end - start as int);
            assert(mid.take(end - start as int) =~= s@.subrange(start as int, end as int));
        }
    }
    r
}

/// Index of the first `=` in the string, if any.
fn find_eq(s: &str) -> (r: Option<usize>)
    ensures
        match r {
            Some(i) => i == spec_find_eq(s@) && i < s@.len(),
            None => spec_find_eq(s@) == s@.len(),
        },
{
    let n = s.unicode_len();
    let mut i: usize = 0;
    while i < n
        invariant
            0 <= i <= n,
            n == s@.len(),
            forall|j: int| 0 <= j < i ==> s@[j] != '=',
        decreases n - i,
    {
        if s.get_char(i) == '=' {
            proof {
                lemma_find_eq_at(s@, i as int);
            }
            return Some(i);
        }
        i = i + 1;
    }
    proof {
        lemma_find_eq_at(s@, n as int);
    }
    None
}

/// Parses raw `FROM=TO` entries into alias rules, in order.
///
/// Fails on the first entry without a separator, with an empty trimmed
/// side, or whose left side repeats an earlier one; the error says which.
pub fn parse_aliases(raw: &Vec<String>) -> (r: Result<Vec<AliasRule>, AliasError>)
    ensures
        match r {
            Ok(rules) => {
                &&& rules@.len() == raw@.len()
                &&& forall|i: int| 0 <= i < raw@.len() ==> spec_entry_ok(#[trigger] raw@[i]@)
                &&& forall|i: int, j: int|
                    0 <= i < j < raw@.len() ==> spec_lhs(raw@[i]@) != spec_lhs(raw@[j]@)
                &&& forall|i: int|
                    0 <= i < raw@.len() ==> (#[trigger] rules@[i]).from@ == spec_lhs(raw@[i]@)
                        && rules@[i].to@ == spec_rhs(raw@[i]@)
            },
            Err(e) => exists|i: int|
                {
                    &&& 0 <= i < raw@.len()
                    &&& (forall|j: int| 0 <= j < i ==> spec_entry_ok(#[trigger] raw@[j]@))
                    &&& (forall|j: int, j2: int|
                        0 <= j < j2 < i ==> spec_lhs(raw@[j]@) != spec_lhs(raw@[j2]@))
                    &&& match e {
                        AliasError::MissingSeparator { entry } => !spec_has_sep(#[trigger] raw@[i]@)
                            && entry@ == raw@[i]@,
                        AliasError::EmptySide { entry } => spec_has_sep(raw@[i]@) && (spec_lhs(
                            raw@[i]@,
                        ).len() == 0 || spec_rhs(raw@[i]@).len() == 0) && entry@ == raw@[i]@,
                        AliasError::DuplicateFrom { from } => spec_entry_ok(raw@[i]@) && from@
                            == spec_lhs(raw@[i]@) && exists|j: int|
                            0 <= j < i && spec_lhs(#[trigger] raw@[j]@) == spec_lhs(raw@[i]@),
                    }
                },
        },
{
    let mut rules: Vec<AliasRule> = Vec::new();
    let mut i: usize = 0;
    while i < raw.len()
        invariant
            0 <= i <= raw@.len(),
            rules@.len() == i,
            forall|j: int| 0 <= j < i ==> spec_entry_ok(#[trigger] raw@[j]@),
            forall|j: int, j2: int|
                0 <= j < j2 < i ==> spec_lhs(raw@[j]@) != spec_lhs(raw@[j2]@),
            forall|j: int|
                0 <= j < i ==> (#[trigger] rules@[j]).from@ == spec_lhs(raw@[j]@) && rules@[j].to@
                    == spec_rhs(raw@[j]@),
        decreases raw@.len() - i,
    {
        let entry = &raw[i];
        let sep = match find_eq(entry.as_str()) {
            Some(p) => p,
            None => {
                let err = AliasError::MissingSeparator { entry: entry.clone() };
                proof {
                    let wi = i as int;
                    assert(0 <= wi < raw@.len() && (forall|j: int|
                        0 <= j < wi ==> spec_entry_ok(#[trigger] raw@[j]@)) && (forall|
                        j: int,
                        j2: int,
                    |
                        0 <= j < j2 < wi ==> spec_lhs(raw@[j]@) != spec_lhs(raw@[j2]@))
                        && !spec_has_sep(raw@[wi]@));
                }
                return Err(err);
            },
        };
        let n = entry.as_str().unicode_len();
        let left_raw = entry.as_str().substring_char(0, sep);
        let right_raw = entry.as_str().substring_char(sep + 1, n);
        let from = trim_str(left_raw);
        let to = trim_str(right_raw);
        proof {
            assert(left_raw@ =~= entry@.take(spec_find_eq(entry@)));
            assert(right_raw@ =~= entry@.skip(spec_find_eq(entry@) + 1));
        }
        if from.as_str().unicode_len() == 0 || to.as_str().unicode_len() == 0 {
            let err = AliasError::EmptySide { entry: entry.clone() };
            proof {
                let wi = i as int;
                assert(0 <= wi < raw@.len() && (forall|j: int|
                    0 <= j < wi ==> spec_entry_ok(#[trigger] raw@[j]@)) && (forall|
                    j: int,
                    j2: int,
                |
                    0 <= j < j2 < wi ==> spec_lhs(raw@[j]@) != spec_lhs(raw@[j2]@))
                    && spec_has_sep(raw@[wi]@) && (spec_lhs(raw@[wi]@).len() == 0 || spec_rhs(
                    raw@[wi]@,
                ).len() == 0));
            }
            return Err(err);
        }
        // Reject a left side that repeats an earlier one.
        let mut j: usize = 0;
        while j < rules.len()
            invariant
                0 <= j <= rules@.len(),
                rules@.len() == i,
                i < raw@.len(),
                from@ == spec_lhs(raw@[i as int]@),
                to@ == spec_rhs(raw@[i as int]@),
                spec_entry_ok(raw@[i as int]@),
                forall|x: int| 0 <= x < i ==> spec_entry_ok(#[trigger] raw@[x]@),
                forall|x: int, x2: int|
                    0 <= x < x2 < i ==> spec_lhs(raw@[x]@) != spec_lhs(raw@[x2]@),
                forall|x: int| 0 <= x < j ==> (#[trigger] rules@[x]).from@ != from@,
                forall|x: int|
                    0 <= x < i ==> (#[trigger] rules@[x]).from@ == spec_lhs(raw@[x]@)
                        && rules@[x].to@ == spec_rhs(raw@[x]@),
            decreases rules@.len() - j,
        {
            if rules[j].from == from {
                proof {
                    let wi = i as int;
                    assert(spec_lhs(raw@[j as int]@) == spec_lhs(raw@[wi]@));
                    assert(0 <= wi < raw@.len());
                    assert(forall|x: int| 0 <= x < wi ==> spec_entry_ok(#[trigger] raw@[x]@));
                    assert(forall|x: int, x2: int|
                        0 <= x < x2 < wi ==> spec_lhs(raw@[x]@) != spec_lhs(raw@[x2]@));
                    assert(spec_entry_ok(raw@[wi]@));
                    assert(from@ == spec_lhs(raw@[wi]@));
                    assert(exists|x: int|
                        0 <= x < wi && spec_lhs(#[trigger] raw@[x]@) == spec_lhs(raw@[wi]@));
                }
                return Err(AliasError::DuplicateFrom { from });
            }
            j = j + 1;
        }
        let ghost rules0 = rules@;
        rules.push(AliasRule { from, to });
        proof {
            assert(forall|x: int| 0 <= x < rules0.len() ==> rules@[x] == rules0[x]);
            assert(rules@[i as int].from@ == spec_lhs(raw@[i as int]@));
            assert(rules@[i as int].to@ == spec_rhs(raw@[i as int]@));
            assert forall|x: int, x2: int|
                0 <= x < x2 < i + 1 implies spec_lhs(raw@[x]@) != spec_lhs(raw@[x2]@) by {
                if x2 == i {
                    assert(rules0[x].from@ == spec_lhs(raw@[x]@));
                    assert(rules0[x].from@ != from@);
                }
            }
        }
        i = i + 1;
    }
    Ok(rules)
}

} // verus!
