//! Parsing of the commit stream's text: one line per commit, three fields
//! separated by the ASCII unit separator (0x1F) — hash, author name, and an
//! RFC 3339 timestamp. Blank lines are skipped; the hash is read and
//! discarded; a line missing a field or carrying an unparseable timestamp
//! fails the run.

use vstd::prelude::*;

use crate::alias::spec_trim;
use crate::commit::{Commit, CommitView};
use crate::rewrite::{spec_name_views, spec_views};
use crate::rfc3339::{parse_rfc3339, rfc3339_parse};
use crate::timestamp::Timestamp;

verus! {

/// Splitting a character sequence on a separator: the fields between the
/// separators, in order; `n` separators yield `n + 1` fields.
pub open spec fn spec_split(s: Seq<char>, sep: char) -> Seq<Seq<char>>
    decreases s.len(),
{
    if s.len() == 0 {
        seq![Seq::<char>::empty()]
    } else {
        let rest = spec_split(s.drop_first(), sep);
        if s[0] == sep {
            seq![Seq::<char>::empty()] + rest
        } else {
            seq![seq![s[0]] + rest[0]] + rest.drop_first()
        }
    }
}

proof fn lemma_split_len_pos(s: Seq<char>, sep: char)
    ensures
        spec_split(s, sep).len() >= 1,
    decreases s.len(),
{
    if s.len() > 0 {
        lemma_split_len_pos(s.drop_first(), sep);
    }
}

/// If the first separator of `s` stands at `k` (or there is none and
/// `k == s.len()`), the split is the prefix before `k` followed by the
/// split of what comes after it.
proof fn lemma_split_at_first(s: Seq<char>, sep: char, k: int)
    requires
        0 <= k <= s.len(),
        forall|j: int| 0 <= j < k ==> s[j] != sep,
        k < s.len() ==> s[k] == sep,
    ensures
        k == s.len() ==> spec_split(s, sep) =~= seq![s],
        k < s.len() ==> spec_split(s, sep) =~= seq![s.take(k)] + spec_split(s.skip(k + 1), sep),
    decreases k,
{
    lemma_split_len_pos(s, sep);
    if k == 0 {
        if s.len() == 0 {
            assert(s =~= Seq::<char>::empty());
        } else if s[0] == sep {
            assert(s.take(0) =~= Seq::<char>::empty());
            assert(s.skip(1) =~= s.drop_first());
        } else {
            // k == 0 == s.len() is impossible here; k == 0 < len needs s[0] == sep.
            assert(false);
        }
    } else {
        lemma_split_at_first(s.drop_first(), sep, k - 1);
        lemma_split_len_pos(s.drop_first(), sep);
        if k == s.len() {
            assert(spec_split(s.drop_first(), sep) =~= seq![s.drop_first()]);
            assert(seq![s[0]] + s.drop_first() =~= s);
            assert(spec_split(s, sep) =~= seq![s]);
        } else {
            let tail = s.drop_first();
            assert(spec_split(tail, sep) =~= seq![tail.take(k - 1)] + spec_split(
                tail.skip(k),
                sep,
            ));
            assert(seq![s[0]] + tail.take(k - 1) =~= s.take(k));
            assert(tail.skip(k) =~= s.skip(k + 1));
            assert(spec_split(s, sep) =~= seq![s.take(k)] + spec_split(s.skip(k + 1), sep));
        }
    }
}

/// Splits a string on a separator character, fields in order.
fn split_char(s: &str, sep: char) -> (r: Vec<String>)
    ensures
        spec_name_views(r@) == spec_split(s@, sep),
{
    let n = s.unicode_len();
    let mut out: Vec<String> = Vec::new();
    let mut start: usize = 0;
    let mut i: usize = 0;
    proof {
        assert(spec_name_views(out@) =~= Seq::<Seq<char>>::empty());
        assert(s@.skip(0) =~= s@);
    }
    while i < n
        invariant
            0 <= start <= i <= n,
            n == s@.len(),
            forall|j: int| start <= j < i ==> s@[j] != sep,
            spec_split(s@, sep) == spec_name_views(out@) + spec_split(s@.skip(start as int), sep),
        decreases n - i,
    {
        if s.get_char(i) == sep {
            let field = s.substring_char(start, i).to_owned();
            let ghost out0 = spec_name_views(out@);
            out.push(field);
            proof {
                let tail = s@.skip(start as int);
                assert forall|j: int| 0 <= j < i - start implies tail[j] != sep by {
                    assert(tail[j] == s@[start + j]);
                }
                assert(tail[i - start as int] == sep);
                lemma_split_at_first(tail, sep, i - start as int);
                assert(tail.take(i - start as int) =~= s@.subrange(start as int, i as int));
                assert(tail.skip(i - start as int + 1) =~= s@.skip(i as int + 1));
                assert(spec_name_views(out@) =~= out0 + seq![s@.subrange(start as int, i as int)]);
                assert(spec_split(s@, sep) == spec_name_views(out@) + spec_split(
                    s@.skip(i as int + 1),
                    sep,
                ));
            }
            start = i + 1;
        }
        i = i + 1;
    }
    let last = s.substring_char(start, n).to_owned();
    let ghost out0 = spec_name_views(out@);
    out.push(last);
    proof {
        let tail = s@.skip(start as int);
        assert forall|j: int| 0 <= j < tail.len() implies tail[j] != sep by {
            assert(tail[j] == s@[start + j]);
        }
        lemma_split_at_first(tail, sep, tail.len() as int);
        assert(tail =~= s@.subrange(start as int, n as int));
        assert(spec_name_views(out@) =~= out0 + seq![s@.subrange(start as int, n as int)]);
        assert(spec_split(s@, sep) =~= spec_name_views(out@));
    }
    out
}

/// A line's body: the line with one trailing carriage return removed.
pub open spec fn spec_line_body(l: Seq<char>) -> Seq<char> {
    if l.len() > 0 && l.last() == '\r' {
        l.drop_last()
    } else {
        l
    }
}

/// A blank line: nothing but whitespace.
pub open spec fn spec_line_blank(l: Seq<char>) -> bool {
    spec_trim(spec_line_body(l)).len() == 0
}

/// The fields of a line, split on the unit separator.
pub open spec fn spec_line_fields(l: Seq<char>) -> Seq<Seq<char>> {
    spec_split(spec_line_body(l), '\u{1f}')
}

/// A line the parser accepts: blank, or carrying at least three fields
/// with an RFC 3339 timestamp in the third.
pub open spec fn spec_line_good(l: Seq<char>) -> bool {
    spec_line_blank(l) || (spec_line_fields(l).len() >= 3 && rfc3339_parse(
        spec_line_fields(l)[2],
    ) is Some)
}

/// The commit a good, non-blank line denotes: the second field as author,
/// the third parsed as its instant.
pub open spec fn spec_line_commit(l: Seq<char>) -> CommitView {
    match rfc3339_parse(spec_line_fields(l)[2]) {
        Some((ep, off)) => CommitView {
            author: spec_line_fields(l)[1],
            timestamp: Timestamp { epoch_seconds: ep, offset_seconds: off },
        },
        None => CommitView { author: Seq::empty(), timestamp: Timestamp { epoch_seconds: 0, offset_seconds: 0 } },
    }
}

/// The commits of a sequence of good lines, in order, blank lines skipped.
pub open spec fn spec_commits_of_lines(lines: Seq<Seq<char>>) -> Seq<CommitView>
    decreases lines.len(),
{
    if lines.len() == 0 {
        Seq::empty()
    } else {
        let rest = spec_commits_of_lines(lines.drop_last());
        if spec_line_blank(lines.last()) {
            rest
        } else {
            rest.push(spec_line_commit(lines.last()))
        }
    }
}

/// Why the commit stream's text was rejected.
#[derive(Debug)]
pub enum SourceError {
    /// The line has no author field.
    MissingAuthor {
        /// The offending line, carriage return stripped.
        line: String,
    },
    /// The line has no timestamp field.
    MissingTimestamp {
        /// The offending line, carriage return stripped.
        line: String,
    },
    /// The timestamp field is not an RFC 3339 instant.
    Timestamp {
        /// The raw timestamp field.
        raw: String,
    },
}

/// Parses the commit stream's whole text into commit records.
///
/// Lines are split on newlines; a trailing carriage return is stripped
/// from each; blank lines are skipped. Every other line must carry hash,
/// author and RFC 3339 timestamp separated by 0x1F; the first violation
/// aborts with an error naming it.
pub fn parse_git_output(text: &str) -> (r: Result<Vec<Commit>, SourceError>)
    ensures
        match r {
            Ok(v) => {
                &&& forall|i: int|
                    0 <= i < spec_split(text@, '\n').len() ==> spec_line_good(
                        #[trigger] spec_split(text@, '\n')[i],
                    )
                &&& spec_views(v@) == spec_commits_of_lines(spec_split(text@, '\n'))
            },
            Err(e) => exists|i: int|
                {
                    &&& 0 <= i < spec_split(text@, '\n').len()
                    &&& (forall|j: int|
                        0 <= j < i ==> spec_line_good(#[trigger] spec_split(text@, '\n')[j]))
                    &&& !spec_line_good(spec_split(text@, '\n')[i])
                    &&& match e {
                        SourceError::MissingAuthor { line } => spec_line_fields(
                            #[trigger] spec_split(text@, '\n')[i],
                        ).len() < 2 && line@ == spec_line_body(spec_split(text@, '\n')[i]),
                        SourceError::MissingTimestamp { line } => spec_line_fields(
                            spec_split(text@, '\n')[i],
                        ).len() == 2 && line@ == spec_line_body(spec_split(text@, '\n')[i]),
                        SourceError::Timestamp { raw } => spec_line_fields(
                            spec_split(text@, '\n')[i],
                        ).len() >= 3 && raw@ == spec_line_fields(spec_split(text@, '\n')[i])[2],
                    }
                },
        },
{
    let ghost lines_spec = spec_split(text@, '\n');
    let lines = split_char(text, '\n');
    let mut out: Vec<Commit> = Vec::new();
    let mut i: usize = 0;
    proof {
        assert(spec_views(out@) =~= Seq::<CommitView>::empty());
        assert(spec_commits_of_lines(lines_spec.take(0)) == Seq::<CommitView>::empty());
    }
    while i < lines.len()
        invariant
            0 <= i <= lines@.len(),
            spec_name_views(lines@) == lines_spec,
            lines_spec == spec_split(text@, '\n'),
            forall|j: int| 0 <= j < i ==> spec_line_good(#[trigger] lines_spec[j]),
            spec_views(out@) == spec_commits_of_lines(lines_spec.take(i as int)),
        decreases lines@.len() - i,
    {
        let line = &lines[i];
        let ln = line.as_str().unicode_len();
        let body: String = if ln > 0 && line.as_str().get_char(ln - 1) == '\r' {
            line.as_str().substring_char(0, ln - 1).to_owned()
        } else {
            line.clone()
        };
        proof {
            assert(lines@[i as int]@ == lines_spec[i as int]);
            assert(body@ =~= spec_line_body(lines_spec[i as int]));
            assert(lines_spec.take(i as int + 1).drop_last() =~= lines_spec.take(i as int));
            assert(lines_spec.take(i as int + 1).last() == lines_spec[i as int]);
        }
        let trimmed = crate::alias::trim_str(body.as_str());
        if trimmed.as_str().unicode_len() == 0 {
            // Blank line: skipped.
            proof {
                assert(spec_line_blank(lines_spec[i as int]));
            }
        } else {
            let fields = split_char(body.as_str(), '\u{1f}');
            proof {
                assert(spec_name_views(fields@) == spec_line_fields(lines_spec[i as int]));
            }
            if fields.len() < 2 {
                proof {
                    assert(!spec_line_good(lines_spec[i as int]));
                }
                return Err(SourceError::MissingAuthor { line: body });
            }
            if fields.len() < 3 {
                proof {
                    assert(!spec_line_good(lines_spec[i as int]));
                }
                return Err(SourceError::MissingTimestamp { line: body });
            }
            proof {
                assert(fields@[1]@ == spec_line_fields(lines_spec[i as int])[1]);
                assert(fields@[2]@ == spec_line_fields(lines_spec[i as int])[2]);
            }
            let ts = match parse_rfc3339(fields[2].as_str()) {
                Some(t) => t,
                None => {
                    proof {
                        assert(!spec_line_good(lines_spec[i as int]));
                    }
                    return Err(SourceError::Timestamp { raw: fields[2].clone() });
                },
            };
            let ghost out0 = spec_views(out@);
            let author = fields[1].clone();
            out.push(Commit { author, timestamp: ts });
            proof {
                assert(spec_views(out@) =~= out0.push(spec_line_commit(lines_spec[i as int])));
            }
        }
        i = i + 1;
    }
    proof {
        assert(lines_spec.take(lines_spec.len() as int) =~= lines_spec);
    }
    Ok(out)
}

} // verus!
