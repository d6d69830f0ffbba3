//! Segmentation of a file's lines into hunks: coarse top-level blocks,
//! recognised by a state machine over each line's first character, and
//! deduplication of the extracted hunks.

use vstd::prelude::*;
use vstd::string::StrSliceExecFns;
use vstd::string::StringExecFns;

use crate::strutil::push_char;
use crate::views;

verus! {

/// The character that drives the state machine for a line: its first
/// character, or a space if the line is empty.
pub open spec fn line_first(line: Seq<char>) -> char {
    if line.len() == 0 {
        ' '
    } else {
        line[0]
    }
}

/// Characters that, between hunks, mark a line to be discarded: comment
/// lines, use lines, stray closing markers and blank or indented lines.
pub open spec fn is_skip(c: char) -> bool {
    c == '/' || c == 'u' || c == '}' || c == ' '
}

/// The hunks produced by the rest of the input, given the text accumulated
/// so far for the hunk currently being read (`acc` empty: between hunks).
/// A hunk is the concatenation of its lines, each with a trailing newline;
/// an unterminated final block is discarded.
pub open spec fn hunks_from(lines: Seq<Seq<char>>, acc: Seq<char>) -> Seq<Seq<char>>
    decreases lines.len(),
{
    if lines.len() == 0 {
        Seq::empty()
    } else {
        let line = lines[0];
        let rest = lines.drop_first();
        let f = line_first(line);
        if acc.len() == 0 {
            if is_skip(f) {
                hunks_from(rest, acc)
            } else {
                hunks_from(rest, line.push('\n'))
            }
        } else {
            let acc2 = acc + line.push('\n');
            if f == '}' {
                seq![acc2] + hunks_from(rest, Seq::empty())
            } else {
                hunks_from(rest, acc2)
            }
        }
    }
}

/// The ordered sequence of hunks extracted from a file's lines.
pub open spec fn hunks_of(lines: Seq<Seq<char>>) -> Seq<Seq<char>> {
    hunks_from(lines, Seq::empty())
}

/// Extracts the ordered sequence of hunks from a file's lines (each line
/// given without its terminating newline).
#[verifier::loop_isolation(false)]
pub fn extract_hunks(lines: &Vec<String>) -> (r: Vec<String>)
    ensures
        views(r@) == hunks_of(views(lines@)),
{
    let ghost all: Seq<Seq<char>> = views(lines@);
    let mut out: Vec<String> = Vec::new();
    let mut h: String = String::new();
    let mut i: usize = 0;
    proof {
        assert(all.skip(0) =~= all);
        assert(views(out@) + hunks_from(all, h@) =~= hunks_from(all, h@));
    }
    while i < lines.len()
        invariant
            i <= lines@.len(),
            views(out@) + hunks_from(all.skip(i as int), h@) == hunks_of(all),
        decreases lines@.len() - i,
    {
        let line: &String = &lines[i];
        let first: char = if line.as_str().unicode_len() == 0 {
            ' '
        } else {
            line.as_str().get_char(0)
        };
        proof {
            assert(all.skip(i as int)[0] == line@);
            assert(all.skip(i as int).drop_first() =~= all.skip(i + 1));
            assert(first == line_first(line@));
        }
        if h.as_str().is_empty() {
            if first == '/' || first == 'u' || first == '}' || first == ' ' {
                // discard the line: not inside a hunk
            } else {
                h.append(line.as_str());
                push_char(&mut h, '\n');
                assert(h@ =~= line@.push('\n'));
            }
        } else {
            let ghost acc_before: Seq<char> = h@;
            h.append(line.as_str());
            push_char(&mut h, '\n');
            assert(h@ =~= acc_before + line@.push('\n'));
            if first == '}' {
                let ghost out_before: Seq<String> = out@;
                let ghost done: Seq<char> = h@;
                out.push(h);
                h = String::new();
                proof {
                    assert(views(out@) =~= views(out_before).push(done));
                    assert(views(out_before) + (seq![done] + hunks_from(all.skip(i + 1), h@))
                        =~= views(out@) + hunks_from(all.skip(i + 1), h@));
                }
            }
        }
        i = i + 1;
    }
    proof {
        assert(all.skip(lines@.len() as int) =~= Seq::<Seq<char>>::empty());
        assert(views(out@) + hunks_from(all.skip(lines@.len() as int), h@) =~= views(out@));
    }
    out
}

/// Extraction is deterministic: the hunks of a file are a function of its
/// lines alone, so two extractions from the same content agree.
pub proof fn lemma_extraction_deterministic(
    lines: Seq<Seq<char>>,
    r1: Seq<Seq<char>>,
    r2: Seq<Seq<char>>,
)
    requires
        r1 == hunks_of(lines),
        r2 == hunks_of(lines),
    ensures
        r1 == r2,
{
}

/// The input sequence with every repeated text dropped: each hunk text is
/// kept once, at the position of its first occurrence.
pub open spec fn dedup_spec(s: Seq<Seq<char>>) -> Seq<Seq<char>>
    decreases s.len(),
{
    if s.len() == 0 {
        Seq::empty()
    } else {
        let d = dedup_spec(s.drop_last());
        if d.contains(s.last()) {
            d
        } else {
            d.push(s.last())
        }
    }
}

/// No two entries of the sequence hold the same text.
pub open spec fn distinct_texts(s: Seq<Seq<char>>) -> bool {
    forall|i: int, j: int| 0 <= i < j < s.len() ==> s[i] != s[j]
}

/// Deduplication keeps exactly the distinct texts of its input: the result
/// has no repeats, and a text occurs in the result iff it occurs in the
/// input.
pub proof fn lemma_dedup_spec(s: Seq<Seq<char>>)
    ensures
        distinct_texts(dedup_spec(s)),
        forall|t: Seq<char>| #[trigger] dedup_spec(s).contains(t) <==> s.contains(t),
    decreases s.len(),
{
    if s.len() == 0 {
        assert(forall|t: Seq<char>| !dedup_spec(s).contains(t));
        assert(forall|t: Seq<char>| !s.contains(t));
    } else {
        lemma_dedup_spec(s.drop_last());
        let d = dedup_spec(s.drop_last());
        assert forall|t: Seq<char>| #[trigger] dedup_spec(s).contains(t) implies s.contains(t) by {
            let j = choose|j: int| 0 <= j < dedup_spec(s).len() && dedup_spec(s)[j] == t;
            if j < d.len() {
                assert(d[j] == t);
                assert(d.contains(t));
                let k = choose|k: int| 0 <= k < s.drop_last().len() && s.drop_last()[k] == t;
                assert(s[k] == t);
            } else {
                assert(t == s.last());
                assert(s[s.len() - 1] == t);
            }
        }
        assert forall|t: Seq<char>| s.contains(t) implies #[trigger] dedup_spec(s).contains(t) by {
            let k = choose|k: int| 0 <= k < s.len() && s[k] == t;
            if k < s.len() - 1 {
                assert(s.drop_last()[k] == t);
                assert(s.drop_last().contains(t));
                assert(d.contains(t));
                let j = choose|j: int| 0 <= j < d.len() && d[j] == t;
                assert(dedup_spec(s)[j] == t);
            } else {
                assert(t == s.last());
                if d.contains(s.last()) {
                    let j = choose|j: int| 0 <= j < d.len() && d[j] == t;
                    assert(dedup_spec(s)[j] == t);
                } else {
                    assert(dedup_spec(s)[d.len() as int] == t);
                }
            }
        }
        if !d.contains(s.last()) {
            assert forall|i: int, j: int| 0 <= i < j < dedup_spec(s).len() implies dedup_spec(
                s,
            )[i] != dedup_spec(s)[j] by {
                if j == d.len() {
                    assert(dedup_spec(s)[i] == d[i]);
                    assert(d.contains(d[i]));
                }
            }
        }
    }
}

/// Drops repeated hunk texts, keeping the first occurrence of each text in
/// its original position.
#[verifier::loop_isolation(false)]
pub fn dedup_hunks(hunks: &Vec<String>) -> (r: Vec<String>)
    ensures
        views(r@) == dedup_spec(views(hunks@)),
{
    let ghost all: Seq<Seq<char>> = views(hunks@);
    let mut out: Vec<String> = Vec::new();
    let mut i: usize = 0;
    while i < hunks.len()
        invariant
            i <= hunks@.len(),
            views(out@) == dedup_spec(all.take(i as int)),
        decreases hunks@.len() - i,
    {
        let mut found = false;
        let mut j: usize = 0;
        while j < out.len()
            invariant
                j <= out@.len(),
                found <==> exists|k: int| 0 <= k < j && views(out@)[k] == all[i as int],
            decreases out@.len() - j,
        {
            let e = out[j].eq(&hunks[i]);
            proof {
                assert(views(out@)[j as int] == out@[j as int]@);
                assert(all[i as int] == hunks@[i as int]@);
            }
            if e {
                found = true;
            }
            j = j + 1;
        }
        proof {
            assert(found <==> views(out@).contains(all[i as int]));
            assert(all.take(i + 1).drop_last() =~= all.take(i as int));
            assert(all.take(i + 1).last() == all[i as int]);
        }
        if !found {
            let ghost out_before: Seq<String> = out@;
            out.push(hunks[i].clone());
            assert(views(out@) =~= views(out_before).push(all[i as int]));
        }
        i = i + 1;
    }
    proof {
        assert(all.take(hunks@.len() as int) =~= all);
    }
    out
}

} // verus!
