//! Rendering of the textual report: aggregate counts, one block per matched
//! pair with its line diff, and the unmatched hunks of each side framed by
//! separator lines.

use vstd::prelude::*;
use vstd::string::StrSliceExecFns;
use vstd::string::StringExecFns;

use crate::diffing::diff_render_spec;
use crate::diffing::render_diff;
use crate::matching::all_valid;
use crate::matching::MatchReport;
use crate::matching::Pair;
use crate::strutil::push_char;
use crate::views;

verus! {

/// The decimal digit character for a value below ten.
pub open spec fn digit_char(d: nat) -> char {
    if d == 0 {
        '0'
    } else if d == 1 {
        '1'
    } else if d == 2 {
        '2'
    } else if d == 3 {
        '3'
    } else if d == 4 {
        '4'
    } else if d == 5 {
        '5'
    } else if d == 6 {
        '6'
    } else if d == 7 {
        '7'
    } else if d == 8 {
        '8'
    } else {
        '9'
    }
}

/// The decimal rendering of a number, most significant digit first.
pub open spec fn dec_str(n: nat) -> Seq<char>
    decreases n,
{
    if n < 10 {
        seq![digit_char(n)]
    } else {
        dec_str(n / 10).push(digit_char(n % 10))
    }
}

fn digit(d: usize) -> (c: char)
    requires
        d < 10,
    ensures
        c == digit_char(d as nat),
{
    if d == 0 {
        '0'
    } else if d == 1 {
        '1'
    } else if d == 2 {
        '2'
    } else if d == 3 {
        '3'
    } else if d == 4 {
        '4'
    } else if d == 5 {
        '5'
    } else if d == 6 {
        '6'
    } else if d == 7 {
        '7'
    } else if d == 8 {
        '8'
    } else {
        '9'
    }
}

/// Renders a count in decimal.
pub fn dec_of(n: usize) -> (r: String)
    ensures
        r@ == dec_str(n as nat),
    decreases n,
{
    if n < 10 {
        let mut s = String::new();
        push_char(&mut s, digit(n));
        proof {
            assert(s@ =~= seq![digit_char(n as nat)]);
        }
        s
    } else {
        let mut s = dec_of(n / 10);
        proof {
            assert((n / 10) as nat == (n as nat) / 10);
            assert((n % 10) as nat == (n as nat) % 10);
        }
        push_char(&mut s, digit(n % 10));
        s
    }
}

/// A separator line of 72 dashes.
pub open spec fn sep_spec() -> Seq<char> {
    Seq::new(72, |i: int| '-')
}

/// Builds the separator line of 72 dashes.
#[verifier::loop_isolation(false)]
pub fn sep_line() -> (r: String)
    ensures
        r@ == sep_spec(),
{
    let mut r = String::new();
    let mut i: usize = 0;
    while i < 72
        invariant
            i <= 72,
            r@.len() == i,
            forall|k: int| 0 <= k < i ==> r@[k] == '-',
        decreases 72 - i,
    {
        push_char(&mut r, '-');
        i = i + 1;
    }
    proof {
        assert(r@ =~= sep_spec());
    }
    r
}

/// How many old texts occur on the new side as well: the size of the
/// intersection, both sides holding distinct texts.
pub open spec fn common_spec(ov: Seq<Seq<char>>, nv: Seq<Seq<char>>) -> nat
    decreases ov.len(),
{
    if ov.len() == 0 {
        0
    } else {
        common_spec(ov.drop_last(), nv) + if nv.contains(ov.last()) {
            1 as nat
        } else {
            0 as nat
        }
    }
}

/// Counts the hunks common to both sides: old hunks whose text also occurs
/// among the new hunks.
#[verifier::loop_isolation(false)]
pub fn common_count(old_hunks: &Vec<String>, new_hunks: &Vec<String>) -> (r: usize)
    ensures
        r == common_spec(views(old_hunks@), views(new_hunks@)),
{
    let ghost ov = views(old_hunks@);
    let ghost nv = views(new_hunks@);
    let mut cnt: usize = 0;
    let mut i: usize = 0;
    while i < old_hunks.len()
        invariant
            i <= ov.len(),
            cnt <= i,
            cnt == common_spec(ov.take(i as int), nv),
        decreases ov.len() - i,
    {
        let mut found = false;
        let mut j: usize = 0;
        while j < new_hunks.len()
            invariant
                j <= nv.len(),
                found <==> exists|k: int| 0 <= k < j && nv[k] == ov[i as int],
            decreases nv.len() - j,
        {
            let e = new_hunks[j].eq(&old_hunks[i]);
            proof {
                assert(nv[j as int] == new_hunks@[j as int]@);
                assert(ov[i as int] == old_hunks@[i as int]@);
            }
            if e {
                found = true;
            }
            j = j + 1;
        }
        proof {
            assert(found <==> nv.contains(ov[i as int]));
            assert(ov.take(i + 1).drop_last() =~= ov.take(i as int));
            assert(ov.take(i + 1).last() == ov[i as int]);
        }
        if found {
            cnt = cnt + 1;
        }
        i = i + 1;
    }
    proof {
        assert(ov.take(old_hunks@.len() as int) =~= ov);
    }
    cnt
}

/// The block printed for one matched pair: its header with the two hunks'
/// lengths in characters and their edit distance, and the rendered line
/// diff between separator lines.
pub open spec fn matched_block_spec(a: Seq<char>, b: Seq<char>, d: nat) -> Seq<char> {
    "matched "@ + dec_str(a.len()) + " to "@ + dec_str(b.len()) + " with "@ + dec_str(d)
        + " edits\n"@ + sep_spec() + "\n"@ + diff_render_spec(a, b) + sep_spec() + "\n\n"@
}

/// The blocks of all matched pairs, in order.
pub open spec fn matched_blocks_spec(ov: Seq<Seq<char>>, nv: Seq<Seq<char>>, pairs: Seq<Pair>) -> Seq<char>
    decreases pairs.len(),
{
    if pairs.len() == 0 {
        Seq::empty()
    } else {
        matched_block_spec(
            ov[pairs[0].old_idx as int],
            nv[pairs[0].new_idx as int],
            pairs[0].dist as nat,
        ) + matched_blocks_spec(ov, nv, pairs.drop_first())
    }
}

/// The block printed for one unmatched hunk: its text framed by separators.
pub open spec fn unmatched_block_spec(t: Seq<char>) -> Seq<char> {
    sep_spec() + "\n"@ + t + sep_spec() + "\n\n"@
}

/// The blocks of one side's unmatched hunks, in the order of the given
/// positions.
pub open spec fn unmatched_blocks_spec(texts: Seq<Seq<char>>, idxs: Seq<usize>) -> Seq<char>
    decreases idxs.len(),
{
    if idxs.len() == 0 {
        Seq::empty()
    } else {
        unmatched_block_spec(texts[idxs[0] as int]) + unmatched_blocks_spec(
            texts,
            idxs.drop_first(),
        )
    }
}

/// The whole report below the argument echo: the three count lines, one
/// block per matched pair, and the unmatched hunks of each side.
pub open spec fn report_spec(
    total_old: nat,
    total_new: nat,
    ov: Seq<Seq<char>>,
    nv: Seq<Seq<char>>,
    pairs: Seq<Pair>,
    uo: Seq<usize>,
    un: Seq<usize>,
) -> Seq<char> {
    "total old hunks: "@ + dec_str(total_old) + "\n"@ + "total new hunks: "@ + dec_str(total_new)
        + "\n"@ + "common hunks: "@ + dec_str(common_spec(ov, nv)) + "\n"@ + matched_blocks_spec(
        ov,
        nv,
        pairs,
    ) + "unmatched old hunks:\n"@ + unmatched_blocks_spec(ov, uo) + "unmatched new hunks:\n"@
        + unmatched_blocks_spec(nv, un)
}

/// Renders the full report for a matching of the given hunks: the counts
/// (the totals as extracted, before deduplication), each matched pair's
/// block with its line diff, and each side's unmatched hunks.
#[verifier::loop_isolation(false)]
#[verifier::rlimit(100)]
pub fn render_report(
    total_old: usize,
    total_new: usize,
    old_hunks: &Vec<String>,
    new_hunks: &Vec<String>,
    rep: &MatchReport,
) -> (r: String)
    requires
        all_valid(rep.pairs@, views(old_hunks@), views(new_hunks@)),
        forall|t: int|
            0 <= t < rep.unmatched_old@.len() ==> (#[trigger] rep.unmatched_old@[t])
                < old_hunks@.len(),
        forall|t: int|
            0 <= t < rep.unmatched_new@.len() ==> (#[trigger] rep.unmatched_new@[t])
                < new_hunks@.len(),
    ensures
        r@ == report_spec(
            total_old as nat,
            total_new as nat,
            views(old_hunks@),
            views(new_hunks@),
            rep.pairs@,
            rep.unmatched_old@,
            rep.unmatched_new@,
        ),
{
    let ghost ov = views(old_hunks@);
    let ghost nv = views(new_hunks@);
    let mut r = String::new();
    r.append("total old hunks: ");
    let d1 = dec_of(total_old);
    r.append(d1.as_str());
    r.append("\n");
    r.append("total new hunks: ");
    let d2 = dec_of(total_new);
    r.append(d2.as_str());
    r.append("\n");
    r.append("common hunks: ");
    let k = common_count(old_hunks, new_hunks);
    let d3 = dec_of(k);
    r.append(d3.as_str());
    r.append("\n");
    let ghost header = "total old hunks: "@ + dec_str(total_old as nat) + "\n"@
        + "total new hunks: "@ + dec_str(total_new as nat) + "\n"@ + "common hunks: "@ + dec_str(
        common_spec(ov, nv),
    ) + "\n"@;
    proof {
        assert(r@ =~= header);
    }
    let mut a: usize = 0;
    proof {
        assert(rep.pairs@.skip(0) =~= rep.pairs@);
    }
    while a < rep.pairs.len()
        invariant
            a <= rep.pairs@.len(),
            r@ + matched_blocks_spec(ov, nv, rep.pairs@.skip(a as int)) == header
                + matched_blocks_spec(ov, nv, rep.pairs@),
        decreases rep.pairs@.len() - a,
    {
        let ghost r_b = r@;
        let p: Pair = rep.pairs[a];
        proof {
            assert(rep.pairs@.skip(a as int)[0] == p);
            assert(rep.pairs@.skip(a as int).drop_first() =~= rep.pairs@.skip(a + 1));
        }
        let lo = old_hunks[p.old_idx].as_str().unicode_len();
        let ln = new_hunks[p.new_idx].as_str().unicode_len();
        r.append("matched ");
        let e1 = dec_of(lo);
        r.append(e1.as_str());
        r.append(" to ");
        let e2 = dec_of(ln);
        r.append(e2.as_str());
        r.append(" with ");
        let e3 = dec_of(p.dist);
        r.append(e3.as_str());
        r.append(" edits\n");
        let sep = sep_line();
        r.append(sep.as_str());
        r.append("\n");
        let d = render_diff(old_hunks[p.old_idx].as_str(), new_hunks[p.new_idx].as_str());
        r.append(d.as_str());
        r.append(sep.as_str());
        r.append("\n\n");
        proof {
            assert(r@ =~= r_b + matched_block_spec(
                ov[p.old_idx as int],
                nv[p.new_idx as int],
                p.dist as nat,
            ));
            assert(r@ + matched_blocks_spec(ov, nv, rep.pairs@.skip(a + 1)) =~= r_b
                + matched_blocks_spec(ov, nv, rep.pairs@.skip(a as int)));
        }
        a = a + 1;
    }
    proof {
        assert(rep.pairs@.skip(rep.pairs@.len() as int)
            =~= Seq::<Pair>::empty());
        assert(r@ + matched_blocks_spec(ov, nv, rep.pairs@.skip(rep.pairs@.len() as int)) =~= r@);
    }
    r.append("unmatched old hunks:\n");
    let ghost mid_old = header + matched_blocks_spec(ov, nv, rep.pairs@)
        + "unmatched old hunks:\n"@;
    let mut t: usize = 0;
    proof {
        assert(rep.unmatched_old@.skip(0) =~= rep.unmatched_old@);
        assert(r@ + unmatched_blocks_spec(ov, rep.unmatched_old@.skip(0)) =~= mid_old
            + unmatched_blocks_spec(ov, rep.unmatched_old@));
    }
    while t < rep.unmatched_old.len()
        invariant
            t <= rep.unmatched_old@.len(),
            r@ + unmatched_blocks_spec(ov, rep.unmatched_old@.skip(t as int)) == mid_old
                + unmatched_blocks_spec(ov, rep.unmatched_old@),
        decreases rep.unmatched_old@.len() - t,
    {
        let ghost r_b = r@;
        let x = rep.unmatched_old[t];
        proof {
            assert(rep.unmatched_old@.skip(t as int)[0] == x);
            assert(rep.unmatched_old@.skip(t as int).drop_first() =~= rep.unmatched_old@.skip(
                t + 1,
            ));
        }
        let sep = sep_line();
        r.append(sep.as_str());
        r.append("\n");
        r.append(old_hunks[x].as_str());
        r.append(sep.as_str());
        r.append("\n\n");
        proof {
            assert(r@ =~= r_b + unmatched_block_spec(ov[x as int]));
            assert(r@ + unmatched_blocks_spec(ov, rep.unmatched_old@.skip(t + 1)) =~= r_b
                + unmatched_blocks_spec(ov, rep.unmatched_old@.skip(t as int)));
        }
        t = t + 1;
    }
    proof {
        assert(rep.unmatched_old@.skip(rep.unmatched_old@.len() as int)
            =~= Seq::<usize>::empty());
        assert(r@ + unmatched_blocks_spec(
            ov,
            rep.unmatched_old@.skip(rep.unmatched_old@.len() as int),
        ) =~= r@);
    }
    r.append("unmatched new hunks:\n");
    let ghost mid_new = mid_old + unmatched_blocks_spec(ov, rep.unmatched_old@)
        + "unmatched new hunks:\n"@;
    let mut u: usize = 0;
    proof {
        assert(rep.unmatched_new@.skip(0) =~= rep.unmatched_new@);
        assert(r@ + unmatched_blocks_spec(nv, rep.unmatched_new@.skip(0)) =~= mid_new
            + unmatched_blocks_spec(nv, rep.unmatched_new@));
    }
    while u < rep.unmatched_new.len()
        invariant
            u <= rep.unmatched_new@.len(),
            r@ + unmatched_blocks_spec(nv, rep.unmatched_new@.skip(u as int)) == mid_new
                + unmatched_blocks_spec(nv, rep.unmatched_new@),
        decreases rep.unmatched_new@.len() - u,
    {
        let ghost r_b = r@;
        let x = rep.unmatched_new[u];
        proof {
            assert(rep.unmatched_new@.skip(u as int)[0] == x);
            assert(rep.unmatched_new@.skip(u as int).drop_first() =~= rep.unmatched_new@.skip(
                u + 1,
            ));
        }
        let sep = sep_line();
        r.append(sep.as_str());
        r.append("\n");
        r.append(new_hunks[x].as_str());
        r.append(sep.as_str());
        r.append("\n\n");
        proof {
            assert(r@ =~= r_b + unmatched_block_spec(nv[x as int]));
            assert(r@ + unmatched_blocks_spec(nv, rep.unmatched_new@.skip(u + 1)) =~= r_b
                + unmatched_blocks_spec(nv, rep.unmatched_new@.skip(u as int)));
        }
        u = u + 1;
    }
    proof {
        assert(rep.unmatched_new@.skip(rep.unmatched_new@.len() as int)
            =~= Seq::<usize>::empty());
        assert(r@ + unmatched_blocks_spec(
            nv,
            rep.unmatched_new@.skip(rep.unmatched_new@.len() as int),
        ) =~= r@);
        assert(r@ =~= report_spec(
            total_old as nat,
            total_new as nat,
            ov,
            nv,
            rep.pairs@,
            rep.unmatched_old@,
            rep.unmatched_new@,
        ));
    }
    r
}

} // verus!
