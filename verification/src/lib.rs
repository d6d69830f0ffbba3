//! Review of moved code: extracts coarse top-level blocks ("hunks") from two
//! sets of text files, matches old hunks to new hunks greedily by edit
//! distance, and renders a line diff for each matched pair, so that a reader
//! can confirm that code moved rather than changed.

use vstd::prelude::*;
use vstd::string::StringExecFns;

pub mod diffing;
pub mod distance;
pub mod extract;
pub mod matching;
pub mod report;
pub mod strutil;

use crate::extract::dedup_spec;
use crate::extract::hunks_of;
use crate::extract::lemma_dedup_spec;
use crate::matching::match_outcome;
use crate::matching::Pair;
use crate::report::report_spec;

verus! {

/// The texts of a sequence of strings, as sequences of characters.
pub open spec fn views(v: Seq<String>) -> Seq<Seq<char>> {
    v.map_values(|s: String| s@)
}

/// The lines of each file, as sequences of characters.
pub open spec fn file_views(files: Seq<Vec<String>>) -> Seq<Seq<Seq<char>>> {
    files.map_values(|f: Vec<String>| views(f@))
}

/// All hunks extracted from the given files, in file order: the
/// concatenation of each file's hunk sequence, repeats kept.
pub open spec fn all_hunks(files: Seq<Seq<Seq<char>>>) -> Seq<Seq<char>>
    decreases files.len(),
{
    if files.len() == 0 {
        Seq::empty()
    } else {
        hunks_of(files[0]) + all_hunks(files.drop_first())
    }
}

/// Extracts the hunks of every file, in file order, repeats kept.
#[verifier::loop_isolation(false)]
pub fn collect_hunks(files: &Vec<Vec<String>>) -> (r: Vec<String>)
    ensures
        views(r@) == all_hunks(file_views(files@)),
{
    let ghost fv = file_views(files@);
    let mut r: Vec<String> = Vec::new();
    let mut i: usize = 0;
    proof {
        assert(fv.skip(0) =~= fv);
        assert(views(r@) + all_hunks(fv) =~= all_hunks(fv));
    }
    while i < files.len()
        invariant
            i <= fv.len(),
            views(r@) + all_hunks(fv.skip(i as int)) == all_hunks(fv),
        decreases fv.len() - i,
    {
        let h = crate::extract::extract_hunks(&files[i]);
        proof {
            assert(fv.skip(i as int)[0] == fv[i as int]);
            assert(fv.skip(i as int).drop_first() =~= fv.skip(i + 1));
            assert(fv[i as int] == views(files@[i as int]@));
        }
        let mut j: usize = 0;
        let ghost r_mid = views(r@);
        while j < h.len()
            invariant
                j <= h@.len(),
                views(r@) =~= r_mid + views(h@).take(j as int),
            decreases h@.len() - j,
        {
            let ghost r_b = views(r@);
            r.push(h[j].clone());
            proof {
                assert(views(r@) =~= r_b.push(h@[j as int]@));
                assert(views(h@).take(j + 1) =~= views(h@).take(j as int).push(h@[j as int]@));
            }
            j = j + 1;
        }
        proof {
            assert(views(h@).take(h@.len() as int) =~= views(h@));
            assert(views(r@) + all_hunks(fv.skip(i + 1)) =~= r_mid + (hunks_of(fv[i as int])
                + all_hunks(fv.skip(i + 1))));
        }
        i = i + 1;
    }
    proof {
        assert(fv.skip(files@.len() as int) =~= Seq::<Seq<Seq<char>>>::empty());
        assert(views(r@) + all_hunks(fv.skip(files@.len() as int)) =~= views(r@));
    }
    r
}

/// The argument list split at the first `--`: what comes before it (all
/// arguments, if it is absent) and what comes after it.
pub open spec fn split_spec(args: Seq<Seq<char>>) -> (Seq<Seq<char>>, Seq<Seq<char>>)
    decreases args.len(),
{
    if args.len() == 0 {
        (Seq::<Seq<char>>::empty(), Seq::<Seq<char>>::empty())
    } else if args[0] == "--"@ {
        (Seq::<Seq<char>>::empty(), args.drop_first())
    } else {
        let rest = split_spec(args.drop_first());
        (seq![args[0]] + rest.0, rest.1)
    }
}

/// Splitting takes everything before the first separator and everything
/// after it.
proof fn lemma_split_spec(av: Seq<Seq<char>>, sep: int)
    requires
        0 <= sep <= av.len(),
        forall|k: int| 0 <= k < sep ==> av[k] != "--"@,
        sep < av.len() ==> av[sep] == "--"@,
    ensures
        split_spec(av).0 == av.take(sep),
        split_spec(av).1 == if sep == av.len() {
            Seq::<Seq<char>>::empty()
        } else {
            av.skip(sep + 1)
        },
    decreases av.len(),
{
    if av.len() == 0 {
        assert(split_spec(av).0 =~= av.take(0));
    } else if av[0] == "--"@ {
        assert(sep == 0);
        assert(split_spec(av).0 =~= av.take(0));
        assert(split_spec(av).1 =~= av.skip(1));
    } else {
        assert(sep >= 1);
        let rest = av.drop_first();
        lemma_split_spec(rest, sep - 1);
        assert(split_spec(av).0 =~= av.take(sep)) by {
            assert(rest.take(sep - 1) =~= av.take(sep).drop_first());
            assert(split_spec(av).0 == seq![av[0]] + rest.take(sep - 1));
        }
        if sep < av.len() {
            assert(rest.skip(sep) =~= av.skip(sep + 1));
        }
    }
}

/// Splits the command line arguments at the first `--`: old file names
/// before it, new file names after it; without a `--` every argument is an
/// old file name.
#[verifier::loop_isolation(false)]
pub fn split_args(args: &Vec<String>) -> (r: (Vec<String>, Vec<String>))
    ensures
        views(r.0@) == split_spec(views(args@)).0,
        views(r.1@) == split_spec(views(args@)).1,
{
    let ghost av = views(args@);
    let dd = String::from_str("--");
    let mut sep: usize = args.len();
    let mut i: usize = 0;
    while i < args.len()
        invariant
            i <= av.len(),
            sep == av.len() || (sep < i && av[sep as int] == "--"@),
            sep == av.len() ==> forall|k: int| 0 <= k < i ==> av[k] != "--"@,
            sep < av.len() ==> forall|k: int| 0 <= k < sep ==> av[k] != "--"@,
        decreases av.len() - i,
    {
        if sep == args.len() {
            let e = args[i].eq(&dd);
            proof {
                assert(av[i as int] == args@[i as int]@);
            }
            if e {
                sep = i;
            }
        }
        i = i + 1;
    }
    proof {
        lemma_split_spec(av, sep as int);
    }
    let mut old_files: Vec<String> = Vec::new();
    let mut t: usize = 0;
    while t < sep
        invariant
            t <= sep <= av.len(),
            views(old_files@) =~= av.take(sep as int).take(t as int),
        decreases sep - t,
    {
        let ghost b = views(old_files@);
        old_files.push(args[t].clone());
        proof {
            assert(views(old_files@) =~= b.push(av[t as int]));
            assert(av.take(sep as int).take(t + 1) =~= av.take(sep as int).take(t as int).push(
                av[t as int],
            ));
        }
        t = t + 1;
    }
    proof {
        assert(av.take(sep as int).take(sep as int) =~= av.take(sep as int));
    }
    let mut new_files: Vec<String> = Vec::new();
    if sep < args.len() {
        let mut u: usize = sep + 1;
        while u < args.len()
            invariant
                sep + 1 <= u <= av.len(),
                views(new_files@) =~= av.skip(sep + 1).take(u - sep - 1),
            decreases av.len() - u,
        {
            let ghost b = views(new_files@);
            new_files.push(args[u].clone());
            proof {
                assert(views(new_files@) =~= b.push(av[u as int]));
                assert(av.skip(sep + 1)[u - sep - 1] == av[u as int]);
                assert(av.skip(sep + 1).take(u - sep) =~= av.skip(sep + 1).take(u - sep - 1).push(
                    av[u as int],
                ));
            }
            u = u + 1;
        }
        proof {
            assert(av.skip(sep + 1).take(av.len() - (sep + 1)) =~= av.skip(sep + 1));
        }
    } else {
        proof {
            assert(views(new_files@) =~= Seq::<Seq<char>>::empty());
        }
    }
    (old_files, new_files)
}

/// Runs the whole pipeline on the lines of the old files and of the new
/// files: extracts and counts the hunks of each side, deduplicates them,
/// matches old against new greedily by edit distance, and renders the
/// report. The result is the report text for a matching with the guarantees
/// of `match_outcome` over the two deduplicated hunk lists, the totals
/// counted before deduplication.
pub fn run_report(old_files: &Vec<Vec<String>>, new_files: &Vec<Vec<String>>) -> (r: String)
    ensures
        exists|pairs: Seq<Pair>, uo: Seq<usize>, un: Seq<usize>|
            {
                &&& #[trigger] match_outcome(
                    pairs,
                    uo,
                    un,
                    dedup_spec(all_hunks(file_views(old_files@))),
                    dedup_spec(all_hunks(file_views(new_files@))),
                )
                &&& r@ == report_spec(
                    all_hunks(file_views(old_files@)).len(),
                    all_hunks(file_views(new_files@)).len(),
                    dedup_spec(all_hunks(file_views(old_files@))),
                    dedup_spec(all_hunks(file_views(new_files@))),
                    pairs,
                    uo,
                    un,
                )
            },
{
    let old_all = collect_hunks(old_files);
    let new_all = collect_hunks(new_files);
    let total_old = old_all.len();
    let total_new = new_all.len();
    let old_hunks = crate::extract::dedup_hunks(&old_all);
    let new_hunks = crate::extract::dedup_hunks(&new_all);
    proof {
        lemma_dedup_spec(views(old_all@));
        lemma_dedup_spec(views(new_all@));
    }
    let rep = crate::matching::match_hunks(&old_hunks, &new_hunks);
    let out = crate::report::render_report(total_old, total_new, &old_hunks, &new_hunks, &rep);
    proof {
        assert(match_outcome(
            rep.pairs@,
            rep.unmatched_old@,
            rep.unmatched_new@,
            dedup_spec(all_hunks(file_views(old_files@))),
            dedup_spec(all_hunks(file_views(new_files@))),
        ));
    }
    out
}

} // verus!
