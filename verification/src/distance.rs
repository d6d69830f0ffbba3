//! Edit distance between hunk texts: the mathematical definition, and the
//! executable distance obtained from the `levenshtein` crate.

use vstd::prelude::*;

verus! {

pub open spec fn min_nat(a: nat, b: nat) -> nat {
    if a <= b {
        a
    } else {
        b
    }
}

/// The Levenshtein edit distance between two texts: the least number of
/// single-character insertions, deletions and substitutions that turns one
/// into the other, by the textbook recurrence.
pub open spec fn edit_dist(a: Seq<char>, b: Seq<char>) -> nat
    decreases a.len(), b.len(),
{
    if a.len() == 0 {
        b.len()
    } else if b.len() == 0 {
        a.len()
    } else {
        let del = edit_dist(a.drop_first(), b) + 1;
        let ins = edit_dist(a, b.drop_first()) + 1;
        let tail = edit_dist(a.drop_first(), b.drop_first());
        let sub = if a.first() == b.first() {
            tail
        } else {
            tail + 1
        };
        min_nat(min_nat(del as nat, ins as nat), sub as nat)
    }
}

/// The edit distance is zero exactly between equal texts.
pub proof fn lemma_edit_dist_zero(a: Seq<char>, b: Seq<char>)
    ensures
        edit_dist(a, b) == 0 <==> a == b,
    decreases a.len(), b.len(),
{
    if a.len() == 0 {
        if b.len() == 0 {
            assert(a =~= b);
        }
    } else if b.len() == 0 {
    } else {
        lemma_edit_dist_zero(a.drop_first(), b.drop_first());
        if edit_dist(a, b) == 0 {
            assert(a.first() == b.first());
            assert(a.drop_first() == b.drop_first());
            assert(a.drop_first().len() == b.drop_first().len());
            assert forall|i: int| 0 <= i < a.len() implies a[i] == b[i] by {
                if i > 0 {
                    assert(a[i] == a.drop_first()[i - 1]);
                    assert(b[i] == b.drop_first()[i - 1]);
                }
            }
            assert(a =~= b);
        }
        if a == b {
            assert(a.drop_first() == b.drop_first());
            assert(a.first() == b.first());
            assert(edit_dist(a, b) == 0);
        }
    }
}

/// Relies on `levenshtein::levenshtein`: the Levenshtein edit distance
/// between the two strings, over their characters, counted in
/// single-character insertions, deletions and substitutions.
#[verifier::external_body]
pub(crate) fn lev_distance(a: &str, b: &str) -> (r: usize)
    ensures
        r == edit_dist(a@, b@),
{
    levenshtein::levenshtein(a, b)
}

} // verus!
