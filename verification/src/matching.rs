//! Greedy nearest-neighbour matching of old hunks to new hunks by edit
//! distance: every (old, new) pair is scored, the pairs are walked from the
//! smallest distance up, and a pair is accepted whenever neither of its two
//! hunks has been consumed by an earlier pair.

use vstd::prelude::*;

use crate::distance::edit_dist;
use crate::distance::lemma_edit_dist_zero;
use crate::distance::lev_distance;
use crate::extract::distinct_texts;
use crate::views;

verus! {

broadcast use vstd::seq_lib::group_to_multiset_ensures;

/// One matched candidate: an old hunk, a new hunk (both as positions in
/// their side's deduplicated list) and the edit distance of their texts.
#[derive(Clone, Copy, Debug, PartialEq, Eq, Structural)]
pub struct Pair {
    pub old_idx: usize,
    pub new_idx: usize,
    pub dist: usize,
}

/// The pair points into both hunk lists and carries the true edit distance
/// of the texts it joins.
pub open spec fn pair_valid(p: Pair, ov: Seq<Seq<char>>, nv: Seq<Seq<char>>) -> bool {
    &&& p.old_idx < ov.len()
    &&& p.new_idx < nv.len()
    &&& p.dist == edit_dist(ov[p.old_idx as int], nv[p.new_idx as int])
}

pub open spec fn all_valid(s: Seq<Pair>, ov: Seq<Seq<char>>, nv: Seq<Seq<char>>) -> bool {
    forall|k: int| 0 <= k < s.len() ==> pair_valid(#[trigger] s[k], ov, nv)
}

/// Some pair of the list joins old position `i` to new position `j`.
pub open spec fn pairs_join(pairs: Seq<Pair>, i: int, j: int) -> bool {
    exists|a: int|
        0 <= a < pairs.len() && (#[trigger] pairs[a]).old_idx == i && pairs[a].new_idx == j
}

/// Every (old, new) combination occurs somewhere in the candidate list.
pub open spec fn complete(s: Seq<Pair>, ov: Seq<Seq<char>>, nv: Seq<Seq<char>>) -> bool {
    forall|i: int, j: int|
        0 <= i < ov.len() && 0 <= j < nv.len() ==> #[trigger] pairs_join(s, i, j)
}

pub open spec fn sorted_by_dist(s: Seq<Pair>) -> bool {
    forall|k1: int, k2: int|
        #![trigger s[k1], s[k2]]
        0 <= k1 < k2 < s.len() ==> s[k1].dist <= s[k2].dist
}

/// The old hunk at position `i` takes part in some pair.
pub open spec fn matched_old(pairs: Seq<Pair>, i: int) -> bool {
    exists|a: int| 0 <= a < pairs.len() && (#[trigger] pairs[a]).old_idx == i
}

/// The new hunk at position `j` takes part in some pair.
pub open spec fn matched_new(pairs: Seq<Pair>, j: int) -> bool {
    exists|a: int| 0 <= a < pairs.len() && (#[trigger] pairs[a]).new_idx == j
}

/// No hunk, on either side, takes part in two pairs.
pub open spec fn pairs_injective(pairs: Seq<Pair>) -> bool {
    forall|a: int, b: int|
        #![trigger pairs[a], pairs[b]]
        0 <= a < b < pairs.len() ==> pairs[a].old_idx != pairs[b].old_idx
            && pairs[a].new_idx != pairs[b].new_idx
}

/// The outcome of the greedy matching: the accepted pairs, in the order they
/// were accepted (ascending distance), and the positions of the hunks left
/// unmatched on each side, in ascending order.
pub struct MatchReport {
    pub pairs: Vec<Pair>,
    pub unmatched_old: Vec<usize>,
    pub unmatched_new: Vec<usize>,
}

/// The distance table: one candidate pair for every (old, new) combination,
/// each scored with the edit distance of the two texts.
#[verifier::loop_isolation(false)]
fn candidates(old_hunks: &Vec<String>, new_hunks: &Vec<String>) -> (r: Vec<Pair>)
    ensures
        all_valid(r@, views(old_hunks@), views(new_hunks@)),
        complete(r@, views(old_hunks@), views(new_hunks@)),
{
    let ghost ov = views(old_hunks@);
    let ghost nv = views(new_hunks@);
    let mut r: Vec<Pair> = Vec::new();
    let mut i: usize = 0;
    while i < old_hunks.len()
        invariant
            i <= ov.len(),
            all_valid(r@, ov, nv),
            forall|i2: int, j2: int|
                0 <= i2 < i && 0 <= j2 < nv.len() ==> #[trigger] pairs_join(r@, i2, j2),
        decreases ov.len() - i,
    {
        let mut j: usize = 0;
        while j < new_hunks.len()
            invariant
                i < ov.len(),
                j <= nv.len(),
                all_valid(r@, ov, nv),
                forall|i2: int, j2: int|
                    0 <= i2 < i && 0 <= j2 < nv.len() ==> #[trigger] pairs_join(r@, i2, j2),
                forall|j2: int| 0 <= j2 < j ==> #[trigger] pairs_join(r@, i as int, j2),
            decreases nv.len() - j,
        {
            let ghost r_before = r@;
            let d = lev_distance(old_hunks[i].as_str(), new_hunks[j].as_str());
            let p = Pair { old_idx: i, new_idx: j, dist: d };
            r.push(p);
            proof {
                assert(r@[r_before.len() as int] == p);
                assert(forall|k: int| 0 <= k < r_before.len() ==> r@[k] == r_before[k]);
                assert(pair_valid(p, ov, nv));
                assert(pairs_join(r@, i as int, j as int));
                assert forall|i2: int, j2: int|
                    0 <= i2 < i && 0 <= j2 < nv.len() implies #[trigger] pairs_join(
                    r@,
                    i2,
                    j2,
                ) by {
                    assert(pairs_join(r_before, i2, j2));
                    let k0 = choose|k: int|
                        0 <= k < r_before.len() && (#[trigger] r_before[k]).old_idx == i2
                            && r_before[k].new_idx == j2;
                    assert(r@[k0].old_idx == i2 && r@[k0].new_idx == j2);
                }
                assert forall|j2: int| 0 <= j2 < j + 1 implies #[trigger] pairs_join(
                    r@,
                    i as int,
                    j2,
                ) by {
                    if j2 < j {
                        assert(pairs_join(r_before, i as int, j2));
                        let k0 = choose|k: int|
                            0 <= k < r_before.len() && (#[trigger] r_before[k]).old_idx == i
                                && r_before[k].new_idx == j2;
                        assert(r@[k0].old_idx == i && r@[k0].new_idx == j2);
                    }
                }
            }
            j = j + 1;
        }
        proof {
            assert forall|i2: int, j2: int|
                0 <= i2 < i + 1 && 0 <= j2 < nv.len() implies #[trigger] pairs_join(
                r@,
                i2,
                j2,
            ) by {
                if i2 == i {
                    assert(pairs_join(r@, i as int, j2));
                }
            }
        }
        i = i + 1;
    }
    r
}

/// Sorts the candidate list ascending by distance; the result holds exactly
/// the input pairs.
#[verifier::loop_isolation(false)]
fn sort_pairs(v: Vec<Pair>) -> (r: Vec<Pair>)
    ensures
        sorted_by_dist(r@),
        r@.to_multiset() == v@.to_multiset(),
{
    let mut src = v;
    let ghost orig = src@;
    let mut out: Vec<Pair> = Vec::new();
    while src.len() > 0
        invariant
            out@.to_multiset().add(src@.to_multiset()) == orig.to_multiset(),
            sorted_by_dist(out@),
            forall|k1: int, k2: int|
                #![trigger out@[k1], src@[k2]]
                0 <= k1 < out@.len() && 0 <= k2 < src@.len() ==> out@[k1].dist <= src@[k2].dist,
        decreases src@.len(),
    {
        let mut mi: usize = 0;
        let mut k: usize = 1;
        while k < src.len()
            invariant
                mi < src@.len(),
                k <= src@.len(),
                forall|t: int| 0 <= t < k ==> src@[mi as int].dist <= (#[trigger] src@[t]).dist,
            decreases src@.len() - k,
        {
            if src[k].dist < src[mi].dist {
                mi = k;
            }
            k = k + 1;
        }
        let ghost src_before = src@;
        let ghost out_before = out@;
        let p = src.remove(mi);
        out.push(p);
        proof {
            assert(src_before.contains(p));
            assert(src@ == src_before.remove(mi as int));
            assert(src@.to_multiset() == src_before.to_multiset().remove(p));
            assert(out@.to_multiset() == out_before.to_multiset().insert(p));
            assert(out@.to_multiset().add(src@.to_multiset()) =~= orig.to_multiset());
            assert(forall|k2: int|
                0 <= k2 < src@.len() ==> #[trigger] src@[k2] == src_before[k2] || src@[k2]
                    == src_before[k2 + 1]);
            assert(forall|k1: int|
                0 <= k1 < out_before.len() ==> #[trigger] out@[k1] == out_before[k1]);
            assert(out@[out_before.len() as int] == p);
        }
    }
    out
}

/// Any two sequences holding the same multiset of pairs hold the same pairs.
proof fn lemma_same_multiset_same_members(a: Seq<Pair>, b: Seq<Pair>)
    requires
        a.to_multiset() == b.to_multiset(),
    ensures
        forall|x: Pair| a.contains(x) <==> b.contains(x),
{
    assert forall|x: Pair| a.contains(x) <==> b.contains(x) by {
        assert(a.contains(x) <==> a.to_multiset().count(x) > 0);
        assert(b.contains(x) <==> b.to_multiset().count(x) > 0);
    }
}

/// A fresh vector of `n` entries, all false.
#[verifier::loop_isolation(false)]
fn false_vec(n: usize) -> (r: Vec<bool>)
    ensures
        r@.len() == n,
        forall|k: int| 0 <= k < n ==> !(#[trigger] r@[k]),
{
    let mut r: Vec<bool> = Vec::new();
    let mut i: usize = 0;
    while i < n
        invariant
            i <= n,
            r@.len() == i,
            forall|k: int| 0 <= k < i ==> !(#[trigger] r@[k]),
        decreases n - i,
    {
        r.push(false);
        i = i + 1;
    }
    r
}

/// Some candidate at position `k` or later joins old position `i` to new
/// position `j`.
pub open spec fn cand_ahead(s: Seq<Pair>, k: int, i: int, j: int) -> bool {
    exists|k2: int|
        k <= k2 < s.len() && (#[trigger] s[k2]).old_idx == i && s[k2].new_idx == j
}

/// The greedy walk over the sorted candidate list: accepts a candidate when
/// neither of its hunks was consumed by an earlier (hence no farther) pair.
/// Returns the accepted pairs and the consumed markers of both sides.
#[verifier::loop_isolation(false)]
#[verifier::rlimit(100)]
fn greedy_walk(
    s: &Vec<Pair>,
    n: usize,
    m: usize,
    Ghost(ov): Ghost<Seq<Seq<char>>>,
    Ghost(nv): Ghost<Seq<Seq<char>>>,
) -> (res: (Vec<Pair>, Vec<bool>, Vec<bool>))
    requires
        ov.len() == n,
        nv.len() == m,
        distinct_texts(ov),
        distinct_texts(nv),
        sorted_by_dist(s@),
        all_valid(s@, ov, nv),
        complete(s@, ov, nv),
    ensures
        ({
            let (pairs, co, cn) = res;
            &&& all_valid(pairs@, ov, nv)
            &&& pairs_injective(pairs@)
            &&& sorted_by_dist(pairs@)
            &&& co@.len() == n
            &&& cn@.len() == m
            &&& forall|i: int| 0 <= i < n ==> ((#[trigger] co@[i]) <==> matched_old(pairs@, i))
            &&& forall|j: int| 0 <= j < m ==> ((#[trigger] cn@[j]) <==> matched_new(pairs@, j))
            &&& forall|i: int, j: int|
                0 <= i < n && 0 <= j < m && ov[i] == nv[j] ==> #[trigger] pairs_join(pairs@, i, j)
            &&& forall|i: int, j: int|
                #![trigger co@[i], cn@[j]]
                0 <= i < n && 0 <= j < m ==> co@[i] || cn@[j]
            &&& forall|a: int, j: int|
                #![trigger pairs@[a], cn@[j]]
                0 <= a < pairs@.len() && 0 <= j < m && !cn@[j] ==> pairs@[a].dist <= edit_dist(
                    ov[pairs@[a].old_idx as int],
                    nv[j],
                )
            &&& forall|a: int, i: int|
                #![trigger pairs@[a], co@[i]]
                0 <= a < pairs@.len() && 0 <= i < n && !co@[i] ==> pairs@[a].dist <= edit_dist(
                    ov[i],
                    nv[pairs@[a].new_idx as int],
                )
            &&& forall|a: int, b: int|
                #![trigger pairs@[a], pairs@[b]]
                0 <= a < b < pairs@.len() ==> pairs@[a].dist <= edit_dist(
                    ov[pairs@[a].old_idx as int],
                    nv[pairs@[b].new_idx as int],
                ) && pairs@[a].dist <= edit_dist(
                    ov[pairs@[b].old_idx as int],
                    nv[pairs@[a].new_idx as int],
                )
        }),
{
    let mut pairs: Vec<Pair> = Vec::new();
    let mut co: Vec<bool> = false_vec(n);
    let mut cn: Vec<bool> = false_vec(m);
    let mut k: usize = 0;
    proof {
        assert forall|i: int, j: int|
            0 <= i < n && 0 <= j < m && ov[i] == nv[j] implies #[trigger] pairs_join(pairs@, i, j)
            || cand_ahead(s@, 0, i, j) by {
            assert(pairs_join(s@, i, j));
            let k2 = choose|k2: int|
                0 <= k2 < s@.len() && (#[trigger] s@[k2]).old_idx == i && s@[k2].new_idx == j;
            assert(cand_ahead(s@, 0, i, j));
        }
    }
    while k < s.len()
        invariant
            k <= s@.len(),
            co@.len() == n,
            cn@.len() == m,
            all_valid(pairs@, ov, nv),
            pairs_injective(pairs@),
            sorted_by_dist(pairs@),
            forall|i: int| 0 <= i < n ==> ((#[trigger] co@[i]) <==> matched_old(pairs@, i)),
            forall|j: int| 0 <= j < m ==> ((#[trigger] cn@[j]) <==> matched_new(pairs@, j)),
            forall|a: int|
                #![trigger pairs@[a]]
                0 <= a < pairs@.len() ==> exists|kp: int|
                    0 <= kp < k && (#[trigger] s@[kp]) == pairs@[a],
            forall|kp: int|
                0 <= kp < k ==> co@[(#[trigger] s@[kp]).old_idx as int] || cn@[s@[kp].new_idx as int],
            forall|i: int, j: int|
                0 <= i < n && 0 <= j < m && ov[i] == nv[j] ==> #[trigger] pairs_join(pairs@, i, j)
                    || cand_ahead(s@, k as int, i, j),
            forall|a: int, j: int|
                #![trigger pairs@[a], cn@[j]]
                0 <= a < pairs@.len() && 0 <= j < m && !cn@[j] ==> pairs@[a].dist <= edit_dist(
                    ov[pairs@[a].old_idx as int],
                    nv[j],
                ),
            forall|a: int, i: int|
                #![trigger pairs@[a], co@[i]]
                0 <= a < pairs@.len() && 0 <= i < n && !co@[i] ==> pairs@[a].dist <= edit_dist(
                    ov[i],
                    nv[pairs@[a].new_idx as int],
                ),
            forall|a: int, b: int|
                #![trigger pairs@[a], pairs@[b]]
                0 <= a < b < pairs@.len() ==> pairs@[a].dist <= edit_dist(
                    ov[pairs@[a].old_idx as int],
                    nv[pairs@[b].new_idx as int],
                ) && pairs@[a].dist <= edit_dist(
                    ov[pairs@[b].old_idx as int],
                    nv[pairs@[a].new_idx as int],
                ),
        decreases s@.len() - k,
    {
        let c: Pair = s[k];
        proof {
            assert(pair_valid(s@[k as int], ov, nv));
        }
        let ghost pairs_b = pairs@;
        let ghost co_b = co@;
        let ghost cn_b = cn@;
        if !co[c.old_idx] && !cn[c.new_idx] {
            co[c.old_idx] = true;
            cn[c.new_idx] = true;
            pairs.push(c);
            proof {
                let pl = pairs_b.len() as int;
                assert(pairs@[pl] == c);
                assert(forall|a: int| 0 <= a < pl ==> pairs@[a] == pairs_b[a]);
                // each accepted pair was seen at some earlier position
                assert forall|a: int| #![trigger pairs@[a]] 0 <= a < pairs@.len() implies exists|
                    kp: int,
                |
                    0 <= kp < k + 1 && (#[trigger] s@[kp]) == pairs@[a] by {
                    if a < pl {
                        let kp = choose|kp: int| 0 <= kp < k && (#[trigger] s@[kp]) == pairs_b[a];
                        assert(s@[kp] == pairs@[a]);
                    } else {
                        assert(s@[k as int] == pairs@[a]);
                    }
                }
                // the new pair is no closer than any accepted pair
                assert forall|a: int, b: int| 0 <= a < b < pairs@.len() implies (
                #[trigger] pairs@[a]).dist <= (#[trigger] pairs@[b]).dist by {
                    if b == pl {
                        let kp = choose|kp: int| 0 <= kp < k && (#[trigger] s@[kp]) == pairs_b[a];
                        assert(s@[kp].dist <= s@[k as int].dist);
                    }
                }
                // consumed markers track membership in the accepted pairs
                assert forall|i: int| 0 <= i < n implies ((#[trigger] co@[i]) <==> matched_old(
                    pairs@,
                    i,
                )) by {
                    if i == c.old_idx {
                        assert(pairs@[pl].old_idx == i);
                        assert(matched_old(pairs@, i));
                    } else {
                        assert(co@[i] == co_b[i]);
                        if matched_old(pairs@, i) {
                            let a = choose|a: int|
                                0 <= a < pairs@.len() && (#[trigger] pairs@[a]).old_idx == i;
                            assert(a < pl);
                            assert(pairs_b[a].old_idx == i);
                            assert(matched_old(pairs_b, i));
                        }
                        if matched_old(pairs_b, i) {
                            let a = choose|a: int|
                                0 <= a < pairs_b.len() && (#[trigger] pairs_b[a]).old_idx == i;
                            assert(pairs@[a].old_idx == i);
                            assert(matched_old(pairs@, i));
                        }
                    }
                }
                assert forall|j: int| 0 <= j < m implies ((#[trigger] cn@[j]) <==> matched_new(
                    pairs@,
                    j,
                )) by {
                    if j == c.new_idx {
                        assert(pairs@[pl].new_idx == j);
                        assert(matched_new(pairs@, j));
                    } else {
                        assert(cn@[j] == cn_b[j]);
                        if matched_new(pairs@, j) {
                            let a = choose|a: int|
                                0 <= a < pairs@.len() && (#[trigger] pairs@[a]).new_idx == j;
                            assert(a < pl);
                            assert(pairs_b[a].new_idx == j);
                            assert(matched_new(pairs_b, j));
                        }
                        if matched_new(pairs_b, j) {
                            let a = choose|a: int|
                                0 <= a < pairs_b.len() && (#[trigger] pairs_b[a]).new_idx == j;
                            assert(pairs@[a].new_idx == j);
                            assert(matched_new(pairs@, j));
                        }
                    }
                }
                // no hunk is matched twice: the new pair uses fresh hunks
                assert forall|a: int, b: int| 0 <= a < b < pairs@.len() implies (
                #[trigger] pairs@[a]).old_idx != (#[trigger] pairs@[b]).old_idx && pairs@[a].new_idx
                    != pairs@[b].new_idx by {
                    if b == pl {
                        assert(pairs_b[a].old_idx == pairs@[a].old_idx);
                        assert(matched_old(pairs_b, pairs@[a].old_idx as int));
                        assert(matched_new(pairs_b, pairs@[a].new_idx as int));
                        assert(co_b[pairs@[a].old_idx as int]);
                        assert(cn_b[pairs@[a].new_idx as int]);
                    }
                }
                // every processed candidate has a consumed side
                assert forall|kp: int| 0 <= kp < k + 1 implies co@[(
                #[trigger] s@[kp]).old_idx as int] || cn@[s@[kp].new_idx as int] by {
                    if kp < k {
                        assert(co_b[s@[kp].old_idx as int] || cn_b[s@[kp].new_idx as int]);
                    }
                }
                // equal texts are already joined or still ahead
                assert forall|i: int, j: int|
                    0 <= i < n && 0 <= j < m && ov[i] == nv[j] implies #[trigger] pairs_join(
                    pairs@,
                    i,
                    j,
                ) || cand_ahead(s@, k + 1, i, j) by {
                    assert(pairs_join(pairs_b, i, j) || cand_ahead(s@, k as int, i, j));
                    if pairs_join(pairs_b, i, j) {
                        let a = choose|a: int|
                            0 <= a < pairs_b.len() && (#[trigger] pairs_b[a]).old_idx == i
                                && pairs_b[a].new_idx == j;
                        assert(pairs@[a].old_idx == i && pairs@[a].new_idx == j);
                        assert(pairs_join(pairs@, i, j));
                    } else {
                        let k2 = choose|k2: int|
                            k <= k2 < s@.len() && (#[trigger] s@[k2]).old_idx == i
                                && s@[k2].new_idx == j;
                        if k2 == k {
                            assert(pairs@[pl].old_idx == i && pairs@[pl].new_idx == j);
                            assert(pairs_join(pairs@, i, j));
                        } else {
                            assert(cand_ahead(s@, k + 1, i, j));
                        }
                    }
                }
                // the new pair is no farther than any alternative that is
                // still unconsumed on the far side
                assert forall|a: int, j: int|
                    #![trigger pairs@[a], cn@[j]]
                    0 <= a < pairs@.len() && 0 <= j < m && !cn@[j] implies pairs@[a].dist
                    <= edit_dist(ov[pairs@[a].old_idx as int], nv[j]) by {
                    assert(!cn_b[j]);
                    if a < pl {
                        assert(pairs_b[a] == pairs@[a]);
                    } else {
                        assert(pairs_join(s@, c.old_idx as int, j));
                        let k2 = choose|k2: int|
                            0 <= k2 < s@.len() && (#[trigger] s@[k2]).old_idx == c.old_idx as int
                                && s@[k2].new_idx == j;
                        if k2 < k {
                            assert(co_b[s@[k2].old_idx as int] || cn_b[s@[k2].new_idx as int]);
                            assert(false);
                        }
                        assert(s@[k as int].dist <= s@[k2].dist);
                        assert(pair_valid(s@[k2], ov, nv));
                    }
                }
                assert forall|a: int, i: int|
                    #![trigger pairs@[a], co@[i]]
                    0 <= a < pairs@.len() && 0 <= i < n && !co@[i] implies pairs@[a].dist
                    <= edit_dist(ov[i], nv[pairs@[a].new_idx as int]) by {
                    assert(!co_b[i]);
                    if a < pl {
                        assert(pairs_b[a] == pairs@[a]);
                    } else {
                        assert(pairs_join(s@, i, c.new_idx as int));
                        let k2 = choose|k2: int|
                            0 <= k2 < s@.len() && (#[trigger] s@[k2]).old_idx == i
                                && s@[k2].new_idx == c.new_idx as int;
                        if k2 < k {
                            assert(co_b[s@[k2].old_idx as int] || cn_b[s@[k2].new_idx as int]);
                            assert(false);
                        }
                        assert(s@[k as int].dist <= s@[k2].dist);
                        assert(pair_valid(s@[k2], ov, nv));
                    }
                }
                // earlier pairs are no farther than their cross alternatives
                assert forall|a: int, b: int| 0 <= a < b < pairs@.len() implies (
                #[trigger] pairs@[a]).dist <= edit_dist(
                    ov[pairs@[a].old_idx as int],
                    nv[(#[trigger] pairs@[b]).new_idx as int],
                ) && pairs@[a].dist <= edit_dist(
                    ov[pairs@[b].old_idx as int],
                    nv[pairs@[a].new_idx as int],
                ) by {
                    if b == pl {
                        assert(pairs_b[a] == pairs@[a]);
                        assert(!cn_b[c.new_idx as int]);
                        assert(!co_b[c.old_idx as int]);
                        assert(pairs_b[a].dist <= edit_dist(
                            ov[pairs_b[a].old_idx as int],
                            nv[c.new_idx as int],
                        ));
                        assert(pairs_b[a].dist <= edit_dist(
                            ov[c.old_idx as int],
                            nv[pairs_b[a].new_idx as int],
                        ));
                    }
                }
            }
        } else {
            proof {
                assert(co@[c.old_idx as int] || cn@[c.new_idx as int]);
                assert forall|kp: int| 0 <= kp < k + 1 implies co@[(
                #[trigger] s@[kp]).old_idx as int] || cn@[s@[kp].new_idx as int] by {
                    if kp == k {
                        assert(s@[kp] == c);
                    }
                }
                assert forall|i: int, j: int|
                    0 <= i < n && 0 <= j < m && ov[i] == nv[j] implies #[trigger] pairs_join(
                    pairs@,
                    i,
                    j,
                ) || cand_ahead(s@, k + 1, i, j) by {
                    assert(pairs_join(pairs@, i, j) || cand_ahead(s@, k as int, i, j));
                    if !pairs_join(pairs@, i, j) {
                        let k2 = choose|k2: int|
                            k <= k2 < s@.len() && (#[trigger] s@[k2]).old_idx == i
                                && s@[k2].new_idx == j;
                        if k2 == k {
                            // the candidate at hand joins two equal texts;
                            // whichever side is consumed was consumed at
                            // distance zero, so by distinctness it was
                            // consumed by this very combination
                            lemma_edit_dist_zero(ov[i], nv[j]);
                            assert(s@[k as int].dist == 0);
                            if co@[i] {
                                let a = choose|a: int|
                                    0 <= a < pairs@.len() && (#[trigger] pairs@[a]).old_idx == i;
                                let kp = choose|kp: int|
                                    0 <= kp < k && (#[trigger] s@[kp]) == pairs@[a];
                                assert(s@[kp].dist <= s@[k as int].dist);
                                assert(pairs@[a].dist == 0);
                                assert(pair_valid(pairs@[a], ov, nv));
                                lemma_edit_dist_zero(ov[i], nv[pairs@[a].new_idx as int]);
                                assert(nv[pairs@[a].new_idx as int] == nv[j]);
                                assert(pairs@[a].new_idx == j);
                                assert(pairs_join(pairs@, i, j));
                            } else {
                                assert(cn@[j]);
                                let a = choose|a: int|
                                    0 <= a < pairs@.len() && (#[trigger] pairs@[a]).new_idx == j;
                                let kp = choose|kp: int|
                                    0 <= kp < k && (#[trigger] s@[kp]) == pairs@[a];
                                assert(s@[kp].dist <= s@[k as int].dist);
                                assert(pairs@[a].dist == 0);
                                assert(pair_valid(pairs@[a], ov, nv));
                                lemma_edit_dist_zero(ov[pairs@[a].old_idx as int], nv[j]);
                                assert(ov[pairs@[a].old_idx as int] == ov[i]);
                                assert(pairs@[a].old_idx == i);
                                assert(pairs_join(pairs@, i, j));
                            }
                        } else {
                            assert(cand_ahead(s@, k + 1, i, j));
                        }
                    }
                }
            }
        }
        k = k + 1;
    }
    proof {
        // no candidate is left ahead, so every pair of equal texts is joined
        assert forall|i: int, j: int|
            0 <= i < n && 0 <= j < m && ov[i] == nv[j] implies #[trigger] pairs_join(
            pairs@,
            i,
            j,
        ) by {
            if cand_ahead(s@, s@.len() as int, i, j) {
                let k2 = choose|k2: int|
                    s@.len() <= k2 < s@.len() && (#[trigger] s@[k2]).old_idx == i && s@[k2].new_idx
                        == j;
                assert(false);
            }
        }
        // every combination was processed, so one side is always consumed
        assert forall|i: int, j: int|
            #![trigger co@[i], cn@[j]]
            0 <= i < n && 0 <= j < m implies co@[i] || cn@[j] by {
            assert(pairs_join(s@, i, j));
            let k2 = choose|k2: int|
                0 <= k2 < s@.len() && (#[trigger] s@[k2]).old_idx == i && s@[k2].new_idx == j;
            assert(co@[s@[k2].old_idx as int] || cn@[s@[k2].new_idx as int]);
        }
    }
    (pairs, co, cn)
}


/// Everything the greedy matching guarantees, over the hunk texts of the two
/// sides (both deduplicated): the pairs carry true distances, in ascending
/// order; the matching is injective; equal texts are always joined at
/// distance zero; the unmatched lists are exactly the positions outside the
/// pairs, ascending; no two hunks across from each other are both left
/// unmatched; and no pair is farther apart than its hunks are from anything
/// consumed later or never.
pub open spec fn match_outcome(
    pairs: Seq<Pair>,
    uo: Seq<usize>,
    un: Seq<usize>,
    ov: Seq<Seq<char>>,
    nv: Seq<Seq<char>>,
) -> bool {
    &&& all_valid(pairs, ov, nv)
    &&& pairs_injective(pairs)
    &&& sorted_by_dist(pairs)
    &&& forall|i: int, j: int|
        #![trigger ov[i], nv[j]]
        0 <= i < ov.len() && 0 <= j < nv.len() && ov[i] == nv[j] ==> pairs.contains(
            Pair { old_idx: i as usize, new_idx: j as usize, dist: 0 },
        )
    &&& forall|t: int|
        0 <= t < uo.len() ==> (#[trigger] uo[t]) < ov.len() && !matched_old(pairs, uo[t] as int)
    &&& forall|i: int|
        0 <= i < ov.len() && !(#[trigger] matched_old(pairs, i)) ==> uo.contains(i as usize)
    &&& forall|t1: int, t2: int|
        #![trigger uo[t1], uo[t2]]
        0 <= t1 < t2 < uo.len() ==> uo[t1] < uo[t2]
    &&& forall|t: int|
        0 <= t < un.len() ==> (#[trigger] un[t]) < nv.len() && !matched_new(pairs, un[t] as int)
    &&& forall|j: int|
        0 <= j < nv.len() && !(#[trigger] matched_new(pairs, j)) ==> un.contains(j as usize)
    &&& forall|t1: int, t2: int|
        #![trigger un[t1], un[t2]]
        0 <= t1 < t2 < un.len() ==> un[t1] < un[t2]
    &&& forall|i: int, j: int|
        #![trigger matched_old(pairs, i), matched_new(pairs, j)]
        0 <= i < ov.len() && 0 <= j < nv.len() ==> matched_old(pairs, i) || matched_new(pairs, j)
    &&& forall|a: int, t: int|
        #![trigger pairs[a], un[t]]
        0 <= a < pairs.len() && 0 <= t < un.len() ==> pairs[a].dist <= edit_dist(
            ov[pairs[a].old_idx as int],
            nv[un[t] as int],
        )
    &&& forall|a: int, t: int|
        #![trigger pairs[a], uo[t]]
        0 <= a < pairs.len() && 0 <= t < uo.len() ==> pairs[a].dist <= edit_dist(
            ov[uo[t] as int],
            nv[pairs[a].new_idx as int],
        )
    &&& forall|a: int, b: int|
        #![trigger pairs[a], pairs[b]]
        0 <= a < b < pairs.len() ==> pairs[a].dist <= edit_dist(
            ov[pairs[a].old_idx as int],
            nv[pairs[b].new_idx as int],
        ) && pairs[a].dist <= edit_dist(
            ov[pairs[b].old_idx as int],
            nv[pairs[a].new_idx as int],
        )
}

/// Matches the old hunks against the new hunks, greedily from the smallest
/// edit distance up. Requires both sides deduplicated. Ensures: every pair
/// carries the true distance of the texts it joins; no hunk is in two pairs;
/// pairs come in ascending distance order; hunks with equal texts are always
/// joined to each other at distance zero; the unmatched lists are exactly
/// the positions left out of the pairs, in ascending order; no hunk on
/// either side is left unmatched while the hunk across from it is also
/// unmatched; and no accepted pair is farther apart than its old hunk is
/// from any hunk that an earlier or no pair consumed.
#[verifier::loop_isolation(false)]
#[verifier::rlimit(60)]
pub fn match_hunks(old_hunks: &Vec<String>, new_hunks: &Vec<String>) -> (r: MatchReport)
    requires
        distinct_texts(views(old_hunks@)),
        distinct_texts(views(new_hunks@)),
    ensures
        match_outcome(
            r.pairs@,
            r.unmatched_old@,
            r.unmatched_new@,
            views(old_hunks@),
            views(new_hunks@),
        ),
{
    let ghost ov = views(old_hunks@);
    let ghost nv = views(new_hunks@);
    let n = old_hunks.len();
    let m = new_hunks.len();
    let cands = candidates(old_hunks, new_hunks);
    let s = sort_pairs(cands);
    proof {
        lemma_same_multiset_same_members(s@, cands@);
        assert forall|k: int| 0 <= k < s@.len() implies pair_valid(#[trigger] s@[k], ov, nv) by {
            assert(s@.contains(s@[k]));
            assert(cands@.contains(s@[k]));
            let k0 = choose|k0: int| 0 <= k0 < cands@.len() && cands@[k0] == s@[k];
            assert(pair_valid(cands@[k0], ov, nv));
        }
        assert forall|i: int, j: int|
            0 <= i < ov.len() && 0 <= j < nv.len() implies #[trigger] pairs_join(s@, i, j) by {
            assert(pairs_join(cands@, i, j));
            let k0 = choose|a: int|
                0 <= a < cands@.len() && (#[trigger] cands@[a]).old_idx == i && cands@[a].new_idx
                    == j;
            assert(cands@.contains(cands@[k0]));
            assert(s@.contains(cands@[k0]));
            let k1 = choose|k1: int| 0 <= k1 < s@.len() && s@[k1] == cands@[k0];
            assert(s@[k1].old_idx == i && s@[k1].new_idx == j);
        }
    }
    let (pairs, co, cn) = greedy_walk(&s, n, m, Ghost(ov), Ghost(nv));
    let mut unmatched_old: Vec<usize> = Vec::new();
    let mut x: usize = 0;
    while x < n
        invariant
            x <= n,
            forall|t: int|
                0 <= t < unmatched_old@.len() ==> (#[trigger] unmatched_old@[t]) < x
                    && !co@[unmatched_old@[t] as int],
            forall|i2: int|
                0 <= i2 < x && !(#[trigger] co@[i2]) ==> unmatched_old@.contains(i2 as usize),
            forall|t1: int, t2: int|
                #![trigger unmatched_old@[t1], unmatched_old@[t2]]
                0 <= t1 < t2 < unmatched_old@.len() ==> unmatched_old@[t1] < unmatched_old@[t2],
        decreases n - x,
    {
        if !co[x] {
            let ghost ub = unmatched_old@;
            unmatched_old.push(x);
            proof {
                assert(unmatched_old@[ub.len() as int] == x);
                assert(forall|t: int| 0 <= t < ub.len() ==> unmatched_old@[t] == ub[t]);
                assert forall|i2: int|
                    0 <= i2 < x + 1 && !co@[i2] implies unmatched_old@.contains(i2 as usize) by {
                    if i2 == x {
                        assert(unmatched_old@[ub.len() as int] == i2 as usize);
                    } else {
                        assert(ub.contains(i2 as usize));
                        let t = choose|t: int| 0 <= t < ub.len() && ub[t] == i2 as usize;
                        assert(unmatched_old@[t] == i2 as usize);
                    }
                }
            }
        }
        x = x + 1;
    }
    let mut unmatched_new: Vec<usize> = Vec::new();
    let mut y: usize = 0;
    while y < m
        invariant
            y <= m,
            forall|t: int|
                0 <= t < unmatched_new@.len() ==> (#[trigger] unmatched_new@[t]) < y
                    && !cn@[unmatched_new@[t] as int],
            forall|j2: int|
                0 <= j2 < y && !(#[trigger] cn@[j2]) ==> unmatched_new@.contains(j2 as usize),
            forall|t1: int, t2: int|
                #![trigger unmatched_new@[t1], unmatched_new@[t2]]
                0 <= t1 < t2 < unmatched_new@.len() ==> unmatched_new@[t1] < unmatched_new@[t2],
        decreases m - y,
    {
        if !cn[y] {
            let ghost ub = unmatched_new@;
            unmatched_new.push(y);
            proof {
                assert(unmatched_new@[ub.len() as int] == y);
                assert(forall|t: int| 0 <= t < ub.len() ==> unmatched_new@[t] == ub[t]);
                assert forall|j2: int|
                    0 <= j2 < y + 1 && !cn@[j2] implies unmatched_new@.contains(j2 as usize) by {
                    if j2 == y {
                        assert(unmatched_new@[ub.len() as int] == j2 as usize);
                    } else {
                        assert(ub.contains(j2 as usize));
                        let t = choose|t: int| 0 <= t < ub.len() && ub[t] == j2 as usize;
                        assert(unmatched_new@[t] == j2 as usize);
                    }
                }
            }
        }
        y = y + 1;
    }
    let r = MatchReport { pairs, unmatched_old, unmatched_new };
    proof {
        lemma_edit_dist_zero(Seq::<char>::empty(), Seq::<char>::empty());
        assert forall|i: int, j: int|
            #![trigger ov[i], nv[j]]
            0 <= i < n && 0 <= j < m && ov[i] == nv[j] implies r.pairs@.contains(
            Pair { old_idx: i as usize, new_idx: j as usize, dist: 0 },
        ) by {
            assert(pairs_join(r.pairs@, i, j));
            let a = choose|a: int|
                0 <= a < r.pairs@.len() && (#[trigger] r.pairs@[a]).old_idx == i
                    && r.pairs@[a].new_idx == j;
            assert(pair_valid(r.pairs@[a], ov, nv));
            lemma_edit_dist_zero(ov[i], nv[j]);
            assert(r.pairs@[a] == Pair { old_idx: i as usize, new_idx: j as usize, dist: 0 });
            assert(r.pairs@.contains(r.pairs@[a]));
        }
        assert forall|i: int, j: int|
            #![trigger matched_old(r.pairs@, i), matched_new(r.pairs@, j)]
            0 <= i < n && 0 <= j < m implies matched_old(r.pairs@, i) || matched_new(
            r.pairs@,
            j,
        ) by {
            assert(co@[i] || cn@[j]);
        }
        assert forall|i: int|
            0 <= i < n && !(#[trigger] matched_old(r.pairs@, i)) implies r.unmatched_old@.contains(
            i as usize,
        ) by {
            assert(!co@[i]);
        }
        assert forall|j: int|
            0 <= j < m && !(#[trigger] matched_new(r.pairs@, j)) implies r.unmatched_new@.contains(
            j as usize,
        ) by {
            assert(!cn@[j]);
        }
    }
    r
}

} // verus!
