use rmc::matching::match_hunks;

fn hunks(v: &[&str]) -> Vec<String> {
    v.iter().map(|s| s.to_string()).collect()
}

#[test]
fn identical_hunks_match_at_distance_zero() {
    let old = hunks(&["fn a() {\n  1;\n}\n"]);
    let new = hunks(&["fn a() {\n  1;\n}\n"]);
    let r = match_hunks(&old, &new);
    assert_eq!(r.pairs.len(), 1);
    assert_eq!(r.pairs[0].old_idx, 0);
    assert_eq!(r.pairs[0].new_idx, 0);
    assert_eq!(r.pairs[0].dist, 0);
    assert!(r.unmatched_old.is_empty());
    assert!(r.unmatched_new.is_empty());
}

#[test]
fn edit_distance_counts_single_character_edits() {
    let r = match_hunks(&hunks(&["kitten"]), &hunks(&["sitting"]));
    assert_eq!(r.pairs.len(), 1);
    assert_eq!(r.pairs[0].dist, 3);
}

#[test]
fn equal_texts_pair_up_before_near_misses() {
    // "aaaa" is byte-identical across the sides; the near miss "aaab" on
    // the old side must not steal it.
    let old = hunks(&["aaab", "aaaa"]);
    let new = hunks(&["aaaa"]);
    let r = match_hunks(&old, &new);
    assert_eq!(r.pairs.len(), 1);
    assert_eq!(r.pairs[0].old_idx, 1);
    assert_eq!(r.pairs[0].new_idx, 0);
    assert_eq!(r.pairs[0].dist, 0);
    assert_eq!(r.unmatched_old, vec![0]);
    assert!(r.unmatched_new.is_empty());
}

#[test]
fn partition_covers_both_sides_without_overlap() {
    let old = hunks(&["fn a() {\n}\n", "fn b() {\n  2;\n}\n", "fn c() {\n  3;\n}\n"]);
    let new = hunks(&["fn a() {\n}\n", "fn c() {\n  3!;\n}\n"]);
    let r = match_hunks(&old, &new);
    // every old position is matched or unmatched, never both
    let mut seen = vec![false; old.len()];
    for p in &r.pairs {
        assert!(!seen[p.old_idx]);
        seen[p.old_idx] = true;
    }
    for &i in &r.unmatched_old {
        assert!(!seen[i]);
        seen[i] = true;
    }
    assert!(seen.iter().all(|&b| b));
    // likewise for the new side
    let mut seen_new = vec![false; new.len()];
    for p in &r.pairs {
        assert!(!seen_new[p.new_idx]);
        seen_new[p.new_idx] = true;
    }
    for &j in &r.unmatched_new {
        assert!(!seen_new[j]);
        seen_new[j] = true;
    }
    assert!(seen_new.iter().all(|&b| b));
    // the smaller side is fully consumed
    assert_eq!(r.pairs.len(), 2);
    assert!(r.unmatched_new.is_empty());
    assert_eq!(r.unmatched_old.len(), 1);
}

#[test]
fn no_hunk_is_matched_twice() {
    let old = hunks(&["aa", "ab", "ba"]);
    let new = hunks(&["aa", "ab", "bb"]);
    let r = match_hunks(&old, &new);
    assert_eq!(r.pairs.len(), 3);
    for a in 0..r.pairs.len() {
        for b in (a + 1)..r.pairs.len() {
            assert_ne!(r.pairs[a].old_idx, r.pairs[b].old_idx);
            assert_ne!(r.pairs[a].new_idx, r.pairs[b].new_idx);
        }
    }
    // pairs come out in ascending distance order
    for w in r.pairs.windows(2) {
        assert!(w[0].dist <= w[1].dist);
    }
}

#[test]
fn reindented_block_still_matches_with_nonzero_distance() {
    let old = hunks(&["fn a() {\n  1;\n}\n"]);
    let new = hunks(&["fn a() {\n    1;\n}\n"]);
    let r = match_hunks(&old, &new);
    assert_eq!(r.pairs.len(), 1);
    assert_eq!(r.pairs[0].dist, 2);
    assert!(r.unmatched_old.is_empty());
    assert!(r.unmatched_new.is_empty());
}

#[test]
fn empty_side_leaves_everything_unmatched() {
    let old = hunks(&["fn a() {\n}\n", "fn b() {\n}\n"]);
    let new: Vec<String> = Vec::new();
    let r = match_hunks(&old, &new);
    assert!(r.pairs.is_empty());
    assert_eq!(r.unmatched_old, vec![0, 1]);
    assert!(r.unmatched_new.is_empty());
}
