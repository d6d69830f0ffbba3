use rmc::extract::dedup_hunks;
use rmc::extract::extract_hunks;

fn lines(v: &[&str]) -> Vec<String> {
    v.iter().map(|s| s.to_string()).collect()
}

#[test]
fn one_block_is_one_hunk() {
    let h = extract_hunks(&lines(&["fn a() {", "  1;", "}"]));
    assert_eq!(h, vec!["fn a() {\n  1;\n}\n".to_string()]);
}

#[test]
fn leading_noise_is_discarded() {
    let h = extract_hunks(&lines(&[
        "// a comment",
        "use std::fmt;",
        "",
        "}",
        " indented",
        "fn a() {",
        "}",
    ]));
    assert_eq!(h, vec!["fn a() {\n}\n".to_string()]);
}

#[test]
fn unterminated_trailing_block_is_dropped() {
    let h = extract_hunks(&lines(&["fn a() {", "}", "fn b() {", "  2;"]));
    assert_eq!(h, vec!["fn a() {\n}\n".to_string()]);
}

#[test]
fn inner_lines_are_kept_verbatim() {
    let h = extract_hunks(&lines(&["fn a() {", "  // inner comment", "  use_x();", "}"]));
    assert_eq!(h, vec!["fn a() {\n  // inner comment\n  use_x();\n}\n".to_string()]);
}

#[test]
fn extraction_is_deterministic() {
    let input = lines(&["fn a() {", "  1;", "}", "fn b() {", "}"]);
    let h1 = extract_hunks(&input);
    let h2 = extract_hunks(&input);
    assert_eq!(h1, h2);
    assert_eq!(h1.len(), 2);
}

#[test]
fn two_identical_blocks_dedup_to_one() {
    let h = extract_hunks(&lines(&["fn a() {", "}", "fn a() {", "}"]));
    assert_eq!(h.len(), 2);
    let d = dedup_hunks(&h);
    assert_eq!(d, vec!["fn a() {\n}\n".to_string()]);
}

#[test]
fn dedup_keeps_first_occurrence_order() {
    let h = vec![
        "b\n".to_string(),
        "a\n".to_string(),
        "b\n".to_string(),
        "c\n".to_string(),
        "a\n".to_string(),
    ];
    let d = dedup_hunks(&h);
    assert_eq!(d, vec!["b\n".to_string(), "a\n".to_string(), "c\n".to_string()]);
}
