use rmc::diffing::render_diff;
use rmc::report::common_count;
use rmc::report::dec_of;
use rmc::report::sep_line;
use rmc::run_report;
use rmc::split_args;

fn lines(v: &[&str]) -> Vec<String> {
    v.iter().map(|s| s.to_string()).collect()
}

#[test]
fn decimal_rendering() {
    assert_eq!(dec_of(0).as_str(), "0");
    assert_eq!(dec_of(7).as_str(), "7");
    assert_eq!(dec_of(42).as_str(), "42");
    assert_eq!(dec_of(100).as_str(), "100");
    assert_eq!(dec_of(98765).as_str(), "98765");
}

#[test]
fn separator_is_72_dashes() {
    let s = sep_line();
    assert_eq!(s.len(), 72);
    assert!(s.chars().all(|c| c == '-'));
}

#[test]
fn common_count_is_the_intersection_size() {
    let old = lines(&["a\n", "b\n", "c\n"]);
    let new = lines(&["c\n", "x\n", "a\n"]);
    assert_eq!(common_count(&old, &new), 2);
    assert_eq!(common_count(&old, &lines(&[])), 0);
}

#[test]
fn diff_of_equal_texts_is_all_context() {
    assert_eq!(render_diff("a\n", "a\n").as_str(), " a\n");
    assert_eq!(
        render_diff("fn a() {\n  1;\n}\n", "fn a() {\n  1;\n}\n").as_str(),
        " fn a() {\n   1;\n }\n"
    );
}

#[test]
fn diff_marks_deleted_and_inserted_lines() {
    assert_eq!(render_diff("a\n", "b\n").as_str(), "-a\n+b\n");
    let d = render_diff("fn a() {\n  1;\n}\n", "fn a() {\n    1;\n}\n");
    assert!(d.contains("-  1;\n"));
    assert!(d.contains("+    1;\n"));
    assert!(d.contains(" fn a() {\n"));
}

#[test]
fn split_args_at_first_separator() {
    let (o, n) = split_args(&lines(&["a", "b", "--", "c"]));
    assert_eq!(o, lines(&["a", "b"]));
    assert_eq!(n, lines(&["c"]));
}

#[test]
fn split_args_without_separator_is_all_old() {
    let (o, n) = split_args(&lines(&["a", "b"]));
    assert_eq!(o, lines(&["a", "b"]));
    assert!(n.is_empty());
}

#[test]
fn split_args_keeps_later_separators_as_new_files() {
    let (o, n) = split_args(&lines(&["--", "c", "--", "d"]));
    assert!(o.is_empty());
    assert_eq!(n, lines(&["c", "--", "d"]));
}

#[test]
fn report_for_one_moved_block() {
    let old = vec![lines(&["fn a() {", "  1;", "}"])];
    let new = vec![lines(&["fn a() {", "  1;", "}"])];
    let out = run_report(&old, &new);
    let sep = "-".repeat(72);
    let expected = format!(
        "total old hunks: 1\ntotal new hunks: 1\ncommon hunks: 1\n\
         matched 16 to 16 with 0 edits\n{sep}\n fn a() {{\n   1;\n }}\n{sep}\n\n\
         unmatched old hunks:\nunmatched new hunks:\n"
    );
    assert_eq!(out, expected);
}

#[test]
fn report_for_empty_inputs() {
    let out = run_report(&Vec::new(), &Vec::new());
    assert_eq!(
        out,
        "total old hunks: 0\ntotal new hunks: 0\ncommon hunks: 0\n\
         unmatched old hunks:\nunmatched new hunks:\n"
    );
}

#[test]
fn deleted_block_is_reported_unmatched_verbatim() {
    let old = vec![lines(&["fn a() {", "  1;", "}", "fn b() {", "  2;", "}"])];
    let new = vec![lines(&["fn a() {", "  1;", "}"])];
    let out = run_report(&old, &new);
    let sep = "-".repeat(72);
    assert!(out.contains("total old hunks: 2\ntotal new hunks: 1\ncommon hunks: 1\n"));
    assert!(out.contains("matched 16 to 16 with 0 edits\n"));
    let unmatched = format!("unmatched old hunks:\n{sep}\nfn b() {{\n  2;\n}}\n{sep}\n\n");
    assert!(out.contains(&unmatched));
    assert!(out.ends_with("unmatched new hunks:\n"));
}

#[test]
fn duplicate_blocks_count_once_after_dedup() {
    // two identical blocks in one old file: two total, one hunk in the set
    let old = vec![lines(&["fn a() {", "}", "fn a() {", "}"])];
    let new = vec![lines(&["fn a() {", "}"])];
    let out = run_report(&old, &new);
    assert!(out.starts_with(
        "total old hunks: 2\ntotal new hunks: 1\ncommon hunks: 1\n"
    ));
    assert!(out.contains("matched 11 to 11 with 0 edits\n"));
    assert!(out.contains("unmatched old hunks:\nunmatched new hunks:\n"));
}
